use vstd::prelude::*;

use crate::text::{is_whitespace, is_ws, string_of};

verus! {

/// A character that continues an identifier or a number.
pub open spec fn is_word(c: char) -> bool {
    ('a' <= c && c <= 'z') || ('A' <= c && c <= 'Z') || ('0' <= c && c <= '9') || c == '_' || (
    '\u{7f}' < c && !is_ws(c))
}

/// Punctuation that the lexer keeps together as one token of three characters.
pub open spec fn is_op3(a: char, b: char, c: char) -> bool {
    (a == '.' && b == '.' && (c == '.' || c == '=')) || (a == '<' && b == '<' && c == '=') || (a
        == '>' && b == '>' && c == '=')
}

/// Punctuation that the lexer keeps together as one token of two characters.
pub open spec fn is_op2(a: char, b: char) -> bool {
    (a == ':' && b == ':') || (a == '-' && b == '>') || (a == '=' && b == '>') || (a == '.' && b
        == '.') || (a == '&' && b == '&') || (a == '|' && b == '|') || (a == '<' && b == '<') || (a
        == '>' && b == '>') || (b == '=' && (a == '=' || a == '!' || a == '<' || a == '>' || a
        == '+' || a == '-' || a == '*' || a == '/' || a == '%' || a == '^' || a == '&' || a
        == '|'))
}

/// How many characters of `s` belong to a string literal whose opening quote
/// came just before `s`: up to and including the closing quote, or all of
/// `s` when the literal is not closed. A backslash escapes the next character.
pub open spec fn quoted_len(s: Seq<char>) -> nat
    decreases s.len(),
{
    if s.len() == 0 {
        0
    } else if s[0] == '\\' {
        if s.len() == 1 {
            1
        } else {
            2 + quoted_len(s.skip(2))
        }
    } else if s[0] == '"' {
        1
    } else {
        1 + quoted_len(s.drop_first())
    }
}

/// The length of the run of word characters at the start of `s`.
pub open spec fn word_len(s: Seq<char>) -> nat
    decreases s.len(),
{
    if s.len() > 0 && is_word(s[0]) {
        1 + word_len(s.drop_first())
    } else {
        0
    }
}

/// The length of the punctuation token at the start of `s`: the longest
/// operator there, or a single character.
pub open spec fn punct_len(s: Seq<char>) -> nat {
    if s.len() >= 3 && is_op3(s[0], s[1], s[2]) {
        3
    } else if s.len() >= 2 && is_op2(s[0], s[1]) {
        2
    } else {
        1
    }
}

/// The length of the token at the start of `s`, whose first character is
/// not whitespace.
pub open spec fn token_len(s: Seq<char>) -> nat {
    if s[0] == '"' {
        1 + quoted_len(s.drop_first())
    } else if is_word(s[0]) {
        1 + word_len(s.drop_first())
    } else {
        punct_len(s)
    }
}

pub proof fn lemma_quoted_len_bound(s: Seq<char>)
    ensures
        quoted_len(s) <= s.len(),
    decreases s.len(),
{
    if s.len() == 0 {
    } else if s[0] == '\\' {
        if s.len() > 1 {
            lemma_quoted_len_bound(s.skip(2));
        }
    } else if s[0] == '"' {
    } else {
        lemma_quoted_len_bound(s.drop_first());
    }
}

pub proof fn lemma_word_len_bound(s: Seq<char>)
    ensures
        word_len(s) <= s.len(),
    decreases s.len(),
{
    if s.len() > 0 && is_word(s[0]) {
        lemma_word_len_bound(s.drop_first());
    }
}

pub proof fn lemma_token_len_bound(s: Seq<char>)
    requires
        s.len() > 0,
    ensures
        1 <= token_len(s) <= s.len(),
{
    lemma_quoted_len_bound(s.drop_first());
    lemma_word_len_bound(s.drop_first());
}

/// The tokens of `s`, in order: whitespace separates tokens and is dropped;
/// a string literal is one token, quotes included.
pub open spec fn tokens_of(s: Seq<char>) -> Seq<Seq<char>>
    decreases s.len(),
{
    if s.len() == 0 {
        seq![]
    } else if is_ws(s[0]) {
        tokens_of(s.drop_first())
    } else {
        let n = token_len(s);
        proof {
            lemma_token_len_bound(s);
        }
        seq![s.take(n as int)] + tokens_of(s.skip(n as int))
    }
}

/// The tokens joined with one space between each two.
pub open spec fn join_tokens(ts: Seq<Seq<char>>) -> Seq<char>
    decreases ts.len(),
{
    if ts.len() == 0 {
        seq![]
    } else if ts.len() == 1 {
        ts[0]
    } else {
        ts[0] + seq![' '] + join_tokens(ts.drop_first())
    }
}

proof fn lemma_quoted_closed(s: Seq<char>, y: Seq<char>)
    requires
        y.len() == 0 || quoted_len(s) < s.len(),
    ensures
        quoted_len(s.take(quoted_len(s) as int) + y) == quoted_len(s),
    decreases s.len(),
{
    lemma_quoted_len_bound(s);
    let n = quoted_len(s);
    let j = s.take(n as int) + y;
    if s.len() == 0 {
        assert(j =~= y);
    } else if s[0] == '\\' {
        if s.len() == 1 {
            assert(j =~= s);
        } else {
            let r = s.skip(2);
            lemma_quoted_closed(r, y);
            assert(j.skip(2) =~= r.take(quoted_len(r) as int) + y);
        }
    } else if s[0] == '"' {
    } else {
        let r = s.drop_first();
        lemma_quoted_closed(r, y);
        assert(j.drop_first() =~= r.take(quoted_len(r) as int) + y);
    }
}

proof fn lemma_word_closed(s: Seq<char>, y: Seq<char>)
    requires
        y.len() == 0 || !is_word(y[0]),
    ensures
        word_len(s.take(word_len(s) as int) + y) == word_len(s),
    decreases s.len(),
{
    lemma_word_len_bound(s);
    let j = s.take(word_len(s) as int) + y;
    if s.len() > 0 && is_word(s[0]) {
        let r = s.drop_first();
        lemma_word_closed(r, y);
        assert(j.drop_first() =~= r.take(word_len(r) as int) + y);
    } else {
        assert(j =~= y);
    }
}

/// A token followed by whitespace, or by nothing where it ended the text,
/// is read back as the same token.
proof fn lemma_token_closed(s: Seq<char>, y: Seq<char>)
    requires
        s.len() > 0,
        !is_ws(s[0]),
        y.len() == 0 || (is_ws(y[0]) && token_len(s) < s.len()),
    ensures
        token_len(s.take(token_len(s) as int) + y) == token_len(s),
{
    lemma_token_len_bound(s);
    let n = token_len(s);
    let j = s.take(n as int) + y;
    let r = s.drop_first();
    if s[0] == '"' {
        lemma_quoted_closed(r, y);
        assert(j.drop_first() =~= r.take(quoted_len(r) as int) + y);
    } else if is_word(s[0]) {
        lemma_word_closed(r, y);
        assert(j.drop_first() =~= r.take(word_len(r) as int) + y);
    } else {
        assert(j[0] == s[0]);
        if n >= 2 {
            assert(j[1] == s[1]);
        }
        if n >= 3 {
            assert(j[2] == s[2]);
        }
    }
}

/// Tokenizing, joining the tokens with single spaces and tokenizing again
/// gives the same tokens.
pub proof fn lemma_tokenize_idempotent(s: Seq<char>)
    ensures
        tokens_of(join_tokens(tokens_of(s))) == tokens_of(s),
    decreases s.len(),
{
    if s.len() == 0 {
    } else if is_ws(s[0]) {
        lemma_tokenize_idempotent(s.drop_first());
    } else {
        lemma_token_len_bound(s);
        let n = token_len(s);
        let t = s.take(n as int);
        let rest = tokens_of(s.skip(n as int));
        let ts = tokens_of(s);
        assert(ts == seq![t] + rest);
        lemma_tokenize_idempotent(s.skip(n as int));
        if rest.len() == 0 {
            assert(join_tokens(ts) == t);
            lemma_token_closed(s, seq![]);
            assert(t + seq![] =~= t);
            assert(t.take(n as int) =~= t);
            assert(t.skip(n as int) =~= Seq::<char>::empty());
            assert(t[0] == s[0]);
            assert(tokens_of(t) == seq![t] + tokens_of(Seq::<char>::empty()));
        } else {
            let y = seq![' '] + join_tokens(rest);
            assert(ts.drop_first() =~= rest);
            assert(join_tokens(ts) =~= t + y);
            lemma_token_closed(s, y);
            let j = t + y;
            assert(j.take(n as int) =~= t);
            assert(j.skip(n as int) =~= y);
            assert(y.drop_first() =~= join_tokens(rest));
            assert(j[0] == s[0]);
            assert(is_ws(y[0]));
            assert(tokens_of(y) == tokens_of(join_tokens(rest)));
            assert(tokens_of(j) == seq![t] + tokens_of(y));
        }
    }
}

/// The views of a sequence of strings.
pub open spec fn views(v: Seq<String>) -> Seq<Seq<char>> {
    v.map_values(|t: String| t@)
}

pub(crate) fn quoted_end(cs: &Vec<char>, i: usize) -> (e: usize)
    requires
        i <= cs@.len(),
    ensures
        e == i + quoted_len(cs@.skip(i as int)),
{
    let mut j = i;
    while j < cs.len()
        invariant
            i <= j <= cs@.len(),
            quoted_len(cs@.skip(i as int)) == (j - i) + quoted_len(cs@.skip(j as int)),
        decreases cs@.len() - j,
    {
        let c = cs[j];
        if c == '\\' {
            if j + 1 >= cs.len() {
                return cs.len();
            }
            assert(cs@.skip(j as int).skip(2) =~= cs@.skip(j + 2));
            j = j + 2;
        } else if c == '"' {
            return j + 1;
        } else {
            assert(cs@.skip(j as int).drop_first() =~= cs@.skip(j + 1));
            j = j + 1;
        }
    }
    assert(cs@.skip(j as int).len() == 0);
    j
}

fn word_end(cs: &Vec<char>, i: usize) -> (e: usize)
    requires
        i <= cs@.len(),
    ensures
        e == i + word_len(cs@.skip(i as int)),
{
    let mut j = i;
    while j < cs.len() && is_word_char(cs[j])
        invariant
            i <= j <= cs@.len(),
            word_len(cs@.skip(i as int)) == (j - i) + word_len(cs@.skip(j as int)),
        decreases cs@.len() - j,
    {
        assert(cs@.skip(j as int).drop_first() =~= cs@.skip(j + 1));
        j = j + 1;
    }
    j
}

pub(crate) fn is_word_char(c: char) -> (r: bool)
    ensures
        r == is_word(c),
{
    ('a' <= c && c <= 'z') || ('A' <= c && c <= 'Z') || ('0' <= c && c <= '9') || c == '_' || (
    '\u{7f}' < c && !is_whitespace(c))
}

fn is_op3_chars(a: char, b: char, c: char) -> (r: bool)
    ensures
        r == is_op3(a, b, c),
{
    (a == '.' && b == '.' && (c == '.' || c == '=')) || (a == '<' && b == '<' && c == '=') || (a
        == '>' && b == '>' && c == '=')
}

fn is_op2_chars(a: char, b: char) -> (r: bool)
    ensures
        r == is_op2(a, b),
{
    (a == ':' && b == ':') || (a == '-' && b == '>') || (a == '=' && b == '>') || (a == '.' && b
        == '.') || (a == '&' && b == '&') || (a == '|' && b == '|') || (a == '<' && b == '<') || (a
        == '>' && b == '>') || (b == '=' && (a == '=' || a == '!' || a == '<' || a == '>' || a
        == '+' || a == '-' || a == '*' || a == '/' || a == '%' || a == '^' || a == '&' || a
        == '|'))
}

/// Where the token that starts at `i` ends.
fn token_end(cs: &Vec<char>, i: usize) -> (e: usize)
    requires
        i < cs@.len(),
        !is_ws(cs@[i as int]),
    ensures
        e == i + token_len(cs@.skip(i as int)),
{
    let ghost s = cs@.skip(i as int);
    assert(s[0] == cs@[i as int]);
    let len = cs.len();
    let c = cs[i];
    if c == '"' {
        assert(s.drop_first() =~= cs@.skip(i + 1));
        quoted_end(cs, i + 1)
    } else if is_word_char(c) {
        assert(s.drop_first() =~= cs@.skip(i + 1));
        word_end(cs, i + 1)
    } else {
        let n = len - i;
        if n >= 3 && is_op3_chars(c, cs[i + 1], cs[i + 2]) {
            i + 3
        } else if n >= 2 && is_op2_chars(c, cs[i + 1]) {
            i + 2
        } else {
            i + 1
        }
    }
}

/// The tokens of `source`: identifiers and numbers, punctuation, and string
/// literals kept whole; whitespace only separates them.
pub fn tokenize(source: &str) -> (r: Vec<String>)
    ensures
        views(r@) == tokens_of(source@),
{
    let cs = crate::text::chars_of(source);
    tokenize_chars(&cs)
}

/// The tokens of the text `cs`.
pub fn tokenize_chars(cs: &Vec<char>) -> (r: Vec<String>)
    ensures
        views(r@) == tokens_of(cs@),
{
    let mut out: Vec<String> = Vec::new();
    let mut i: usize = 0;
    assert(cs@.skip(0) =~= cs@);
    while i < cs.len()
        invariant
            i <= cs@.len(),
            views(out@) + tokens_of(cs@.skip(i as int)) == tokens_of(cs@),
        decreases cs@.len() - i,
    {
        let ghost s = cs@.skip(i as int);
        assert(s[0] == cs@[i as int]);
        if is_whitespace(cs[i]) {
            assert(s.drop_first() =~= cs@.skip(i + 1));
            i = i + 1;
        } else {
            let e = token_end(cs, i);
            proof {
                lemma_token_len_bound(s);
            }
            let t = string_of(cs, i, e);
            let ghost n = token_len(s);
            assert(s.take(n as int) =~= cs@.subrange(i as int, e as int));
            assert(s.skip(n as int) =~= cs@.skip(e as int));
            assert(views(out@.push(t)) =~= views(out@).push(t@));
            assert(views(out@).push(t@) + tokens_of(cs@.skip(e as int)) =~= views(out@) + (seq![t@]
                + tokens_of(cs@.skip(e as int))));
            out.push(t);
            i = e;
        }
    }
    assert(cs@.skip(i as int) =~= Seq::<char>::empty());
    assert(views(out@) + Seq::<Seq<char>>::empty() =~= views(out@));
    out
}

} // verus!
