use vstd::prelude::*;

use crate::check_expansion::{contains_string, tagged_view};
use crate::text::{has_at, matches_at, push_char, string_of};
use crate::error::TestingError;
use crate::tokens::{is_word, is_word_char, quoted_end, quoted_len, tokenize_chars, tokens_of, views};
use crate::text::{is_whitespace, is_ws, lemma_newline_from_bound, newline_from};

verus! {

/// A module declaration `mod name { ... }` in an expanded source text, with
/// character offsets into that text: `outer_start..outer_end` is the whole
/// declaration and `inner_start..inner_end` its body, between the braces.
/// `keyword` is where its `mod` keyword stands. `items` are the modules
/// declared directly in the body, in order. The
/// whole text is a declaration too, with an empty name and the text as body.
#[derive(Debug)]
pub struct ModuleDecl {
    pub name: String,
    pub outer_start: usize,
    pub keyword: usize,
    pub inner_start: usize,
    pub inner_end: usize,
    pub outer_end: usize,
    pub items: Vec<ModuleDecl>,
}

/// `d` lies within `lo..hi`, its body within itself, and its items, in
/// order and apart, within its body.
pub open spec fn decl_wf(d: ModuleDecl, lo: int, hi: int) -> bool
    decreases d, d.items@.len() + 1,
{
    &&& lo <= d.outer_start <= d.inner_start <= d.inner_end <= d.outer_end <= hi
    &&& items_wf(d, d.items@.len() as int)
}

/// The first `i` items of `d` are well formed within its body, in order and
/// apart.
pub open spec fn items_wf(d: ModuleDecl, i: int) -> bool
    decreases d, i,
{
    if i <= 0 || i > d.items@.len() {
        true
    } else {
        proof {
            assert(decreases_to!(d => d.items));
            assert(decreases_to!(d.items => d.items[i - 1]));
        }
        &&& items_wf(d, i - 1)
        &&& decl_wf(d.items[i - 1], d.inner_start as int, d.inner_end as int)
        &&& (i >= 2 ==> d.items[i - 2].outer_end <= d.items[i - 1].outer_start)
    }
}

/// The directory of a declared module's own file, when that file exists:
/// `name.rs` beside the declaring file keeps the directory, `name/mod.rs`
/// enters `name/`. Paths are relative to the source root.
pub open spec fn backing(files: Seq<Seq<char>>, dir: Seq<char>, name: Seq<char>) -> Option<
    Seq<char>,
> {
    if files.contains(dir + name + seq!['.', 'r', 's']) {
        Some(dir)
    } else if files.contains(dir + name + seq!['/', 'm', 'o', 'd', '.', 'r', 's']) {
        Some(dir + name + seq!['/'])
    } else {
        None
    }
}

/// Where the text kept from the body of `d` resumes after its first `i`
/// items: the end of the last of them with a file of its own, or the start
/// of the body.
pub open spec fn cursor(files: Seq<Seq<char>>, dir: Seq<char>, d: ModuleDecl, i: int) -> int
    decreases i,
{
    if i <= 0 || i > d.items@.len() {
        d.inner_start as int
    } else if backing(files, dir, d.items[i - 1].name@) is Some {
        d.items[i - 1].outer_end as int
    } else {
        cursor(files, dir, d, i - 1)
    }
}

/// The text kept from the body of `d` up to the cursor after its first `i`
/// items: everything but the declarations of modules with a file of their
/// own.
pub open spec fn kept_upto(
    text: Seq<char>,
    files: Seq<Seq<char>>,
    dir: Seq<char>,
    d: ModuleDecl,
    i: int,
) -> Seq<char>
    decreases i,
{
    if i <= 0 || i > d.items@.len() {
        seq![]
    } else if backing(files, dir, d.items[i - 1].name@) is Some {
        kept_upto(text, files, dir, d, i - 1) + text.subrange(
            cursor(files, dir, d, i - 1),
            d.items[i - 1].outer_start as int,
        )
    } else {
        kept_upto(text, files, dir, d, i - 1)
    }
}

/// The body of `d` without the modules that have a file of their own.
pub open spec fn kept(text: Seq<char>, files: Seq<Seq<char>>, dir: Seq<char>, d: ModuleDecl) -> Seq<
    char,
> {
    let n = d.items@.len() as int;
    kept_upto(text, files, dir, d, n) + text.subrange(cursor(files, dir, d, n), d.inner_end as int)
}

/// Entries with `p` put in front of each key.
pub open spec fn prefixed(p: Seq<char>, es: Seq<(Seq<char>, Seq<Seq<char>>)>) -> Seq<
    (Seq<char>, Seq<Seq<char>>),
> {
    es.map_values(|e: (Seq<char>, Seq<Seq<char>>)| (p + e.0, e.1))
}

/// The token streams of the modules within `d` (read from `dir`) that have
/// a file of their own: each one's entries, under its name and `/`.
pub open spec fn entries_upto(
    text: Seq<char>,
    files: Seq<Seq<char>>,
    dir: Seq<char>,
    d: ModuleDecl,
    i: int,
) -> Seq<(Seq<char>, Seq<Seq<char>>)>
    decreases d, i,
{
    if i <= 0 || i > d.items@.len() {
        seq![]
    } else {
        proof {
            assert(decreases_to!(d => d.items));
            assert(decreases_to!(d.items => d.items[i - 1]));
        }
        let item = d.items[i - 1];
        let init = entries_upto(text, files, dir, d, i - 1);
        match backing(files, dir, item.name@) {
            Some(next) => init + prefixed(
                item.name@ + seq!['/'],
                partitioned(text, files, next, item),
            ),
            None => init,
        }
    }
}

/// The token stream of each module file within `d`, whose own file lies in
/// `dir`: first those of the modules it declares that have a file of their
/// own, then its own under `mod`, the rest of its body tokenized.
pub open spec fn partitioned(text: Seq<char>, files: Seq<Seq<char>>, dir: Seq<char>, d: ModuleDecl) -> Seq<
    (Seq<char>, Seq<Seq<char>>),
>
    decreases d, d.items@.len() + 1,
{
    entries_upto(text, files, dir, d, d.items@.len() as int).push(
        (seq!['m', 'o', 'd'], tokens_of(kept(text, files, dir, d))),
    )
}

pub proof fn lemma_items_wf(d: ModuleDecl, i: int, k: int)
    requires
        items_wf(d, i),
        0 <= k < i <= d.items@.len(),
    ensures
        decl_wf(d.items[k], d.inner_start as int, d.inner_end as int),
        k >= 1 ==> d.items[k - 1].outer_end <= d.items[k].outer_start,
    decreases i,
{
    if k < i - 1 {
        lemma_items_wf(d, i - 1, k);
    }
}

fn string_mod() -> (r: String)
    ensures
        r@ == seq!['m', 'o', 'd'],
{
    let mut s = String::new();
    push_char(&mut s, 'm');
    push_char(&mut s, 'o');
    push_char(&mut s, 'd');
    assert(s@ =~= seq!['m', 'o', 'd']);
    s
}

fn backing_exec(files: &Vec<String>, dir: &String, name: &String) -> (r: Option<String>)
    ensures
        match backing(views(files@), dir@, name@) {
            Some(next) => r matches Some(s) && s@ == next,
            None => r is None,
        },
{
    let base = dir.clone().concat(name.as_str());
    let mut file = base.clone();
    push_char(&mut file, '.');
    push_char(&mut file, 'r');
    push_char(&mut file, 's');
    assert(file@ =~= dir@ + name@ + seq!['.', 'r', 's']);
    if contains_string(files, &file) {
        return Some(dir.clone());
    }
    let mut index = base.clone();
    push_char(&mut index, '/');
    let next = index.clone();
    push_char(&mut index, 'm');
    push_char(&mut index, 'o');
    push_char(&mut index, 'd');
    push_char(&mut index, '.');
    push_char(&mut index, 'r');
    push_char(&mut index, 's');
    assert(index@ =~= dir@ + name@ + seq!['/', 'm', 'o', 'd', '.', 'r', 's']);
    assert(next@ =~= dir@ + name@ + seq!['/']);
    if contains_string(files, &index) {
        Some(next)
    } else {
        None
    }
}

fn push_range(out: &mut Vec<char>, text: &Vec<char>, lo: usize, hi: usize)
    requires
        lo <= hi <= text.len(),
    ensures
        final(out)@ == old(out)@ + text@.subrange(lo as int, hi as int),
{
    let mut i = lo;
    while i < hi
        invariant
            lo <= i <= hi <= text@.len(),
            out@ == old(out)@ + text@.subrange(lo as int, i as int),
        decreases hi - i,
    {
        out.push(text[i]);
        i = i + 1;
        assert(out@ =~= old(out)@ + text@.subrange(lo as int, i as int));
    }
}

/// The token stream of each module file within `d`, as `partitioned`
/// gives them.
pub fn partition(text: &Vec<char>, files: &Vec<String>, dir: &String, d: &ModuleDecl) -> (r: Vec<
    (String, Vec<String>),
>)
    requires
        decl_wf(*d, 0, text@.len() as int),
    ensures
        tagged_view(r@) == partitioned(text@, views(files@), dir@, *d),
    decreases d, d.items@.len() + 1,
{
    let ghost fs = views(files@);
    let n = d.items.len();
    let mut entries: Vec<(String, Vec<String>)> = Vec::new();
    let mut body: Vec<char> = Vec::new();
    let mut cur = d.inner_start;
    let mut i: usize = 0;
    assert(tagged_view(entries@) =~= Seq::<(Seq<char>, Seq<Seq<char>>)>::empty());
    assert(body@ =~= Seq::<char>::empty());
    proof {
        if n > 0 {
            lemma_items_wf(*d, n as int, 0);
        }
    }
    while i < n
        invariant
            n == d.items@.len(),
            i <= n,
            decl_wf(*d, 0, text@.len() as int),
            fs == views(files@),
            cur as int == cursor(fs, dir@, *d, i as int),
            d.inner_start <= cur <= d.inner_end,
            i < n ==> cur <= d.items@[i as int].outer_start,
            body@ == kept_upto(text@, fs, dir@, *d, i as int),
            tagged_view(entries@) == entries_upto(text@, fs, dir@, *d, i as int),
        decreases n - i,
    {
        proof {
            lemma_items_wf(*d, n as int, i as int);
            if i + 1 < n {
                lemma_items_wf(*d, n as int, i + 1);
            }
            assert(decreases_to!(d => d.items));
            assert(decreases_to!(d.items => d.items[i as int]));
        }
        let item = &d.items[i];
        if let Some(next) = backing_exec(files, dir, &item.name) {
            let sub = partition(text, files, &next, item);
            let mut prefix = item.name.clone();
            push_char(&mut prefix, '/');
            assert(prefix@ =~= item.name@ + seq!['/']);
            assert(*item == d.items[i as int]);
            let ghost before = entries@;
            let mut k: usize = 0;
            while k < sub.len()
                invariant
                    k <= sub@.len(),
                    tagged_view(entries@) == tagged_view(before) + prefixed(
                        prefix@,
                        tagged_view(sub@.take(k as int)),
                    ),
                decreases sub@.len() - k,
            {
                let (key, toks) = &sub[k];
                let full = prefix.clone().concat(key.as_str());
                let ghost mid = entries@;
                entries.push((full, crate::check_expansion::clone_tokens(toks)));
                assert(tagged_view(entries@) =~= tagged_view(mid).push((prefix@ + key@, views(toks@))));
                assert(prefixed(prefix@, tagged_view(sub@.take(k + 1))) =~= prefixed(
                    prefix@,
                    tagged_view(sub@.take(k as int)),
                ).push((prefix@ + key@, views(toks@))));
                k = k + 1;
            }
            assert(sub@.take(k as int) =~= sub@);
            assert(entries_upto(text@, fs, dir@, *d, i + 1) == entries_upto(text@, fs, dir@, *d, i as int)
                + prefixed(item.name@ + seq!['/'], partitioned(text@, fs, next@, *item)));
            push_range(&mut body, text, cur, item.outer_start);
            cur = item.outer_end;
        }
        i = i + 1;
    }
    push_range(&mut body, text, cur, d.inner_end);
    let toks = tokenize_chars(&body);
    let key = string_mod();
    let ghost before = entries@;
    entries.push((key, toks));
    assert(tagged_view(entries@) =~= tagged_view(before).push((key@, views(toks@))));
    entries
}

pub proof fn lemma_items_wf_intro(d: ModuleDecl, i: int)
    requires
        0 <= i <= d.items@.len(),
        forall|k: int|
            0 <= k < i ==> decl_wf(#[trigger] d.items[k], d.inner_start as int, d.inner_end as int),
        forall|k: int| 1 <= k < i ==> d.items[k - 1].outer_end <= #[trigger] d.items[k].outer_start,
    ensures
        items_wf(d, i),
    decreases i,
{
    if i > 0 {
        lemma_items_wf_intro(d, i - 1);
    }
}

/// The first position at or after `j` that holds `c`, or the end of `t`.
pub open spec fn find_from(t: Seq<char>, j: int, c: char) -> int
    decreases t.len() - j,
{
    if 0 <= j < t.len() && t[j] != c {
        find_from(t, j + 1, c)
    } else {
        j
    }
}

pub proof fn lemma_find_from_bound(t: Seq<char>, j: int, c: char)
    requires
        0 <= j <= t.len(),
    ensures
        j <= find_from(t, j, c) <= t.len(),
    decreases t.len() - j,
{
    if j < t.len() && t[j] != c {
        lemma_find_from_bound(t, j + 1, c);
    }
}

/// The end of the run of whitespace that starts at `i`.
pub open spec fn ws_end(t: Seq<char>, i: int) -> int
    decreases t.len() - i,
{
    if 0 <= i < t.len() && is_ws(t[i]) {
        ws_end(t, i + 1)
    } else {
        i
    }
}

/// The end of the run of word characters that starts at `i`.
pub open spec fn word_end(t: Seq<char>, i: int) -> int
    decreases t.len() - i,
{
    if 0 <= i < t.len() && is_word(t[i]) {
        word_end(t, i + 1)
    } else {
        i
    }
}

pub proof fn lemma_run_ends(t: Seq<char>, i: int)
    requires
        0 <= i <= t.len(),
    ensures
        i <= ws_end(t, i) <= t.len(),
        i <= word_end(t, i) <= t.len(),
    decreases t.len() - i,
{
    if i < t.len() {
        lemma_run_ends(t, i + 1);
    }
}

/// Where the body of a module declaration whose `mod` keyword is at `p`
/// opens: the word `mod` (not the end of a longer word), whitespace, a
/// name, optional whitespace and `{`.
pub open spec fn header_end(t: Seq<char>, p: int) -> Option<int> {
    if 0 <= p && p + 3 < t.len() && (p == 0 || !is_word(t[p - 1])) && has_at(
        t,
        p,
        seq!['m', 'o', 'd'],
    ) && is_ws(t[p + 3]) {
        let a = ws_end(t, p + 3);
        let b = word_end(t, a);
        let k = ws_end(t, b);
        if b > a && k < t.len() && t[k] == '{' {
            Some(k)
        } else {
            None
        }
    } else {
        None
    }
}

/// The name in the module declaration whose keyword is at `p`.
pub open spec fn header_name(t: Seq<char>, p: int) -> Seq<char> {
    let a = ws_end(t, p + 3);
    t.subrange(a, word_end(t, a))
}

/// Where a character literal or lifetime that starts at `i` ends: after
/// `'x'`; after the closing quote of an escaped literal; else after the
/// quote alone.
pub open spec fn quote_end(t: Seq<char>, i: int) -> int {
    if t.len() - i > 2 && t[i + 2] == '\'' {
        i + 3
    } else if t.len() - i > 1 && t[i + 1] == '\\' {
        let j = find_from(t, i + 2, '\'');
        if j < t.len() {
            j + 1
        } else {
            t.len() as int
        }
    } else {
        i + 1
    }
}

/// Where the lexical unit that starts at `i` ends: a string literal, a
/// character literal or lifetime, a line comment (up to its newline), the
/// header of a module declaration (up to its opening brace), or a single
/// character.
pub open spec fn unit_end(t: Seq<char>, i: int) -> int {
    if t[i] == '"' {
        i + 1 + quoted_len(t.skip(i + 1))
    } else if t[i] == '\'' {
        quote_end(t, i)
    } else if t[i] == '/' && i + 1 < t.len() && t[i + 1] == '/' {
        newline_from(t, i + 2)
    } else if header_end(t, i) is Some {
        header_end(t, i)->0
    } else {
        i + 1
    }
}

pub proof fn lemma_unit_end_bound(t: Seq<char>, i: int)
    requires
        0 <= i < t.len(),
    ensures
        i < unit_end(t, i) <= t.len(),
{
    crate::tokens::lemma_quoted_len_bound(t.skip(i + 1));
    if t.len() - i > 1 {
        lemma_find_from_bound(t, i + 2, '\'');
    }
    if i + 1 < t.len() {
        lemma_newline_from_bound(t, i + 2);
    }
    if i + 3 < t.len() {
        lemma_run_ends(t, i + 3);
        let a = ws_end(t, i + 3);
        lemma_run_ends(t, a);
        lemma_run_ends(t, word_end(t, a));
    }
}

/// Whether, reading units from `i` with `d` blocks open, every closing
/// brace closes an open block and none is left open at the end. Braces
/// inside literals and comments do not count.
pub open spec fn closes(t: Seq<char>, i: int, d: int) -> bool
    decreases t.len() - i,
{
    if i < 0 || i >= t.len() {
        d == 0
    } else if t[i] == '}' {
        d > 0 && closes(t, i + 1, d - 1)
    } else if t[i] == '{' {
        closes(t, i + 1, d + 1)
    } else {
        proof {
            lemma_unit_end_bound(t, i);
        }
        closes(t, unit_end(t, i), d)
    }
}

/// Whether the braces of an expanded source text balance.
pub open spec fn braces_balance(t: Seq<char>) -> bool {
    closes(t, 0, 0)
}

/// Reading units from `i` with `d` blocks open (`d >= 1`), the brace that
/// closes the outermost of them.
pub open spec fn close_of(t: Seq<char>, i: int, d: int) -> Option<int>
    decreases t.len() - i,
{
    if i < 0 || i >= t.len() {
        None
    } else if t[i] == '}' {
        if d <= 1 {
            Some(i)
        } else {
            close_of(t, i + 1, d - 1)
        }
    } else if t[i] == '{' {
        close_of(t, i + 1, d + 1)
    } else {
        proof {
            lemma_unit_end_bound(t, i);
        }
        close_of(t, unit_end(t, i), d)
    }
}

/// The keywords of the module declarations met at depth 0, reading units
/// from `i` with `d` blocks open, up to the brace that closes the body
/// being read.
pub open spec fn keywords_from(t: Seq<char>, i: int, d: int) -> Seq<int>
    decreases t.len() - i,
{
    if i < 0 || i >= t.len() {
        seq![]
    } else if t[i] == '}' {
        if d <= 0 {
            seq![]
        } else {
            keywords_from(t, i + 1, d - 1)
        }
    } else if t[i] == '{' {
        keywords_from(t, i + 1, d + 1)
    } else {
        proof {
            lemma_unit_end_bound(t, i);
        }
        (if d == 0 && header_end(t, i) is Some {
            seq![i]
        } else {
            seq![]
        }) + keywords_from(t, unit_end(t, i), d)
    }
}

/// The keywords of declarations.
pub open spec fn keywords(items: Seq<ModuleDecl>) -> Seq<int> {
    items.map_values(|x: ModuleDecl| x.keyword as int)
}

/// The start of the whitespace that ends at `j`, not before `lo`.
pub open spec fn ws_back(t: Seq<char>, lo: int, j: int) -> int
    decreases j - lo,
{
    if j > lo && 0 <= j - 1 < t.len() && is_ws(t[j - 1]) {
        ws_back(t, lo, j - 1)
    } else {
        j
    }
}

/// Where a declaration with its keyword at `p` starts: at a `pub` word
/// that stands just before the keyword, after `lo`; else at the keyword.
pub open spec fn pub_start(t: Seq<char>, lo: int, p: int) -> int {
    let j = ws_back(t, lo, p);
    if j < p && j - lo >= 3 && has_at(t, j - 3, seq!['p', 'u', 'b']) && (j - 3 == lo || !is_word(
        t[j - 4],
    )) {
        j - 3
    } else {
        p
    }
}

/// Where the text before the `k`th item of `d` starts in its body.
pub open spec fn floor_at(items: Seq<ModuleDecl>, lo: int, k: int) -> int {
    if k == 0 {
        lo
    } else {
        items[k - 1].outer_end as int
    }
}

/// `it` is the module declaration of `t` whose keyword is at `it.keyword`,
/// in a body whose text before it starts at `lo`: its spans, its name, and
/// its items (those met at depth 0 in its body) are the ones the text
/// gives.
pub open spec fn decl_exact(t: Seq<char>, it: ModuleDecl, lo: int) -> bool
    decreases it, it.items@.len() + 1,
{
    &&& header_end(t, it.keyword as int) == Some(it.inner_start - 1)
    &&& it.name@ == header_name(t, it.keyword as int)
    &&& it.outer_start == pub_start(t, lo, it.keyword as int)
    &&& close_of(t, it.inner_start as int, 1) == Some(it.inner_end as int)
    &&& it.outer_end == it.inner_end + 1
    &&& keywords(it.items@) == keywords_from(t, it.inner_start as int, 0)
    &&& items_exact(t, it, it.items@.len() as int)
}

/// The first `i` items of `d` are the declarations the text gives.
pub open spec fn items_exact(t: Seq<char>, d: ModuleDecl, i: int) -> bool
    decreases d, i,
{
    if i <= 0 || i > d.items@.len() {
        true
    } else {
        proof {
            assert(decreases_to!(d => d.items));
            assert(decreases_to!(d.items => d.items[i - 1]));
        }
        items_exact(t, d, i - 1) && decl_exact(
            t,
            d.items[i - 1],
            floor_at(d.items@, d.inner_start as int, i - 1),
        )
    }
}

/// `d` is the parse of the whole expanded text `t`: a declaration that
/// spans it, whose items are the module declarations the text gives.
pub open spec fn parse_of(t: Seq<char>, d: ModuleDecl) -> bool {
    &&& decl_wf(d, 0, t.len() as int)
    &&& d.outer_start == 0 && d.inner_start == 0
    &&& d.inner_end == t.len() && d.outer_end == t.len()
    &&& keywords(d.items@) == keywords_from(t, 0, 0)
    &&& items_exact(t, d, d.items@.len() as int)
}

pub proof fn lemma_items_exact_intro(t: Seq<char>, d: ModuleDecl, i: int)
    requires
        0 <= i <= d.items@.len(),
        forall|k: int|
            0 <= k < i ==> decl_exact(
                t,
                #[trigger] d.items[k],
                floor_at(d.items@, d.inner_start as int, k),
            ),
    ensures
        items_exact(t, d, i),
    decreases i,
{
    if i > 0 {
        lemma_items_exact_intro(t, d, i - 1);
    }
}

pub proof fn lemma_items_exact_elim(t: Seq<char>, d: ModuleDecl, i: int, k: int)
    requires
        items_exact(t, d, i),
        0 <= k < i <= d.items@.len(),
    ensures
        decl_exact(t, d.items[k], floor_at(d.items@, d.inner_start as int, k)),
    decreases i,
{
    if k < i - 1 {
        lemma_items_exact_elim(t, d, i - 1, k);
    }
}

/// Two bodies of `t` with the same extent, each holding exactly the
/// declarations the text gives there, partition alike.
pub proof fn lemma_same_body(
    t: Seq<char>,
    files: Seq<Seq<char>>,
    dir: Seq<char>,
    a: ModuleDecl,
    b: ModuleDecl,
)
    requires
        a.inner_start == b.inner_start,
        a.inner_end == b.inner_end,
        keywords(a.items@) == keywords_from(t, a.inner_start as int, 0),
        keywords(b.items@) == keywords_from(t, b.inner_start as int, 0),
        items_exact(t, a, a.items@.len() as int),
        items_exact(t, b, b.items@.len() as int),
    ensures
        partitioned(t, files, dir, a) == partitioned(t, files, dir, b),
    decreases a, a.items@.len() + 1,
{
    assert(keywords(a.items@).len() == a.items@.len());
    assert(keywords(b.items@).len() == b.items@.len());
    let n = a.items@.len() as int;
    lemma_same_prefix(t, files, dir, a, b, n);
    assert(kept(t, files, dir, a) == kept(t, files, dir, b));
}

proof fn lemma_same_prefix(
    t: Seq<char>,
    files: Seq<Seq<char>>,
    dir: Seq<char>,
    a: ModuleDecl,
    b: ModuleDecl,
    i: int,
)
    requires
        a.inner_start == b.inner_start,
        a.inner_end == b.inner_end,
        a.items@.len() == b.items@.len(),
        keywords(a.items@) == keywords(b.items@),
        items_exact(t, a, a.items@.len() as int),
        items_exact(t, b, b.items@.len() as int),
        0 <= i <= a.items@.len(),
    ensures
        entries_upto(t, files, dir, a, i) == entries_upto(t, files, dir, b, i),
        cursor(files, dir, a, i) == cursor(files, dir, b, i),
        kept_upto(t, files, dir, a, i) == kept_upto(t, files, dir, b, i),
        i >= 1 ==> a.items[i - 1].outer_end == b.items[i - 1].outer_end,
    decreases a, i,
{
    if i > 0 {
        lemma_same_prefix(t, files, dir, a, b, i - 1);
        let n = a.items@.len() as int;
        lemma_items_exact_elim(t, a, n, i - 1);
        lemma_items_exact_elim(t, b, n, i - 1);
        let ai = a.items[i - 1];
        let bi = b.items[i - 1];
        assert(keywords(a.items@)[i - 1] == ai.keyword as int);
        assert(keywords(b.items@)[i - 1] == bi.keyword as int);
        assert(floor_at(a.items@, a.inner_start as int, i - 1) == floor_at(
            b.items@,
            b.inner_start as int,
            i - 1,
        ));
        assert(ai.inner_start == bi.inner_start);
        assert(ai.name@ == bi.name@);
        assert(decreases_to!(a => a.items));
        assert(decreases_to!(a.items => a.items[i - 1]));
        match backing(files, dir, ai.name@) {
            Some(next) => {
                lemma_same_body(t, files, next, ai, bi);
            },
            None => {},
        }
    }
}

/// Two parses of one text partition alike: `parse_of` fixes the result.
pub proof fn lemma_parse_unique(
    t: Seq<char>,
    files: Seq<Seq<char>>,
    dir: Seq<char>,
    d1: ModuleDecl,
    d2: ModuleDecl,
)
    requires
        parse_of(t, d1),
        parse_of(t, d2),
    ensures
        partitioned(t, files, dir, d1) == partitioned(t, files, dir, d2),
{
    lemma_same_body(t, files, dir, d1, d2);
}

proof fn lemma_no_header(t: Seq<char>, i: int)
    requires
        0 <= i < t.len(),
        t[i] != 'm',
    ensures
        header_end(t, i) is None,
{
    if i + 3 < t.len() && has_at(t, i, seq!['m', 'o', 'd']) {
        assert(t.subrange(i, i + 3)[0] == t[i]);
    }
}

/// The position after a character literal or lifetime that starts at `i`.
fn skip_quote(t: &Vec<char>, i: usize) -> (r: usize)
    requires
        i < t.len(),
        t@[i as int] == '\'',
    ensures
        r == quote_end(t@, i as int),
        i < r <= t@.len(),
{
    let n = t.len();
    if n - i > 2 && t[i + 2] == '\'' {
        return i + 3;
    }
    if n - i > 1 && t[i + 1] == '\\' {
        let mut j = i + 2;
        while j < n && t[j] != '\''
            invariant
                i + 2 <= j <= n,
                n == t@.len(),
                find_from(t@, i + 2, '\'') == find_from(t@, j as int, '\''),
            decreases n - j,
        {
            j = j + 1;
        }
        return if j < n {
            j + 1
        } else {
            n
        };
    }
    i + 1
}

fn skip_spaces(t: &Vec<char>, i: usize) -> (r: usize)
    requires
        i <= t.len(),
    ensures
        r == ws_end(t@, i as int),
        i <= r <= t@.len(),
{
    let mut j = i;
    while j < t.len() && is_whitespace(t[j])
        invariant
            i <= j <= t@.len(),
            ws_end(t@, i as int) == ws_end(t@, j as int),
        decreases t@.len() - j,
    {
        j = j + 1;
    }
    j
}

fn skip_word(t: &Vec<char>, i: usize) -> (r: usize)
    requires
        i <= t.len(),
    ensures
        r == word_end(t@, i as int),
        i <= r <= t@.len(),
{
    let mut j = i;
    while j < t.len() && is_word_char(t[j])
        invariant
            i <= j <= t@.len(),
            word_end(t@, i as int) == word_end(t@, j as int),
        decreases t@.len() - j,
    {
        j = j + 1;
    }
    j
}

/// The header of a module declaration whose keyword is at `i`: where its
/// name starts and ends, and where its body opens.
fn mod_header(t: &Vec<char>, i: usize) -> (r: Option<(usize, usize, usize)>)
    requires
        i < t.len(),
    ensures
        r is Some == header_end(t@, i as int) is Some,
        r matches Some((a, b, k)) ==> k as int == header_end(t@, i as int)->0 && a as int
            == ws_end(t@, i + 3) && b as int == word_end(t@, a as int),
{
    let n = t.len();
    if i > 0 && is_word_char(t[i - 1]) {
        return None;
    }
    if !(n - i > 3 && matches_at(t, i, &['m', 'o', 'd']) && is_whitespace(t[i + 3])) {
        return None;
    }
    let a = skip_spaces(t, i + 3);
    let b = skip_word(t, a);
    let k = skip_spaces(t, b);
    if b > a && k < n && t[k] == '{' {
        Some((a, b, k))
    } else {
        None
    }
}

/// Where a declaration whose `mod` keyword is at `i` starts, as
/// `pub_start` gives it.
fn declaration_start(t: &Vec<char>, lo: usize, i: usize) -> (r: usize)
    requires
        lo <= i < t.len(),
    ensures
        r == pub_start(t@, lo as int, i as int),
        lo <= r <= i,
{
    let mut j = i;
    while j > lo && is_whitespace(t[j - 1])
        invariant
            lo <= j <= i < t@.len(),
            ws_back(t@, lo as int, i as int) == ws_back(t@, lo as int, j as int),
        decreases j,
    {
        j = j - 1;
    }
    if j < i && j - lo >= 3 && matches_at(t, j - 3, &['p', 'u', 'b']) && (j - 3 == lo || !is_word_char(
        t[j - 4],
    )) {
        j - 3
    } else {
        i
    }
}

/// The module declarations directly in the text from `start`, up to the
/// brace that closes the enclosing block (or the end of the text, at the
/// top), with the position where they stop. String and character literals
/// and line comments are skipped; blocks that are not module bodies are
/// passed over whole. `Err` where the braces do not balance.
#[verifier::rlimit(100)]
#[verifier::spinoff_prover]
fn scan_items(t: &Vec<char>, start: usize, top: bool) -> (r: Result<(Vec<ModuleDecl>, usize), ()>)
    requires
        start <= t.len(),
    ensures
        r matches Ok((items, end)) ==> {
            &&& start <= end <= t@.len()
            &&& top ==> end == t@.len()
            &&& !top ==> end < t@.len() && t@[end as int] == '}'
            &&& forall|k: int|
                0 <= k < items@.len() ==> decl_wf(#[trigger] items@[k], start as int, end as int)
            &&& forall|k: int|
                1 <= k < items@.len() ==> items@[k - 1].outer_end <= #[trigger] items@[k].outer_start
            &&& forall|k: int|
                0 <= k < items@.len() ==> decl_exact(
                    t@,
                    #[trigger] items@[k],
                    floor_at(items@, start as int, k),
                )
            &&& keywords(items@) == keywords_from(t@, start as int, 0)
            &&& !top ==> close_of(t@, start as int, 1) == Some(end as int)
            &&& !top ==> forall|d: int|
                d >= 1 ==> #[trigger] close_of(t@, start as int, d + 1) == close_of(t@, end + 1, d)
            &&& !top ==> forall|d: int|
                d >= 0 ==> #[trigger] keywords_from(t@, start as int, d + 1) == keywords_from(
                    t@,
                    end + 1,
                    d,
                )
        },
        !top ==> (r matches Ok((_, c)) ==> forall|d: int|
            d >= 1 ==> #[trigger] closes(t@, start as int, d) == closes(t@, c + 1, d - 1)),
        !top ==> (r is Err ==> forall|d: int| d >= 1 ==> !#[trigger] closes(t@, start as int, d)),
        top ==> (r is Ok <==> closes(t@, start as int, 0)),
    decreases t@.len() - start,
{
    let n = t.len();
    let mut items: Vec<ModuleDecl> = Vec::new();
    let mut i = start;
    let mut floor = start;
    assert(keywords(items@) =~= Seq::<int>::empty());
    while i < n
        invariant
            n == t@.len(),
            start <= floor <= i <= n,
            floor == if items@.len() == 0 {
                start as int
            } else {
                items@.last().outer_end as int
            },
            forall|k: int|
                0 <= k < items@.len() ==> decl_wf(#[trigger] items@[k], start as int, i as int),
            forall|k: int|
                1 <= k < items@.len() ==> items@[k - 1].outer_end <= #[trigger] items@[k].outer_start,
            forall|k: int|
                0 <= k < items@.len() ==> decl_exact(
                    t@,
                    #[trigger] items@[k],
                    floor_at(items@, start as int, k),
                ),
            keywords(items@) + keywords_from(t@, i as int, 0) == keywords_from(t@, start as int, 0),
            forall|d: int| d >= 0 ==> #[trigger] closes(t@, start as int, d) == closes(t@, i as int, d),
            forall|d: int|
                d >= 1 ==> #[trigger] close_of(t@, start as int, d) == close_of(t@, i as int, d),
            forall|d: int|
                d >= 1 ==> #[trigger] keywords_from(t@, start as int, d) == keywords_from(
                    t@,
                    i as int,
                    d,
                ),
        decreases n - i,
    {
        let c = t[i];
        proof {
            lemma_unit_end_bound(t@, i as int);
            if c != 'm' {
                lemma_no_header(t@, i as int);
            }
        }
        if c == '"' {
            proof {
                crate::tokens::lemma_quoted_len_bound(t@.skip(i + 1));
            }
            let e = quoted_end(t, i + 1);
            assert(e as int == unit_end(t@, i as int));
            i = e;
        } else if c == '\'' {
            i = skip_quote(t, i);
        } else if c == '/' && i + 1 < n && t[i + 1] == '/' {
            let mut j = i + 2;
            while j < n && t[j] != '\n'
                invariant
                    i + 2 <= j <= n,
                    n == t@.len(),
                    newline_from(t@, i + 2) == newline_from(t@, j as int),
                decreases n - j,
            {
                j = j + 1;
            }
            assert(j as int == unit_end(t@, i as int));
            i = j;
        } else if c == '{' {
            match scan_items(t, i + 1, false) {
                Ok((_, close)) => {
                    assert forall|d: int| d >= 0 implies #[trigger] closes(t@, start as int, d)
                        == closes(t@, close + 1, d) by {
                        assert(closes(t@, i as int, d) == closes(t@, i + 1, d + 1));
                        assert(closes(t@, i + 1, d + 1) == closes(t@, close + 1, d));
                    }
                    assert forall|d: int| d >= 1 implies #[trigger] close_of(t@, start as int, d)
                        == close_of(t@, close + 1, d) by {
                        assert(close_of(t@, i as int, d) == close_of(t@, i + 1, d + 1));
                        assert(close_of(t@, i + 1, d + 1) == close_of(t@, close + 1, d));
                    }
                    assert forall|d: int| d >= 0 implies #[trigger] keywords_from(
                        t@,
                        i as int,
                        d,
                    ) == keywords_from(t@, close + 1, d) by {
                        assert(keywords_from(t@, i as int, d) == keywords_from(t@, i + 1, d + 1));
                        assert(keywords_from(t@, i + 1, d + 1) == keywords_from(t@, close + 1, d));
                    }
                    i = close + 1;
                },
                Err(()) => {
                    assert forall|d: int| d >= 0 implies !#[trigger] closes(t@, start as int, d) by {
                        assert(closes(t@, i as int, d) == closes(t@, i + 1, d + 1));
                        assert(!closes(t@, i + 1, d + 1));
                    }
                    return Err(());
                },
            }
        } else if c == '}' {
            if top {
                return Err(());
            }
            assert(keywords(items@) + Seq::<int>::empty() =~= keywords(items@));
            return Ok((items, i));
        } else if let Some((a, b, k)) = mod_header(t, i) {
            assert(unit_end(t@, i as int) == k as int);
            let (sub, close) = match scan_items(t, k + 1, false) {
                Ok(found) => found,
                Err(()) => {
                    assert forall|d: int| d >= 0 implies !#[trigger] closes(t@, start as int, d) by {
                        assert(closes(t@, i as int, d) == closes(t@, k as int, d));
                        assert(closes(t@, k as int, d) == closes(t@, k + 1, d + 1));
                        assert(!closes(t@, k + 1, d + 1));
                    }
                    return Err(());
                },
            };
            assert forall|d: int| d >= 0 implies #[trigger] closes(t@, start as int, d) == closes(
                t@,
                close + 1,
                d,
            ) by {
                assert(closes(t@, i as int, d) == closes(t@, k as int, d));
                assert(closes(t@, k as int, d) == closes(t@, k + 1, d + 1));
            }
            assert forall|d: int| d >= 1 implies #[trigger] close_of(t@, start as int, d)
                == close_of(t@, close + 1, d) by {
                assert(close_of(t@, i as int, d) == close_of(t@, k as int, d));
                assert(close_of(t@, k as int, d) == close_of(t@, k + 1, d + 1));
            }
            assert forall|d: int| d >= 1 implies #[trigger] keywords_from(t@, start as int, d)
                == keywords_from(t@, close + 1, d) by {
                assert(keywords_from(t@, i as int, d) == keywords_from(t@, k as int, d));
                assert(keywords_from(t@, k as int, d) == keywords_from(t@, k + 1, d + 1));
            }
            assert(keywords_from(t@, i as int, 0) == seq![i as int] + keywords_from(t@, k as int, 0));
            assert(keywords_from(t@, k as int, 0) == keywords_from(t@, k + 1, 1));
            assert(keywords_from(t@, k + 1, 1) == keywords_from(t@, close + 1, 0));
            let name = string_of(t, a, b);
            let decl = ModuleDecl {
                name,
                outer_start: declaration_start(t, floor, i),
                keyword: i,
                inner_start: k + 1,
                inner_end: close,
                outer_end: close + 1,
                items: sub,
            };
            proof {
                assert forall|m: int| 0 <= m < decl.items@.len() implies decl_wf(
                    #[trigger] decl.items[m],
                    decl.inner_start as int,
                    decl.inner_end as int,
                ) by {
                    assert(decl.items[m] == sub@[m]);
                }
                assert forall|m: int| 1 <= m < decl.items@.len() implies decl.items[m - 1].outer_end
                    <= #[trigger] decl.items[m].outer_start by {
                    assert(decl.items[m] == sub@[m]);
                    assert(decl.items[m - 1] == sub@[m - 1]);
                }
                lemma_items_wf_intro(decl, decl.items@.len() as int);
                assert forall|m: int| 0 <= m < decl.items@.len() implies decl_exact(
                    t@,
                    #[trigger] decl.items[m],
                    floor_at(decl.items@, decl.inner_start as int, m),
                ) by {
                    assert(decl.items[m] == sub@[m]);
                }
                lemma_items_exact_intro(t@, decl, decl.items@.len() as int);
                assert(decl_exact(t@, decl, floor as int));
            }
            let ghost before = items@;
            items.push(decl);
            i = close + 1;
            floor = i;
            proof {
                assert forall|m: int| 0 <= m < items@.len() implies decl_wf(
                    #[trigger] items@[m],
                    start as int,
                    i as int,
                ) by {
                    if m < before.len() {
                        assert(items@[m] == before[m]);
                    }
                }
                assert forall|m: int| 1 <= m < items@.len() implies items@[m - 1].outer_end
                    <= #[trigger] items@[m].outer_start by {
                    if m < before.len() {
                        assert(items@[m] == before[m]);
                    }
                    assert(items@[m - 1] == before[m - 1] || m - 1 >= before.len());
                }
                assert forall|m: int| 0 <= m < items@.len() implies decl_exact(
                    t@,
                    #[trigger] items@[m],
                    floor_at(items@, start as int, m),
                ) by {
                    if m < before.len() {
                        assert(items@[m] == before[m]);
                        assert(floor_at(items@, start as int, m) == floor_at(before, start as int, m));
                    }
                }
                assert(keywords(items@) =~= keywords(before).push(decl.keyword as int));
                assert(keywords(items@) + keywords_from(t@, i as int, 0) =~= keywords(before) + (
                seq![decl.keyword as int] + keywords_from(t@, i as int, 0)));
            }
        } else {
            assert(unit_end(t@, i as int) == i + 1);
            i = i + 1;
        }
    }
    if top {
        assert(keywords(items@) + Seq::<int>::empty() =~= keywords(items@));
        Ok((items, n))
    } else {
        Err(())
    }
}

/// The module declarations of an expanded source text, as one declaration
/// that spans the whole text: the parse that `parse_of` describes.
/// `UnableToParseExpansion` exactly where the braces of the text do not
/// balance; no other check of its syntax is made.
pub fn parse_modules(t: &Vec<char>) -> (r: Result<ModuleDecl, TestingError>)
    ensures
        r matches Ok(d) ==> parse_of(t@, d),
        r matches Err(e) ==> e is UnableToParseExpansion,
        r is Ok <==> braces_balance(t@),
{
    match scan_items(t, 0, true) {
        Ok((items, end)) => {
            let d = ModuleDecl {
                name: String::new(),
                outer_start: 0,
                keyword: 0,
                inner_start: 0,
                inner_end: end,
                outer_end: end,
                items,
            };
            proof {
                assert forall|m: int| 0 <= m < d.items@.len() implies decl_wf(
                    #[trigger] d.items[m],
                    d.inner_start as int,
                    d.inner_end as int,
                ) by {
                    assert(d.items[m] == items@[m]);
                }
                assert forall|m: int| 1 <= m < d.items@.len() implies d.items[m - 1].outer_end
                    <= #[trigger] d.items[m].outer_start by {
                    assert(d.items[m] == items@[m]);
                    assert(d.items[m - 1] == items@[m - 1]);
                }
                lemma_items_wf_intro(d, d.items@.len() as int);
                assert forall|m: int| 0 <= m < d.items@.len() implies decl_exact(
                    t@,
                    #[trigger] d.items[m],
                    floor_at(d.items@, d.inner_start as int, m),
                ) by {
                    assert(d.items[m] == items@[m]);
                }
                lemma_items_exact_intro(t@, d, d.items@.len() as int);
            }
            Ok(d)
        },
        Err(()) => Err(TestingError::UnableToParseExpansion),
    }
}

} // verus!
