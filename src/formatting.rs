use vstd::prelude::*;

use crate::text::{chars_of, lines_of, push_char, split_lines, trim_end, trim_end_range};
use crate::tokens::views;

verus! {

/// The lines joined with a newline between each two.
pub open spec fn join_lines(ls: Seq<Seq<char>>) -> Seq<char>
    decreases ls.len(),
{
    if ls.len() == 0 {
        seq![]
    } else if ls.len() == 1 {
        ls[0]
    } else {
        join_lines(ls.drop_last()) + seq!['\n'] + ls.last()
    }
}

/// `s` with trailing whitespace removed from each line, as `str::lines`
/// splits it, rejoined with newlines.
pub open spec fn trimmed_lines(s: Seq<char>) -> Seq<char> {
    join_lines(lines_of(s).map_values(|l: Seq<char>| trim_end(l)))
}

/// `s` with `prefix` inserted after each newline.
pub open spec fn after_newlines(s: Seq<char>, prefix: Seq<char>) -> Seq<char>
    decreases s.len(),
{
    if s.len() == 0 {
        seq![]
    } else if s.last() == '\n' {
        after_newlines(s.drop_last(), prefix) + seq!['\n'] + prefix
    } else {
        after_newlines(s.drop_last(), prefix).push(s.last())
    }
}

/// What `prefix_each_next_line` gives.
pub open spec fn next_lines_prefixed(s: Seq<char>, prefix: Seq<char>) -> Seq<char> {
    trimmed_lines(after_newlines(s, prefix))
}

fn push_all(out: &mut String, cs: &[char])
    ensures
        final(out)@ == old(out)@ + cs@,
{
    let mut i: usize = 0;
    while i < cs.len()
        invariant
            i <= cs@.len(),
            out@ == old(out)@ + cs@.take(i as int),
        decreases cs@.len() - i,
    {
        push_char(out, cs[i]);
        i = i + 1;
        assert(out@ =~= old(out)@ + cs@.take(i as int));
    }
    assert(cs@.take(i as int) =~= cs@);
}

fn push_vec(out: &mut String, cs: &Vec<char>)
    ensures
        final(out)@ == old(out)@ + cs@,
{
    let mut i: usize = 0;
    while i < cs.len()
        invariant
            i <= cs@.len(),
            out@ == old(out)@ + cs@.take(i as int),
        decreases cs@.len() - i,
    {
        push_char(out, cs[i]);
        i = i + 1;
        assert(out@ =~= old(out)@ + cs@.take(i as int));
    }
    assert(cs@.take(i as int) =~= cs@);
}

/// Removes trailing whitespace from each line of `input`.
pub fn trim_lines(input: &str) -> (r: String)
    ensures
        r@ == trimmed_lines(input@),
{
    let chars = chars_of(input);
    let lines = split_lines(&chars);
    let ghost ls = lines@.map_values(|v: Vec<char>| v@);
    let ghost tl = ls.map_values(|l: Seq<char>| trim_end(l));
    let mut out = String::new();
    let mut i: usize = 0;
    assert(tl.take(0) =~= Seq::<Seq<char>>::empty());
    while i < lines.len()
        invariant
            i <= lines@.len(),
            ls == lines@.map_values(|v: Vec<char>| v@),
            ls == lines_of(input@),
            tl == ls.map_values(|l: Seq<char>| trim_end(l)),
            out@ == join_lines(tl.take(i as int)),
        decreases lines@.len() - i,
    {
        let line = &lines[i];
        let end = trim_end_range(line, 0, line.len());
        assert(line@.subrange(0, line@.len() as int) =~= line@);
        assert(tl[i as int] == trim_end(line@));
        assert(tl.take(i + 1).drop_last() =~= tl.take(i as int));
        if i > 0 {
            push_char(&mut out, '\n');
        }
        let mut k: usize = 0;
        let ghost before = out@;
        while k < end
            invariant
                k <= end <= line@.len(),
                out@ == before + line@.subrange(0, k as int),
            decreases end - k,
        {
            push_char(&mut out, line[k]);
            k = k + 1;
            assert(out@ =~= before + line@.subrange(0, k as int));
        }
        proof {
            if i == 0 {
                assert(tl.take(1) =~= seq![tl[0]]);
                assert(out@ =~= tl[0]);
            } else {
                assert(out@ =~= join_lines(tl.take(i as int)) + seq!['\n'] + tl[i as int]);
            }
        }
        i = i + 1;
    }
    assert(tl.take(i as int) =~= tl);
    out
}

/// Puts `prefix` at the start of each line of `input` but the first, then
/// removes trailing whitespace from each line.
pub fn prefix_each_next_line(input: &str, prefix: &str) -> (r: String)
    ensures
        r@ == next_lines_prefixed(input@, prefix@),
{
    let chars = chars_of(input);
    let p = chars_of(prefix);
    let mut replaced = String::new();
    let mut i: usize = 0;
    assert(chars@.take(0) =~= Seq::<char>::empty());
    while i < chars.len()
        invariant
            i <= chars@.len(),
            p@ == prefix@,
            replaced@ == after_newlines(chars@.take(i as int), prefix@),
        decreases chars@.len() - i,
    {
        assert(chars@.take(i + 1).drop_last() =~= chars@.take(i as int));
        assert(chars@.take(i + 1).last() == chars@[i as int]);
        if chars[i] == '\n' {
            push_char(&mut replaced, '\n');
            push_vec(&mut replaced, &p);
        } else {
            push_char(&mut replaced, chars[i]);
        }
        i = i + 1;
    }
    assert(chars@.take(i as int) =~= chars@);
    trim_lines(replaced.as_str())
}

/// Puts `prefix` at the start of each line of `input`, then removes
/// trailing whitespace from each line.
pub fn prefix_each_line(input: &str, prefix: &str) -> (r: String)
    ensures
        r@ == prefix@ + next_lines_prefixed(input@, prefix@),
{
    let rest = prefix_each_next_line(input, prefix);
    String::from_str(prefix).concat(rest.as_str())
}

/// The parts joined with `sep` between each two.
pub open spec fn joined_with(ps: Seq<Seq<char>>, sep: Seq<char>) -> Seq<char>
    decreases ps.len(),
{
    if ps.len() == 0 {
        seq![]
    } else if ps.len() == 1 {
        ps[0]
    } else {
        joined_with(ps.drop_last(), sep) + sep + ps.last()
    }
}

/// The items drawn as the branches of a tree, each item's later lines
/// indented under its branch.
pub open spec fn list_display(items: Seq<Seq<char>>) -> Seq<char> {
    if items.len() == 0 {
        seq![]
    } else if items.len() == 1 {
        seq![' ', '\u{2514}', '\u{2500}', ' '] + next_lines_prefixed(items[0], seq![' ', ' ', ' ', ' '])
            + seq!['\n']
    } else {
        trimmed_lines(
            seq![' ', '\u{251c}', '\u{2500}', ' '] + joined_with(
                items.drop_last().map_values(
                    |i: Seq<char>| next_lines_prefixed(i, seq![' ', '\u{2502}', ' ', ' ']),
                ),
                seq!['\n', ' ', '\u{2502}', '\n', ' ', '\u{251c}', '\u{2500}', ' '],
            ) + seq!['\n', ' ', '\u{2502}', '\n', ' ', '\u{2514}', '\u{2500}', ' ']
                + next_lines_prefixed(items.last(), seq![' ', ' ', ' ', ' ']) + seq!['\n'],
        )
    }
}

/// The number of bytes of `c` in UTF-8.
pub open spec fn utf8_width(c: char) -> nat {
    if (c as u32) < 0x80 {
        1
    } else if (c as u32) < 0x800 {
        2
    } else if (c as u32) < 0x10000 {
        3
    } else {
        4
    }
}

/// The number of bytes of `s` in UTF-8, what `str::len` gives.
pub open spec fn utf8_len(s: Seq<char>) -> nat
    decreases s.len(),
{
    if s.len() == 0 {
        0
    } else {
        utf8_len(s.drop_last()) + utf8_width(s.last())
    }
}

/// A heavy horizontal line of `n` characters.
pub open spec fn bar(n: int) -> Seq<char> {
    Seq::new(n as nat, |_i: int| '\u{2501}')
}

/// `header` and `body` framed: a box around the header, the body indented
/// by two spaces with trailing whitespace removed, and a box around
/// `end` and the header. The lines of the boxes are as long as the header
/// has bytes, plus two and six.
pub open spec fn block_display(header: Seq<char>, body: Seq<char>) -> Seq<char> {
    let h = utf8_len(header) as int;
    seq!['\u{250d}'] + bar(h + 2) + seq!['\u{2511}', '\n', '\u{2502}', ' '] + header + seq![
        ' ',
        '\u{2502}',
        '\n',
        '\u{2515}',
    ] + bar(h + 2) + seq!['\u{2519}', '\n'] + trim_end(
        trimmed_lines(seq![' ', ' '] + next_lines_prefixed(body, seq![' ', ' '])),
    ) + seq!['\n', '\u{250d}'] + bar(h + 6) + seq!['\u{2511}', '\n', '\u{2502}', ' ', 'e', 'n', 'd', ' ']
        + header + seq![' ', '\u{2502}', '\n', '\u{2515}'] + bar(h + 6) + seq!['\u{2519}']
}

fn push_bar_for(out: &mut String, header: &Vec<char>, extra: usize)
    requires
        extra <= 6,
    ensures
        final(out)@ == old(out)@ + bar(utf8_len(header@) + extra),
{
    let mut k: usize = 0;
    while k < extra
        invariant
            k <= extra,
            out@ == old(out)@ + bar(k as int),
        decreases extra - k,
    {
        push_char(out, '\u{2501}');
        k = k + 1;
        assert(out@ =~= old(out)@ + bar(k as int));
    }
    let mut i: usize = 0;
    assert(header@.take(0) =~= Seq::<char>::empty());
    while i < header.len()
        invariant
            i <= header@.len(),
            out@ == old(out)@ + bar(utf8_len(header@.take(i as int)) + extra),
        decreases header@.len() - i,
    {
        assert(header@.take(i + 1).drop_last() =~= header@.take(i as int));
        let c = header[i];
        let w: usize = if (c as u32) < 0x80 {
            1
        } else if (c as u32) < 0x800 {
            2
        } else if (c as u32) < 0x10000 {
            3
        } else {
            4
        };
        let ghost before = out@;
        let ghost base = utf8_len(header@.take(i as int)) + extra;
        let mut j: usize = 0;
        while j < w
            invariant
                j <= w <= 4,
                out@ == before + bar(j as int),
            decreases w - j,
        {
            push_char(out, '\u{2501}');
            j = j + 1;
            assert(out@ =~= before + bar(j as int));
        }
        assert(bar(base) + bar(w as int) =~= bar(base + w));
        i = i + 1;
    }
    assert(header@.take(i as int) =~= header@);
}

/// Frames `body` between a header box and an end box.
pub fn display_block(header: &str, body: &str) -> (r: String)
    ensures
        r@ == block_display(header@, body@),
{
    let h = chars_of(header);
    let inner = prefix_each_line(body, "  ");
    proof {
        reveal_strlit("  ");
        assert("  "@ =~= seq![' ', ' ']);
    }
    let trimmed = trim_lines(inner.as_str());
    let tc = chars_of(trimmed.as_str());
    let end = trim_end_range(&tc, 0, tc.len());
    assert(tc@.subrange(0, tc@.len() as int) =~= tc@);
    let mut out = String::new();
    push_char(&mut out, '\u{250d}');
    push_bar_for(&mut out, &h, 2);
    push_all(&mut out, &['\u{2511}', '\n', '\u{2502}', ' ']);
    push_vec(&mut out, &h);
    push_all(&mut out, &[' ', '\u{2502}', '\n', '\u{2515}']);
    push_bar_for(&mut out, &h, 2);
    push_all(&mut out, &['\u{2519}', '\n']);
    let mut k: usize = 0;
    let ghost before = out@;
    while k < end
        invariant
            k <= end <= tc@.len(),
            out@ == before + tc@.subrange(0, k as int),
        decreases end - k,
    {
        push_char(&mut out, tc[k]);
        k = k + 1;
        assert(out@ =~= before + tc@.subrange(0, k as int));
    }
    push_all(&mut out, &['\n', '\u{250d}']);
    push_bar_for(&mut out, &h, 6);
    push_all(&mut out, &['\u{2511}', '\n', '\u{2502}', ' ', 'e', 'n', 'd', ' ']);
    push_vec(&mut out, &h);
    push_all(&mut out, &[' ', '\u{2502}', '\n', '\u{2515}']);
    push_bar_for(&mut out, &h, 6);
    push_char(&mut out, '\u{2519}');
    assert(out@ =~= block_display(header@, body@));
    out
}

/// Draws the items as the branches of a tree.
pub fn display_list(list: &Vec<String>) -> (r: String)
    ensures
        r@ == list_display(views(list@)),
{
    let n = list.len();
    let ghost vs = views(list@);
    if n == 0 {
        return String::new();
    }
    proof {
        reveal_strlit("    ");
        reveal_strlit(" \u{2502}  ");
        assert("    "@ =~= seq![' ', ' ', ' ', ' ']);
        assert(" \u{2502}  "@ =~= seq![' ', '\u{2502}', ' ', ' ']);
    }
    let last = prefix_each_next_line(list[n - 1].as_str(), "    ");
    assert(vs.last() == list@[n - 1]@);
    if n == 1 {
        let mut out = String::new();
        push_all(&mut out, &[' ', '\u{2514}', '\u{2500}', ' ']);
        push_vec(&mut out, &chars_of(last.as_str()));
        push_char(&mut out, '\n');
        assert(out@ =~= list_display(vs));
        return out;
    }
    let ghost parts = vs.drop_last().map_values(
        |i: Seq<char>| next_lines_prefixed(i, seq![' ', '\u{2502}', ' ', ' ']),
    );
    let ghost sep = seq!['\n', ' ', '\u{2502}', '\n', ' ', '\u{251c}', '\u{2500}', ' '];
    let mut joined = String::new();
    let mut i: usize = 0;
    assert(parts.take(0) =~= Seq::<Seq<char>>::empty());
    while i < n - 1
        invariant
            n == list@.len(),
            n >= 2,
            i <= n - 1,
            vs == views(list@),
            parts == vs.drop_last().map_values(
                |i: Seq<char>| next_lines_prefixed(i, seq![' ', '\u{2502}', ' ', ' ']),
            ),
            sep == seq!['\n', ' ', '\u{2502}', '\n', ' ', '\u{251c}', '\u{2500}', ' '],
            joined@ == joined_with(parts.take(i as int), sep),
        decreases n - 1 - i,
    {
        let item = prefix_each_next_line(list[i].as_str(), " \u{2502}  ");
        proof {
            reveal_strlit(" \u{2502}  ");
            assert(" \u{2502}  "@ =~= seq![' ', '\u{2502}', ' ', ' ']);
            assert(vs.drop_last()[i as int] == list@[i as int]@);
        }
        assert(parts[i as int] == item@);
        assert(parts.take(i + 1).drop_last() =~= parts.take(i as int));
        if i > 0 {
            push_all(&mut joined, &['\n', ' ', '\u{2502}', '\n', ' ', '\u{251c}', '\u{2500}', ' ']);
        }
        push_vec(&mut joined, &chars_of(item.as_str()));
        proof {
            if i == 0 {
                assert(parts.take(1) =~= seq![parts[0]]);
                assert(joined@ =~= parts[0]);
            } else {
                assert(joined@ =~= joined_with(parts.take(i as int), sep) + sep + parts[i as int]);
            }
        }
        i = i + 1;
    }
    assert(parts.take(i as int) =~= parts);
    let mut whole = String::new();
    push_all(&mut whole, &[' ', '\u{251c}', '\u{2500}', ' ']);
    push_vec(&mut whole, &chars_of(joined.as_str()));
    push_all(&mut whole, &['\n', ' ', '\u{2502}', '\n', ' ', '\u{2514}', '\u{2500}', ' ']);
    push_vec(&mut whole, &chars_of(last.as_str()));
    push_char(&mut whole, '\n');
    let r = trim_lines(whole.as_str());
    assert(whole@ =~= seq![' ', '\u{251c}', '\u{2500}', ' '] + joined_with(parts, sep) + seq![
        '\n',
        ' ',
        '\u{2502}',
        '\n',
        ' ',
        '\u{2514}',
        '\u{2500}',
        ' ',
    ] + next_lines_prefixed(vs.last(), seq![' ', ' ', ' ', ' ']) + seq!['\n']);
    r
}

} // verus!
