use vstd::prelude::*;

use crate::error::TestingError;
use crate::messages::{
    location_view, message_views, BodyView, CompilerMessage, DiagnosticLevel, MessageLocation, MessageType,
    MessageView,
};
use crate::regex_ffi::{regex_compiles, regex_is_valid};
use crate::text::{has_at, matches_at, string_of, sub_chars, trim, trim_range};

verus! {

/// The end of the run of `c` that starts at `i`.
pub open spec fn run_end(l: Seq<char>, i: int, c: char) -> int
    decreases l.len() - i,
{
    if 0 <= i < l.len() && l[i] == c {
        run_end(l, i + 1, c)
    } else {
        i
    }
}

/// The end of the line text that starts at `i`: the first newline from
/// there, or the end of `l`.
pub open spec fn line_end(l: Seq<char>, i: int) -> int
    decreases l.len() - i,
{
    if 0 <= i < l.len() && l[i] != '\n' {
        line_end(l, i + 1)
    } else {
        i
    }
}

/// The severity keyword at `i`, with the position after it.
pub open spec fn keyword_at(l: Seq<char>, i: int) -> Option<(DiagnosticLevel, int)> {
    if has_at(l, i, seq!['E', 'R', 'R', 'O', 'R']) {
        Some((DiagnosticLevel::Error, i + 5))
    } else if has_at(l, i, seq!['W', 'A', 'R', 'N', 'I', 'N', 'G']) {
        Some((DiagnosticLevel::Warning, i + 7))
    } else if has_at(l, i, seq!['N', 'O', 'T', 'E']) {
        Some((DiagnosticLevel::Note, i + 4))
    } else if has_at(l, i, seq!['H', 'E', 'L', 'P']) {
        Some((DiagnosticLevel::Help, i + 4))
    } else {
        None
    }
}

/// The comment marker `//`, optional spaces and `~` at `p`, with the
/// position after the `~`.
pub open spec fn marker_end(l: Seq<char>, p: int) -> Option<int> {
    if has_at(l, p, seq!['/', '/']) {
        let a = run_end(l, p + 2, ' ');
        if a < l.len() && l[a] == '~' {
            Some(a + 1)
        } else {
            None
        }
    } else {
        None
    }
}

/// Whether a space and at least one more character of the line follow `e`.
pub open spec fn text_follows(l: Seq<char>, e: int) -> bool {
    0 <= e && e + 1 < line_end(l, e) && l[e] == ' '
}

/// The text of a directive whose keyword ends at `e`: the rest of the line.
pub open spec fn text_at(l: Seq<char>, e: int) -> Seq<char> {
    l.subrange(e, line_end(l, e))
}

/// Where an expected message points: at its own line, `k` lines up, or at
/// the line of the message before it.
#[derive(Clone, Copy, Debug, PartialEq, Eq, Structural)]
pub enum Anchor {
    Here,
    Up(usize),
    Previous,
}

/// The message directive `// ~[^..|] LEVEL text` at `p`: its anchor, its
/// level and where its text starts.
pub open spec fn message_at(l: Seq<char>, p: int) -> Option<(Anchor, DiagnosticLevel, int)> {
    match marker_end(l, p) {
        None => None,
        Some(b) => {
            let (anchor, c) = if b < l.len() && l[b] == '^' {
                (Anchor::Up((run_end(l, b, '^') - b) as usize), run_end(l, b, '^'))
            } else if b < l.len() && l[b] == '|' {
                (Anchor::Previous, b + 1)
            } else {
                (Anchor::Here, b)
            };
            if c < l.len() && l[c] == ' ' {
                match keyword_at(l, run_end(l, c, ' ')) {
                    Some((level, e)) => if text_follows(l, e) {
                        Some((anchor, level, e))
                    } else {
                        None
                    },
                    None => None,
                }
            } else {
                None
            }
        },
    }
}

/// The global directive `// ~ GLOBAL-LEVEL-REGEX pattern` at `p`: its level
/// and where its pattern starts.
pub open spec fn global_at(l: Seq<char>, p: int) -> Option<(DiagnosticLevel, int)> {
    match marker_end(l, p) {
        None => None,
        Some(b) => {
            let d = run_end(l, b, ' ');
            if b < l.len() && l[b] == ' ' && has_at(l, d, seq!['G', 'L', 'O', 'B', 'A', 'L', '-']) {
                match keyword_at(l, d + 7) {
                    Some((level, e)) => if has_at(l, e, seq!['-', 'R', 'E', 'G', 'E', 'X'])
                        && text_follows(l, e + 6) {
                        Some((level, e + 6))
                    } else {
                        None
                    },
                    None => None,
                }
            } else {
                None
            }
        },
    }
}

/// The expansion directive `// ~ EXPAND text` at `p`: where its text starts.
pub open spec fn expand_at(l: Seq<char>, p: int) -> Option<int> {
    match marker_end(l, p) {
        None => None,
        Some(b) => {
            let d = run_end(l, b, ' ');
            if b < l.len() && l[b] == ' ' && has_at(l, d, seq!['E', 'X', 'P', 'A', 'N', 'D'])
                && text_follows(l, d + 6) {
                Some(d + 6)
            } else {
                None
            }
        },
    }
}

/// The leftmost message directive at or after `p`.
pub open spec fn first_message(l: Seq<char>, p: int) -> Option<(Anchor, DiagnosticLevel, int)>
    decreases l.len() - p,
{
    if p < 0 || p >= l.len() {
        None
    } else if message_at(l, p) is Some {
        message_at(l, p)
    } else {
        first_message(l, p + 1)
    }
}

/// The leftmost global directive at or after `p`.
pub open spec fn first_global(l: Seq<char>, p: int) -> Option<(DiagnosticLevel, int)>
    decreases l.len() - p,
{
    if p < 0 || p >= l.len() {
        None
    } else if global_at(l, p) is Some {
        global_at(l, p)
    } else {
        first_global(l, p + 1)
    }
}

/// The leftmost expansion directive at or after `p`.
pub open spec fn first_expand(l: Seq<char>, p: int) -> Option<int>
    decreases l.len() - p,
{
    if p < 0 || p >= l.len() {
        None
    } else if expand_at(l, p) is Some {
        expand_at(l, p)
    } else {
        first_expand(l, p + 1)
    }
}

fn run_end_exec(l: &Vec<char>, i: usize, c: char) -> (r: usize)
    requires
        i <= l.len(),
    ensures
        r == run_end(l@, i as int, c),
        i <= r <= l@.len(),
{
    let mut j = i;
    while j < l.len() && l[j] == c
        invariant
            i <= j <= l@.len(),
            run_end(l@, i as int, c) == run_end(l@, j as int, c),
        decreases l@.len() - j,
    {
        j = j + 1;
    }
    j
}

fn line_end_exec(l: &Vec<char>, i: usize) -> (r: usize)
    requires
        i <= l.len(),
    ensures
        r == line_end(l@, i as int),
        i <= r <= l@.len(),
{
    let mut j = i;
    while j < l.len() && l[j] != '\n'
        invariant
            i <= j <= l@.len(),
            line_end(l@, i as int) == line_end(l@, j as int),
        decreases l@.len() - j,
    {
        j = j + 1;
    }
    j
}

fn keyword_at_exec(l: &Vec<char>, i: usize) -> (r: Option<(DiagnosticLevel, usize)>)
    requires
        i <= l.len(),
    ensures
        match keyword_at(l@, i as int) {
            Some((level, e)) => r == Some((level, e as usize)) && 0 <= e <= l@.len(),
            None => r is None,
        },
{
    if matches_at(l, i, &['E', 'R', 'R', 'O', 'R']) {
        Some((DiagnosticLevel::Error, i + 5))
    } else if matches_at(l, i, &['W', 'A', 'R', 'N', 'I', 'N', 'G']) {
        Some((DiagnosticLevel::Warning, i + 7))
    } else if matches_at(l, i, &['N', 'O', 'T', 'E']) {
        Some((DiagnosticLevel::Note, i + 4))
    } else if matches_at(l, i, &['H', 'E', 'L', 'P']) {
        Some((DiagnosticLevel::Help, i + 4))
    } else {
        None
    }
}

fn marker_end_exec(l: &Vec<char>, p: usize) -> (r: Option<usize>)
    requires
        p <= l.len(),
    ensures
        match marker_end(l@, p as int) {
            Some(b) => r == Some(b as usize) && 0 <= b <= l@.len(),
            None => r is None,
        },
{
    if matches_at(l, p, &['/', '/']) {
        let a = run_end_exec(l, p + 2, ' ');
        if a < l.len() && l[a] == '~' {
            Some(a + 1)
        } else {
            None
        }
    } else {
        None
    }
}

fn text_follows_exec(l: &Vec<char>, e: usize) -> (r: bool)
    requires
        e <= l.len(),
    ensures
        r == text_follows(l@, e as int),
{
    if e >= l.len() || l[e] != ' ' {
        return false;
    }
    let end = line_end_exec(l, e);
    e + 1 < end
}

fn message_at_exec(l: &Vec<char>, p: usize) -> (r: Option<(Anchor, DiagnosticLevel, usize)>)
    requires
        p <= l.len(),
    ensures
        match message_at(l@, p as int) {
            Some((anchor, level, e)) => r == Some((anchor, level, e as usize)) && 0 <= e <= l@.len(),
            None => r is None,
        },
{
    let b = match marker_end_exec(l, p) {
        None => {
            return None;
        },
        Some(b) => b,
    };
    let (anchor, c) = if b < l.len() && l[b] == '^' {
        let c = run_end_exec(l, b, '^');
        (Anchor::Up(c - b), c)
    } else if b < l.len() && l[b] == '|' {
        (Anchor::Previous, b + 1)
    } else {
        (Anchor::Here, b)
    };
    if c < l.len() && l[c] == ' ' {
        let d = run_end_exec(l, c, ' ');
        match keyword_at_exec(l, d) {
            Some((level, e)) => {
                if text_follows_exec(l, e) {
                    Some((anchor, level, e))
                } else {
                    None
                }
            },
            None => None,
        }
    } else {
        None
    }
}

fn global_at_exec(l: &Vec<char>, p: usize) -> (r: Option<(DiagnosticLevel, usize)>)
    requires
        p <= l.len(),
    ensures
        match global_at(l@, p as int) {
            Some((level, e)) => r == Some((level, e as usize)) && 0 <= e <= l@.len(),
            None => r is None,
        },
{
    let b = match marker_end_exec(l, p) {
        None => {
            return None;
        },
        Some(b) => b,
    };
    let d = run_end_exec(l, b, ' ');
    if b < l.len() && l[b] == ' ' && matches_at(l, d, &['G', 'L', 'O', 'B', 'A', 'L', '-']) {
        match keyword_at_exec(l, d + 7) {
            Some((level, e)) => {
                if matches_at(l, e, &['-', 'R', 'E', 'G', 'E', 'X']) && text_follows_exec(l, e + 6) {
                    Some((level, e + 6))
                } else {
                    None
                }
            },
            None => None,
        }
    } else {
        None
    }
}

fn expand_at_exec(l: &Vec<char>, p: usize) -> (r: Option<usize>)
    requires
        p <= l.len(),
    ensures
        match expand_at(l@, p as int) {
            Some(e) => r == Some(e as usize) && 0 <= e <= l@.len(),
            None => r is None,
        },
{
    let b = match marker_end_exec(l, p) {
        None => {
            return None;
        },
        Some(b) => b,
    };
    let d = run_end_exec(l, b, ' ');
    if b < l.len() && l[b] == ' ' && matches_at(l, d, &['E', 'X', 'P', 'A', 'N', 'D'])
        && text_follows_exec(l, d + 6) {
        Some(d + 6)
    } else {
        None
    }
}

fn first_message_exec(l: &Vec<char>) -> (r: Option<(Anchor, DiagnosticLevel, usize)>)
    ensures
        r is Some == first_message(l@, 0) is Some,
        r is Some ==> (r->0).0 == (first_message(l@, 0)->0).0 && (r->0).1 == (first_message(l@, 0)->0).1
            && (r->0).2 as int == (first_message(l@, 0)->0).2 && (r->0).2 <= l@.len(),
{
    let mut p: usize = 0;
    while p < l.len()
        invariant
            p <= l@.len(),
            first_message(l@, 0) == first_message(l@, p as int),
        decreases l@.len() - p,
    {
        let found = message_at_exec(l, p);
        if found.is_some() {
            return found;
        }
        p = p + 1;
    }
    None
}

fn first_global_exec(l: &Vec<char>) -> (r: Option<(DiagnosticLevel, usize)>)
    ensures
        r is Some == first_global(l@, 0) is Some,
        r is Some ==> (r->0).0 == (first_global(l@, 0)->0).0 && (r->0).1 as int == (first_global(l@, 0)->0).1
            && (r->0).1 <= l@.len(),
{
    let mut p: usize = 0;
    while p < l.len()
        invariant
            p <= l@.len(),
            first_global(l@, 0) == first_global(l@, p as int),
        decreases l@.len() - p,
    {
        let found = global_at_exec(l, p);
        if found.is_some() {
            return found;
        }
        p = p + 1;
    }
    None
}

pub(crate) fn first_expand_exec(l: &Vec<char>) -> (r: Option<usize>)
    ensures
        r is Some == first_expand(l@, 0) is Some,
        r is Some ==> r->0 as int == first_expand(l@, 0)->0 && r->0 <= l@.len(),
{
    let mut p: usize = 0;
    while p < l.len()
        invariant
            p <= l@.len(),
            first_expand(l@, 0) == first_expand(l@, p as int),
        decreases l@.len() - p,
    {
        let found = expand_at_exec(l, p);
        if found.is_some() {
            return found;
        }
        p = p + 1;
    }
    None
}

/// The bounds of the text of a directive whose keyword ends at `e`.
pub(crate) fn text_bounds(l: &Vec<char>, e: usize) -> (r: usize)
    requires
        e <= l.len(),
    ensures
        e <= r <= l@.len(),
        l@.subrange(e as int, r as int) == text_at(l@, e as int),
{
    line_end_exec(l, e)
}

pub open spec fn is_digit(c: char) -> bool {
    '0' <= c && c <= '9'
}

/// The error code that `t` holds, if it is `E` and four digits between
/// optional spaces.
pub open spec fn code_in(t: Seq<char>) -> Option<Seq<char>> {
    let a = run_end(t, 0, ' ');
    if 0 <= a && a + 5 <= t.len() && t[a] == 'E' && is_digit(t[a + 1]) && is_digit(t[a + 2])
        && is_digit(t[a + 3]) && is_digit(t[a + 4]) && run_end(t, a + 5, ' ') == t.len() {
        Some(t.subrange(a, a + 5))
    } else {
        None
    }
}

fn is_digit_char(c: char) -> (r: bool)
    ensures
        r == is_digit(c),
{
    '0' <= c && c <= '9'
}

fn code_in_exec(t: &Vec<char>) -> (r: Option<(usize, usize)>)
    ensures
        match code_in(t@) {
            Some(c) => r matches Some((a, b)) && a <= b <= t@.len() && t@.subrange(
                a as int,
                b as int,
            ) == c,
            None => r is None,
        },
{
    let a = run_end_exec(t, 0, ' ');
    let n = t.len();
    if a <= n && 5 <= n - a && t[a] == 'E' && is_digit_char(t[a + 1]) && is_digit_char(t[a + 2])
        && is_digit_char(t[a + 3]) && is_digit_char(t[a + 4]) && run_end_exec(t, a + 5, ' ') == n {
        Some((a, a + 5))
    } else {
        None
    }
}

/// The location that an anchor gives a message on line `n` of `file`, after
/// the messages `prev` of that file; `None` where it points above the
/// first line.
pub open spec fn resolve_anchor(
    prev: Seq<MessageView>,
    file: Seq<char>,
    n: int,
    anchor: Anchor,
) -> Option<Option<(Seq<char>, int)>> {
    match anchor {
        Anchor::Here => Some(Some((file, n))),
        Anchor::Up(k) => if k < n {
            Some(Some((file, n - k)))
        } else {
            None
        },
        Anchor::Previous => if prev.len() > 0 {
            Some(prev.last().location)
        } else {
            Some(Some((file, 1)))
        },
    }
}

/// The message that line `n` (text `l`) of `file` declares, after the
/// messages `prev` of that file: `Ok(None)` where the line declares none,
/// `Err(())` where its directive cannot be used.
pub open spec fn line_message(prev: Seq<MessageView>, file: Seq<char>, n: int, l: Seq<char>) -> Result<
    Option<MessageView>,
    (),
> {
    match first_global(l, 0) {
        Some((level, e)) => {
            let pattern = trim(text_at(l, e));
            if regex_compiles(pattern) {
                Ok(
                    Some(
                        MessageView {
                            body: BodyView::Regex(pattern),
                            level,
                            code: None,
                            location: None,
                        },
                    ),
                )
            } else {
                Err(())
            }
        },
        None => match first_message(l, 0) {
            None => Ok(None),
            Some((anchor, level, e)) => match resolve_anchor(prev, file, n, anchor) {
                None => Err(()),
                Some(location) => {
                    let t = text_at(l, e);
                    match code_in(t) {
                        Some(c) => Ok(
                            Some(MessageView { body: BodyView::Absent, level, code: Some(c), location }),
                        ),
                        None => Ok(
                            Some(
                                MessageView {
                                    body: BodyView::Text(trim(t)),
                                    level,
                                    code: None,
                                    location,
                                },
                            ),
                        ),
                    }
                },
            },
        },
    }
}

/// A result of line analysis as plain values.
pub open spec fn line_result_view(r: Result<Option<CompilerMessage>, TestingError>) -> Result<
    Option<MessageView>,
    (),
> {
    match r {
        Ok(Some(m)) => Ok(Some(m@)),
        Ok(None) => Ok(None),
        Err(_) => Err(()),
    }
}

fn invalid_annotation(file: &str, line: usize) -> (r: TestingError)
    ensures
        r matches TestingError::InvalidAnnotation { file: f, line: k } && f@ == file@ && k == line,
{
    TestingError::InvalidAnnotation { file: String::from_str(file), line }
}

/// The message that line `line_no` (text `l`) of `file` declares, after the
/// messages `previous` of that file.
pub fn message_of_line(
    previous: &Vec<CompilerMessage>,
    file: &str,
    line_no: usize,
    l: &Vec<char>,
) -> (r: Result<Option<CompilerMessage>, TestingError>)
    ensures
        line_result_view(r) == line_message(message_views(previous@), file@, line_no as int, l@),
        r matches Err(e) ==> e matches TestingError::InvalidAnnotation { file: f, line: k } && f@
            == file@ && k == line_no,
{
    if let Some((level, e)) = first_global_exec(l) {
        let end = text_bounds(l, e);
        let (a, b) = trim_range(l, e, end);
        let pattern = string_of(l, a, b);
        assert(first_global(l@, 0) == Some((level, e as int)));
        assert(pattern@ == trim(text_at(l@, e as int)));
        if !regex_is_valid(pattern.as_str()) {
            return Err(invalid_annotation(file, line_no));
        }
        return Ok(
            Some(
                CompilerMessage {
                    message: MessageType::Regex(pattern),
                    level,
                    code: None,
                    location: None,
                },
            ),
        );
    }
    let (anchor, level, e) = match first_message_exec(l) {
        None => {
            return Ok(None);
        },
        Some(found) => found,
    };

    let location = match anchor {
        Anchor::Here => Some(MessageLocation { file: String::from_str(file), line: line_no }),
        Anchor::Up(k) => {
            if k >= line_no {
                return Err(invalid_annotation(file, line_no));
            }
            Some(MessageLocation { file: String::from_str(file), line: line_no - k })
        },
        Anchor::Previous => {
            if previous.len() > 0 {
                let last = &previous[previous.len() - 1];
                assert(message_views(previous@).last() == last@);
                match &last.location {
                    Some(loc) => Some(loc.clone()),
                    None => None,
                }
            } else {
                Some(MessageLocation { file: String::from_str(file), line: 1 })
            }
        },
    };
    assert(resolve_anchor(message_views(previous@), file@, line_no as int, anchor) == Some(
        location_view(location),
    ));
    let end = text_bounds(l, e);
    let t = sub_chars(l, e, end);
    let m = match code_in_exec(&t) {
        Some((a, b)) => CompilerMessage {
            message: MessageType::Absent,
            level,
            code: Some(string_of(&t, a, b)),
            location,
        },
        None => {
            let (a, b) = trim_range(&t, 0, t.len());
            assert(t@.subrange(0, t@.len() as int) =~= t@);
            CompilerMessage {
                message: MessageType::Text(string_of(&t, a, b)),
                level,
                code: None,
                location,
            }
        },
    };
    assert(first_global(l@, 0) is None);
    assert(first_message(l@, 0) == Some((anchor, level, e as int)));
    assert(t@ == text_at(l@, e as int));
    Ok(Some(m))
}

} // verus!
