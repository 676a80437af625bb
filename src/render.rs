use vstd::prelude::*;

use crate::error::{ModuleMismatch, TestingError};
use crate::formatting::{block_display, display_block, display_list, list_display};
use crate::messages::{CompilerMessage, DiagnosticLevel, MessageType};
use crate::text::push_char;
use crate::tokens::views;

verus! {

/// The decimal digits of `n`.
pub open spec fn decimal(n: nat) -> Seq<char>
    decreases n,
{
    if n < 10 {
        seq![digit_char(n)]
    } else {
        decimal(n / 10).push(digit_char(n % 10))
    }
}

pub open spec fn digit_char(d: nat) -> char {
    if d == 0 {
        '0'
    } else if d == 1 {
        '1'
    } else if d == 2 {
        '2'
    } else if d == 3 {
        '3'
    } else if d == 4 {
        '4'
    } else if d == 5 {
        '5'
    } else if d == 6 {
        '6'
    } else if d == 7 {
        '7'
    } else if d == 8 {
        '8'
    } else {
        '9'
    }
}

fn digit_exec(d: usize) -> (c: char)
    requires
        d < 10,
    ensures
        c == digit_char(d as nat),
{
    if d == 0 {
        '0'
    } else if d == 1 {
        '1'
    } else if d == 2 {
        '2'
    } else if d == 3 {
        '3'
    } else if d == 4 {
        '4'
    } else if d == 5 {
        '5'
    } else if d == 6 {
        '6'
    } else if d == 7 {
        '7'
    } else if d == 8 {
        '8'
    } else {
        '9'
    }
}

/// Appends the decimal digits of `n`.
pub fn push_decimal(out: &mut String, n: usize)
    ensures
        final(out)@ == old(out)@ + decimal(n as nat),
    decreases n,
{
    if n >= 10 {
        push_decimal(out, n / 10);
        push_char(out, digit_exec(n % 10));
        assert(final(out)@ =~= old(out)@ + decimal(n as nat));
    } else {
        push_char(out, digit_exec(n));
        assert(final(out)@ =~= old(out)@ + decimal(n as nat));
    }
}

/// The name of a level, as its variant is written.
pub open spec fn level_name(l: DiagnosticLevel) -> Seq<char> {
    match l {
        DiagnosticLevel::Error => "Error"@,
        DiagnosticLevel::Warning => "Warning"@,
        DiagnosticLevel::Note => "Note"@,
        DiagnosticLevel::Help => "Help"@,
        DiagnosticLevel::Empty => "Empty"@,
    }
}

fn level_name_exec(l: DiagnosticLevel) -> (r: &'static str)
    ensures
        r@ == level_name(l),
{
    match l {
        DiagnosticLevel::Error => "Error",
        DiagnosticLevel::Warning => "Warning",
        DiagnosticLevel::Note => "Note",
        DiagnosticLevel::Help => "Help",
        DiagnosticLevel::Empty => "Empty",
    }
}

/// A message as text: its location line, then its level, code and body.
pub open spec fn message_text(m: CompilerMessage) -> Seq<char> {
    let location = match m.location {
        Some(l) => "file:    "@ + l.file@ + ":"@ + decimal(l.line as nat) + "\n"@,
        None => "file:    none\n"@,
    };
    let head = match m.code {
        Some(c) => "message: ("@ + level_name(m.level) + " "@ + c@ + ") "@,
        None => "message: ("@ + level_name(m.level) + ") "@,
    };
    let body = match m.message {
        MessageType::Text(t) => t@,
        MessageType::Regex(p) => "Regex("@ + p@ + ")"@,
        MessageType::Absent => seq![],
    };
    location + head + body
}

impl CompilerMessage {
    /// The message as text, as reports show it.
    pub fn describe(&self) -> (r: String)
        ensures
            r@ == message_text(*self),
    {
        let mut out = String::from_str("file:    ");
        match &self.location {
            Some(l) => {
                out.append(l.file.as_str());
                out.append(":");
                push_decimal(&mut out, l.line);
                out.append("\n");
            },
            None => {
                out.append("none\n");
                proof {
                    reveal_strlit("file:    ");
                    reveal_strlit("none\n");
                    reveal_strlit("file:    none\n");
                    assert("file:    "@ + "none\n"@ =~= "file:    none\n"@);
                }
            },
        }
        let ghost loc = out@;
        let mut head = String::from_str("message: (");
        head.append(level_name_exec(self.level));
        match &self.code {
            Some(c) => {
                head.append(" ");
                head.append(c.as_str());
                head.append(") ");
            },
            None => {
                head.append(") ");
            },
        }
        out.append(head.as_str());
        match &self.message {
            MessageType::Text(t) => {
                out.append(t.as_str());
            },
            MessageType::Regex(p) => {
                out.append("Regex(");
                out.append(p.as_str());
                out.append(")");
            },
            MessageType::Absent => {},
        }
        assert(out@ =~= message_text(*self));
        out
    }
}

/// The texts of messages.
pub open spec fn message_texts(ms: Seq<CompilerMessage>) -> Seq<Seq<char>> {
    ms.map_values(|m: CompilerMessage| message_text(m))
}

fn describe_all(ms: &Vec<CompilerMessage>) -> (r: Vec<String>)
    ensures
        views(r@) == message_texts(ms@),
{
    let mut out: Vec<String> = Vec::new();
    let mut i: usize = 0;
    while i < ms.len()
        invariant
            i <= ms@.len(),
            views(out@) == message_texts(ms@.take(i as int)),
        decreases ms@.len() - i,
    {
        let ghost before = out@;
        let d = ms[i].describe();
        out.push(d);
        assert(views(out@) =~= views(before).push(d@));
        assert(message_texts(ms@.take(i + 1)) =~= message_texts(ms@.take(i as int)).push(
            message_text(ms@[i as int]),
        ));
        i = i + 1;
    }
    assert(ms@.take(i as int) =~= ms@);
    out
}

/// A stream of tokens as one line, tokens separated by spaces.
pub open spec fn spaced(ts: Seq<Seq<char>>) -> Seq<char> {
    crate::tokens::join_tokens(ts)
}

fn push_spaced(out: &mut String, ts: &Vec<String>)
    ensures
        final(out)@ == old(out)@ + spaced(views(ts@)),
{
    let ghost vs = views(ts@);
    let mut i: usize = 0;
    assert(vs.take(0) =~= Seq::<Seq<char>>::empty());
    while i < ts.len()
        invariant
            i <= ts@.len(),
            vs == views(ts@),
            out@ == old(out)@ + spaced(vs.take(i as int)),
        decreases ts@.len() - i,
    {
        let ghost before = out@;
        if i > 0 {
            push_char(out, ' ');
        }
        out.append(ts[i].as_str());
        proof {
            lemma_join_push(vs.take(i as int), vs[i as int]);
            assert(vs.take(i + 1) =~= vs.take(i as int).push(vs[i as int]));
        }
        i = i + 1;
    }
    assert(vs.take(i as int) =~= vs);
}

proof fn lemma_join_push(ts: Seq<Seq<char>>, t: Seq<char>)
    ensures
        crate::tokens::join_tokens(ts.push(t)) == if ts.len() == 0 {
            t
        } else {
            crate::tokens::join_tokens(ts) + seq![' '] + t
        },
    decreases ts.len(),
{
    assert(ts.push(t)[0] == if ts.len() == 0 {
        t
    } else {
        ts[0]
    });
    if ts.len() == 0 {
        assert(ts.push(t).len() == 1);
    } else if ts.len() == 1 {
        assert(ts.push(t).drop_first() =~= seq![t]);
        assert(crate::tokens::join_tokens(seq![t]) == t);
        assert(crate::tokens::join_tokens(ts.push(t)) == ts[0] + seq![' '] + t);
    } else {
        assert(ts.push(t).drop_first() =~= ts.drop_first().push(t));
        lemma_join_push(ts.drop_first(), t);
        assert(ts[0] + seq![' '] + (crate::tokens::join_tokens(ts.drop_first()) + seq![' '] + t)
            =~= ts[0] + seq![' '] + crate::tokens::join_tokens(ts.drop_first()) + seq![' '] + t);
    }
}

/// A module's mismatch as text: the module, then both streams.
pub open spec fn mismatch_text(m: ModuleMismatch) -> Seq<char> {
    "Expansion of module "@ + m.module@ + " doesn't match!\nexpected: "@ + spaced(
        views(m.expected@),
    ) + "\nactual:   "@ + match m.actual {
        Some(a) => spaced(views(a@)),
        None => "none"@,
    }
}

/// Mismatches as text, separated by blank lines.
pub open spec fn mismatches_text(ms: Seq<ModuleMismatch>) -> Seq<char>
    decreases ms.len(),
{
    if ms.len() == 0 {
        seq![]
    } else if ms.len() == 1 {
        mismatch_text(ms[0])
    } else {
        mismatches_text(ms.drop_last()) + "\n\n"@ + mismatch_text(ms.last())
    }
}

fn push_mismatch(out: &mut String, m: &ModuleMismatch)
    ensures
        final(out)@ == old(out)@ + mismatch_text(*m),
{
    out.append("Expansion of module ");
    out.append(m.module.as_str());
    out.append(" doesn't match!\nexpected: ");
    push_spaced(out, &m.expected);
    out.append("\nactual:   ");
    match &m.actual {
        Some(a) => push_spaced(out, a),
        None => out.append("none"),
    }
    assert(final(out)@ =~= old(out)@ + mismatch_text(*m));
}

/// An error as text, as reports show it: a header line, then details.
pub open spec fn error_text(e: TestingError) -> Seq<char> {
    match e {
        TestingError::UnexpectedBuildSuccess => "Unexpectedly successful build!"@,
        TestingError::CrateBuildFailed { stdout, stderr } => "Unable to build the crate!\n"@ + (
        if stdout@.len() > 0 {
            "\n"@ + block_display("stdout"@, stdout@)
        } else {
            seq![]
        }) + (if stderr@.len() > 0 {
            "\n"@ + block_display("stderr"@, stderr@)
        } else {
            seq![]
        }),
        TestingError::MessageExpectationsFailed { unexpected, missing } =>
            "Compiler messages don't fulfill expectations!\n\nUnexpected messages:\n"@
            + list_display(message_texts(unexpected@)) + "\n\nMissing messages:\n"@ + list_display(
            message_texts(missing@),
        ),
        TestingError::UnableToParseExpansion => "Internal error: Unable to parse expanded output!"@,
        TestingError::ExpansionMismatch { mismatches } => mismatches_text(mismatches@),
        TestingError::ToolFailed { message } => "Unable to run the build tool: "@ + message@,
        TestingError::InvalidAnnotation { file, line } => "Invalid annotation at "@ + file@ + ":"@
            + decimal(line as nat),
    }
}

impl TestingError {
    /// The error as text, as reports show it.
    pub fn describe(&self) -> (r: String)
        ensures
            r@ == error_text(*self),
    {
        match self {
            TestingError::UnexpectedBuildSuccess => String::from_str("Unexpectedly successful build!"),
            TestingError::CrateBuildFailed { stdout, stderr } => {
                let mut out = String::from_str("Unable to build the crate!\n");
                if stdout.as_str().unicode_len() > 0 {
                    out.append("\n");
                    out.append(display_block("stdout", stdout.as_str()).as_str());
                }
                let ghost mid = out@;
                if stderr.as_str().unicode_len() > 0 {
                    out.append("\n");
                    out.append(display_block("stderr", stderr.as_str()).as_str());
                }
                assert(out@ =~= error_text(*self));
                out
            },
            TestingError::MessageExpectationsFailed { unexpected, missing } => {
                let mut out = String::from_str(
                    "Compiler messages don't fulfill expectations!\n\nUnexpected messages:\n",
                );
                out.append(display_list(&describe_all(unexpected)).as_str());
                out.append("\n\nMissing messages:\n");
                out.append(display_list(&describe_all(missing)).as_str());
                assert(out@ =~= error_text(*self));
                out
            },
            TestingError::UnableToParseExpansion => String::from_str(
                "Internal error: Unable to parse expanded output!",
            ),
            TestingError::ExpansionMismatch { mismatches } => {
                let mut out = String::new();
                let mut i: usize = 0;
                assert(mismatches@.take(0) =~= Seq::<ModuleMismatch>::empty());
                while i < mismatches.len()
                    invariant
                        i <= mismatches@.len(),
                        out@ == mismatches_text(mismatches@.take(i as int)),
                    decreases mismatches@.len() - i,
                {
                    assert(mismatches@.take(i + 1).drop_last() =~= mismatches@.take(i as int));
                    if i > 0 {
                        out.append("\n\n");
                    }
                    push_mismatch(&mut out, &mismatches[i]);
                    i = i + 1;
                }
                assert(mismatches@.take(i as int) =~= mismatches@);
                out
            },
            TestingError::ToolFailed { message } => {
                let mut out = String::from_str("Unable to run the build tool: ");
                out.append(message.as_str());
                out
            },
            TestingError::InvalidAnnotation { file, line } => {
                let mut out = String::from_str("Invalid annotation at ");
                out.append(file.as_str());
                out.append(":");
                push_decimal(&mut out, *line);
                assert(out@ =~= error_text(*self));
                out
            },
        }
    }
}

} // verus!
