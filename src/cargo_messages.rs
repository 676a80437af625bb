use vstd::prelude::*;

use crate::messages::{
    message_views, BodyView, CompilerMessage, DiagnosticLevel, MessageLocation, MessageType,
    MessageView,
};

use crate::text::{chars_of, has_at, matches_at};

verus! {

/// One record of the build tool's structured output.
#[derive(Debug)]
pub struct Diagnostic {
    pub message: Option<DiagnosticMessage>,
    pub reason: String,
}

/// A compiler message as the build tool reports it.
#[derive(Debug)]
pub struct DiagnosticMessage {
    pub message: String,
    pub level: DiagnosticLevel,
    pub code: Option<DiagnosticCode>,
    pub spans: Vec<DiagnosticSpan>,
    pub children: Vec<DiagnosticMessage>,
}

/// A stretch of source that a reported message points at.
#[derive(Debug)]
pub struct DiagnosticSpan {
    pub file_name: String,
    pub line_start: usize,
    pub is_primary: bool,
}

/// The error code of a reported message.
#[derive(Debug)]
pub struct DiagnosticCode {
    pub code: String,
}

impl Default for DiagnosticSpan {
    fn default() -> (r: Self)
        ensures
            r.file_name@ == "unknown"@,
            r.line_start == 1,
            r.is_primary,
    {
        DiagnosticSpan { file_name: String::from_str("unknown"), line_start: 1, is_primary: true }
    }
}

/// The first span of `spans` marked primary.
pub open spec fn first_primary(spans: Seq<DiagnosticSpan>) -> Option<DiagnosticSpan>
    decreases spans.len(),
{
    if spans.len() == 0 {
        None
    } else if spans[0].is_primary {
        Some(spans[0])
    } else {
        first_primary(spans.drop_first())
    }
}

/// Whether `t` begins with the compiler's closing summary, `aborting`.
pub open spec fn is_abort_summary(t: Seq<char>) -> bool {
    has_at(t, 0, seq!['a', 'b', 'o', 'r', 't', 'i', 'n', 'g'])
}

/// A reported message on its own, at `location`.
pub open spec fn own_view(m: DiagnosticMessage, location: Option<(Seq<char>, int)>) -> MessageView {
    MessageView {
        body: BodyView::Text(m.message@),
        level: m.level,
        code: match m.code {
            Some(c) => Some(c.code@),
            None => None,
        },
        location,
    }
}

/// The comparable messages that one record's message gives, in order.
pub open spec fn normalized(m: DiagnosticMessage) -> Seq<MessageView> {
    normalized_at(m, true)
}

/// The comparable messages that a reported message gives, in order; `top`
/// where it is a record's own message, not a child. One without severity
/// gives none. One with a primary span gives itself, located there. One
/// without gives what its children give, followed by itself without
/// location unless it is the closing summary. Where its children give
/// nothing, a child gives itself without location and a record's message
/// gives nothing.
pub open spec fn normalized_at(m: DiagnosticMessage, top: bool) -> Seq<MessageView>
    decreases m, m.children@.len() + 1,
{
    if m.level == DiagnosticLevel::Empty {
        seq![]
    } else {
        match first_primary(m.spans@) {
            Some(span) => seq![own_view(m, Some((span.file_name@, span.line_start as int)))],
            None => {
                let kids = children_normalized(m, m.children@.len() as int);
                if kids.len() == 0 {
                    if top {
                        seq![]
                    } else {
                        seq![own_view(m, None)]
                    }
                } else if is_abort_summary(m.message@) {
                    kids
                } else {
                    kids.push(own_view(m, None))
                }
            },
        }
    }
}

/// What the first `i` children of `m` give, one after the other.
pub open spec fn children_normalized(m: DiagnosticMessage, i: int) -> Seq<MessageView>
    decreases m, i,
{
    if i <= 0 || i > m.children@.len() {
        seq![]
    } else {
        proof {
            assert(decreases_to!(m => m.children));
            assert(decreases_to!(m.children => m.children[i - 1]));
        }
        children_normalized(m, i - 1) + normalized_at(m.children[i - 1], false)
    }
}

pub(crate) fn first_primary_index(spans: &Vec<DiagnosticSpan>) -> (r: Option<usize>)
    ensures
        match first_primary(spans@) {
            Some(s) => r matches Some(i) && i < spans@.len() && spans@[i as int] == s,
            None => r is None,
        },
{
    let mut i: usize = 0;
    assert(spans@.skip(0) =~= spans@);
    while i < spans.len()
        invariant
            i <= spans@.len(),
            first_primary(spans@) == first_primary(spans@.skip(i as int)),
        decreases spans@.len() - i,
    {
        assert(spans@.skip(i as int)[0] == spans@[i as int]);
        if spans[i].is_primary {
            return Some(i);
        }
        assert(spans@.skip(i as int).drop_first() =~= spans@.skip(i + 1));
        i = i + 1;
    }
    None
}

pub(crate) fn own_message(m: &DiagnosticMessage, location: Option<MessageLocation>) -> (r: CompilerMessage)
    ensures
        r@ == own_view(*m, crate::messages::location_view(location)),
{
    CompilerMessage {
        message: MessageType::Text(m.message.clone()),
        level: m.level,
        code: match &m.code {
            Some(c) => Some(c.code.clone()),
            None => None,
        },
        location,
    }
}

/// The comparable messages that one reported message gives, in the order
/// the compiler emitted them.
pub fn normalize(m: &DiagnosticMessage) -> (r: Vec<CompilerMessage>)
    ensures
        message_views(r@) == normalized(*m),
{
    normalize_at(m, true)
}

/// The comparable messages that a reported message gives, `top` where it
/// is a record's own message.
fn normalize_at(m: &DiagnosticMessage, top: bool) -> (r: Vec<CompilerMessage>)
    ensures
        message_views(r@) == normalized_at(*m, top),
    decreases m, m.children@.len() + 1,
{
    if m.level == DiagnosticLevel::Empty {
        return Vec::new();
    }
    if let Some(i) = first_primary_index(&m.spans) {
        let span = &m.spans[i];
        let location = MessageLocation { file: span.file_name.clone(), line: span.line_start };
        let own = own_message(m, Some(location));
        let mut out: Vec<CompilerMessage> = Vec::new();
        out.push(own);
        assert(message_views(out@) =~= normalized_at(*m, top));
        return out;
    }
    let mut out: Vec<CompilerMessage> = Vec::new();
    let mut i: usize = 0;
    assert(message_views(out@) =~= children_normalized(*m, 0));
    while i < m.children.len()
        invariant
            i <= m.children@.len(),
            message_views(out@) == children_normalized(*m, i as int),
        decreases m.children@.len() - i,
    {
        proof {
            assert(decreases_to!(m => m.children));
            assert(decreases_to!(m.children => m.children[i as int]));
        }
        let kids = normalize_at(&m.children[i], false);
        let ghost before = out@;
        let mut k: usize = 0;
        while k < kids.len()
            invariant
                k <= kids@.len(),
                message_views(out@) == message_views(before) + message_views(kids@.take(k as int)),
            decreases kids@.len() - k,
        {
            let ghost mid = out@;
            out.push(kids[k].clone());
            assert(message_views(out@) =~= message_views(mid).push(kids@[k as int]@));
            assert(message_views(kids@.take(k + 1)) =~= message_views(kids@.take(k as int)).push(
                kids@[k as int]@,
            ));
            k = k + 1;
        }
        assert(kids@.take(k as int) =~= kids@);
        i = i + 1;
    }
    if out.len() == 0 {
        if !top {
            out.push(own_message(m, None));
            assert(message_views(out@) =~= seq![own_view(*m, None)]);
        }
        return out;
    }
    let text = chars_of(m.message.as_str());
    if !matches_at(&text, 0, &['a', 'b', 'o', 'r', 't', 'i', 'n', 'g']) {
        let ghost before = out@;
        out.push(own_message(m, None));
        assert(message_views(out@) =~= message_views(before).push(own_view(*m, None)));
    }
    out
}

/// Whether a record carries a compiler message.
pub open spec fn is_compiler_message(r: Diagnostic) -> bool {
    r.reason@ == seq!['c', 'o', 'm', 'p', 'i', 'l', 'e', 'r', '-', 'm', 'e', 's', 's', 'a', 'g', 'e']
}

/// The comparable messages that one record gives.
pub open spec fn record_normalized(r: Diagnostic) -> Seq<MessageView> {
    match r.message {
        Some(m) => if is_compiler_message(r) {
            normalized(m)
        } else {
            seq![]
        },
        None => seq![],
    }
}

/// The comparable messages that a run of records gives, in order.
pub open spec fn records_normalized(rs: Seq<Diagnostic>) -> Seq<MessageView>
    decreases rs.len(),
{
    if rs.len() == 0 {
        seq![]
    } else {
        records_normalized(rs.drop_last()) + record_normalized(rs.last())
    }
}

pub(crate) fn is_compiler_message_exec(r: &Diagnostic) -> (b: bool)
    ensures
        b == is_compiler_message(*r),
{
    let cs = chars_of(r.reason.as_str());
    let lit = ['c', 'o', 'm', 'p', 'i', 'l', 'e', 'r', '-', 'm', 'e', 's', 's', 'a', 'g', 'e'];
    let b = cs.len() == 16 && matches_at(&cs, 0, &lit);
    proof {
        if cs@.len() == 16 {
            assert(cs@.subrange(0, 16) =~= cs@);
        }
        if r.reason@ == lit@ {
            assert(cs@.subrange(0, 16) =~= cs@);
        }
    }
    b
}

/// The comparable messages that the records of one build give, in the
/// order the compiler emitted them.
pub fn actual_messages(records: &Vec<Diagnostic>) -> (r: Vec<CompilerMessage>)
    ensures
        message_views(r@) == records_normalized(records@),
{
    let mut out: Vec<CompilerMessage> = Vec::new();
    let mut i: usize = 0;
    assert(records@.take(0) =~= Seq::<Diagnostic>::empty());
    assert(message_views(out@) =~= Seq::<MessageView>::empty());
    while i < records.len()
        invariant
            i <= records@.len(),
            message_views(out@) == records_normalized(records@.take(i as int)),
        decreases records@.len() - i,
    {
        assert(records@.take(i + 1).drop_last() =~= records@.take(i as int));
        assert(records@.take(i + 1).last() == records@[i as int]);
        let record = &records[i];
        if is_compiler_message_exec(record) {
            if let Some(m) = &record.message {
                let kids = normalize(m);
                let ghost before = out@;
                let mut k: usize = 0;
                while k < kids.len()
                    invariant
                        k <= kids@.len(),
                        message_views(out@) == message_views(before) + message_views(
                            kids@.take(k as int),
                        ),
                    decreases kids@.len() - k,
                {
                    let ghost mid = out@;
                    out.push(kids[k].clone());
                    assert(message_views(out@) =~= message_views(mid).push(kids@[k as int]@));
                    assert(message_views(kids@.take(k + 1)) =~= message_views(
                        kids@.take(k as int),
                    ).push(kids@[k as int]@));
                    k = k + 1;
                }
                assert(kids@.take(k as int) =~= kids@);
            }
        }
        proof {
            if !is_compiler_message(*record) || record.message is None {
                assert(message_views(out@) =~= message_views(out@) + Seq::<MessageView>::empty());
            }
        }
        i = i + 1;
    }
    assert(records@.take(i as int) =~= records@);
    out
}

} // verus!
