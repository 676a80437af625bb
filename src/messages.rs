use vstd::prelude::*;

use crate::regex_ffi::{regex_compiles, regex_finds, regex_search};

verus! {

/// The severity of a compiler message; `Empty` carries none.
#[derive(Clone, Copy, Debug, PartialEq, Eq, Structural)]
pub enum DiagnosticLevel {
    Error,
    Warning,
    Note,
    Help,
    Empty,
}

/// The level that a directive's keyword names; any other text names none.
pub open spec fn keyword_level(t: Seq<char>) -> DiagnosticLevel {
    if t == seq!['E', 'R', 'R', 'O', 'R'] {
        DiagnosticLevel::Error
    } else if t == seq!['W', 'A', 'R', 'N', 'I', 'N', 'G'] {
        DiagnosticLevel::Warning
    } else if t == seq!['N', 'O', 'T', 'E'] {
        DiagnosticLevel::Note
    } else if t == seq!['H', 'E', 'L', 'P'] {
        DiagnosticLevel::Help
    } else {
        DiagnosticLevel::Empty
    }
}

fn is_exactly(cs: &Vec<char>, lit: &[char]) -> (r: bool)
    ensures
        r == (cs@ == lit@),
{
    let r = cs.len() == lit.len() && crate::text::matches_at(cs, 0, lit);
    proof {
        if cs@.len() == lit@.len() {
            assert(cs@.subrange(0, lit@.len() as int) =~= cs@);
        }
    }
    r
}

impl<'a> From<&'a str> for DiagnosticLevel {
    /// The level that a directive's keyword names.
    fn from(text: &'a str) -> (r: DiagnosticLevel) {
        let cs = crate::text::chars_of(text);
        if is_exactly(&cs, &['E', 'R', 'R', 'O', 'R']) {
            DiagnosticLevel::Error
        } else if is_exactly(&cs, &['W', 'A', 'R', 'N', 'I', 'N', 'G']) {
            DiagnosticLevel::Warning
        } else if is_exactly(&cs, &['N', 'O', 'T', 'E']) {
            DiagnosticLevel::Note
        } else if is_exactly(&cs, &['H', 'E', 'L', 'P']) {
            DiagnosticLevel::Help
        } else {
            DiagnosticLevel::Empty
        }
    }
}

impl<'a> vstd::std_specs::convert::FromSpecImpl<&'a str> for DiagnosticLevel {
    open spec fn obeys_from_spec() -> bool {
        true
    }

    open spec fn from_spec(text: &'a str) -> DiagnosticLevel {
        keyword_level(text@)
    }
}

/// A source file, relative to the crate root, and a line in it (from 1).
#[derive(Debug)]
pub struct MessageLocation {
    pub file: String,
    pub line: usize,
}

/// What a message says: nothing (only its code counts), an exact text, or a
/// regular expression that the text must contain a match of.
#[derive(Debug)]
pub enum MessageType {
    Absent,
    Text(String),
    Regex(String),
}

/// One diagnostic, expected or reported. An expected message with a
/// pattern and no location is global: it is compared whatever the location
/// of the other side. Any other message without a location matches only
/// messages without one, or global ones.
#[derive(Debug)]
pub struct CompilerMessage {
    pub message: MessageType,
    pub level: DiagnosticLevel,
    pub code: Option<String>,
    pub location: Option<MessageLocation>,
}

/// What a message body says, as plain values.
pub enum BodyView {
    Absent,
    Text(Seq<char>),
    Regex(Seq<char>),
}

/// A compiler message as plain values.
pub struct MessageView {
    pub body: BodyView,
    pub level: DiagnosticLevel,
    pub code: Option<Seq<char>>,
    pub location: Option<(Seq<char>, int)>,
}

/// A location as plain values.
pub open spec fn location_view(l: Option<MessageLocation>) -> Option<(Seq<char>, int)> {
    match l {
        Some(x) => Some((x.file@, x.line as int)),
        None => None,
    }
}

impl View for MessageType {
    type V = BodyView;

    open spec fn view(&self) -> BodyView {
        match self {
            MessageType::Absent => BodyView::Absent,
            MessageType::Text(t) => BodyView::Text(t@),
            MessageType::Regex(p) => BodyView::Regex(p@),
        }
    }
}

impl View for CompilerMessage {
    type V = MessageView;

    open spec fn view(&self) -> MessageView {
        MessageView {
            body: self.message@,
            level: self.level,
            code: match self.code {
                Some(c) => Some(c@),
                None => None,
            },
            location: location_view(self.location),
        }
    }
}

/// The views of a sequence of messages.
pub open spec fn message_views(ms: Seq<CompilerMessage>) -> Seq<MessageView> {
    ms.map_values(|m: CompilerMessage| m@)
}

impl Clone for MessageLocation {
    fn clone(&self) -> (r: Self)
        ensures
            r == *self,
    {
        MessageLocation { file: self.file.clone(), line: self.line }
    }
}

impl Clone for MessageType {
    fn clone(&self) -> (r: Self)
        ensures
            r == *self,
    {
        match self {
            MessageType::Absent => MessageType::Absent,
            MessageType::Text(t) => MessageType::Text(t.clone()),
            MessageType::Regex(p) => MessageType::Regex(p.clone()),
        }
    }
}

impl Clone for CompilerMessage {
    fn clone(&self) -> (r: Self)
        ensures
            r == *self,
    {
        CompilerMessage {
            message: self.message.clone(),
            level: self.level,
            code: match &self.code {
                Some(c) => Some(c.clone()),
                None => None,
            },
            location: match &self.location {
                Some(l) => Some(l.clone()),
                None => None,
            },
        }
    }
}

/// A message declared global: a pattern without a location, as only the
/// global directive gives one. A reported message never carries a pattern.
pub open spec fn is_global(m: MessageView) -> bool {
    m.location is None && m.body is Regex
}

/// The locations of two messages agree when they are equal (both absent
/// counts as equal), or when either message is declared global.
pub open spec fn locations_agree(a: MessageView, b: MessageView) -> bool {
    a.location == b.location || is_global(a) || is_global(b)
}

/// Whether two message bodies match: texts by equality, a text and a
/// pattern by a search of the pattern in the text, two patterns by their
/// source; an absent body matches only an absent body.
pub open spec fn bodies_match(a: BodyView, b: BodyView) -> bool {
    match (a, b) {
        (BodyView::Absent, BodyView::Absent) => true,
        (BodyView::Text(x), BodyView::Text(y)) => x == y,
        (BodyView::Text(x), BodyView::Regex(p)) => regex_compiles(p) && regex_finds(p, x),
        (BodyView::Regex(p), BodyView::Text(x)) => regex_compiles(p) && regex_finds(p, x),
        (BodyView::Regex(p), BodyView::Regex(q)) => p == q,
        _ => false,
    }
}

/// The relation under which an expected message and a reported one are
/// taken to be the same: locations agree, levels are equal, and then codes
/// are equal where both sides carry one, else the bodies match.
pub open spec fn views_match(a: MessageView, b: MessageView) -> bool {
    &&& locations_agree(a, b)
    &&& a.level == b.level
    &&& match (a.code, b.code) {
        (Some(x), Some(y)) => x == y,
        _ => bodies_match(a.body, b.body),
    }
}

/// `views_match` on messages.
pub open spec fn messages_match(a: CompilerMessage, b: CompilerMessage) -> bool {
    views_match(a@, b@)
}

fn is_global_exec(m: &CompilerMessage) -> (r: bool)
    ensures
        r == is_global(m@),
{
    m.location.is_none() && match &m.message {
        MessageType::Regex(_) => true,
        _ => false,
    }
}

fn locations_agree_exec(a: &CompilerMessage, b: &CompilerMessage) -> (r: bool)
    ensures
        r == locations_agree(a@, b@),
{
    let same = match (&a.location, &b.location) {
        (Some(x), Some(y)) => x.file.eq(&y.file) && x.line == y.line,
        (None, None) => true,
        _ => false,
    };
    same || is_global_exec(a) || is_global_exec(b)
}

fn bodies_match_exec(a: &MessageType, b: &MessageType) -> (r: bool)
    ensures
        r == bodies_match(a@, b@),
{
    match (a, b) {
        (MessageType::Absent, MessageType::Absent) => true,
        (MessageType::Text(x), MessageType::Text(y)) => x.eq(y),
        (MessageType::Text(x), MessageType::Regex(p)) => regex_search(p.as_str(), x.as_str()),
        (MessageType::Regex(p), MessageType::Text(x)) => regex_search(p.as_str(), x.as_str()),
        (MessageType::Regex(p), MessageType::Regex(q)) => p.eq(q),
        _ => false,
    }
}

impl PartialEq for CompilerMessage {
    fn eq(&self, other: &CompilerMessage) -> (r: bool) {
        if !locations_agree_exec(self, other) || self.level != other.level {
            return false;
        }
        match (&self.code, &other.code) {
            (Some(x), Some(y)) => x.eq(y),
            _ => bodies_match_exec(&self.message, &other.message),
        }
    }
}

impl vstd::std_specs::cmp::PartialEqSpecImpl for CompilerMessage {
    open spec fn obeys_eq_spec() -> bool {
        true
    }

    open spec fn eq_spec(&self, other: &CompilerMessage) -> bool {
        views_match(self@, other@)
    }
}

/// Whether some message of `list` matches `x`.
pub open spec fn has_match(list: Seq<MessageView>, x: MessageView) -> bool {
    exists|i: int| 0 <= i < list.len() && views_match(#[trigger] list[i], x)
}

/// The messages of `xs` that match none of `others`, in their order in `xs`.
pub open spec fn unmatched(xs: Seq<MessageView>, others: Seq<MessageView>) -> Seq<MessageView>
    decreases xs.len(),
{
    if xs.len() == 0 {
        seq![]
    } else {
        let init = unmatched(xs.drop_last(), others);
        if has_match(others, xs.last()) {
            init
        } else {
            init.push(xs.last())
        }
    }
}

/// Whether `list` holds a message that matches `x`, searched from the front.
pub fn contains_match(list: &Vec<CompilerMessage>, x: &CompilerMessage) -> (r: bool)
    ensures
        r == has_match(message_views(list@), x@),
{
    let ghost vs = message_views(list@);
    let mut i: usize = 0;
    while i < list.len()
        invariant
            i <= list@.len(),
            vs == message_views(list@),
            forall|k: int| 0 <= k < i ==> !views_match(#[trigger] vs[k], x@),
        decreases list@.len() - i,
    {
        assert(vs[i as int] == list@[i as int]@);
        if list[i].eq(x) {
            return true;
        }
        i = i + 1;
    }
    false
}

/// The messages of `xs` that match none of `others`, in order.
pub fn unmatched_messages(xs: &Vec<CompilerMessage>, others: &Vec<CompilerMessage>) -> (r: Vec<
    CompilerMessage,
>)
    ensures
        message_views(r@) == unmatched(message_views(xs@), message_views(others@)),
{
    let ghost vs = message_views(xs@);
    let mut out: Vec<CompilerMessage> = Vec::new();
    let mut i: usize = 0;
    assert(vs.take(0) =~= Seq::<MessageView>::empty());
    assert(message_views(out@) =~= Seq::<MessageView>::empty());
    while i < xs.len()
        invariant
            i <= xs@.len(),
            vs == message_views(xs@),
            message_views(out@) == unmatched(vs.take(i as int), message_views(others@)),
        decreases xs@.len() - i,
    {
        assert(vs.take(i + 1).drop_last() =~= vs.take(i as int));
        assert(vs.take(i + 1).last() == xs@[i as int]@);
        if !contains_match(others, &xs[i]) {
            let ghost before = out@;
            out.push(xs[i].clone());
            assert(message_views(out@) =~= message_views(before).push(xs@[i as int]@));
        }
        i = i + 1;
    }
    assert(vs.take(i as int) =~= vs);
    out
}

/// Compares expected messages with reported ones: the reported messages
/// that no expectation matches (unexpected), then the expected messages that
/// no report matches (missing). Both empty means the expectations hold.
pub fn diff(expected: &Vec<CompilerMessage>, actual: &Vec<CompilerMessage>) -> (r: (
    Vec<CompilerMessage>,
    Vec<CompilerMessage>,
))
    ensures
        message_views(r.0@) == unmatched(message_views(actual@), message_views(expected@)),
        message_views(r.1@) == unmatched(message_views(expected@), message_views(actual@)),
{
    (unmatched_messages(actual, expected), unmatched_messages(expected, actual))
}

/// Every message matches itself.
pub proof fn lemma_match_reflexive(x: MessageView)
    ensures
        views_match(x, x),
{
}

/// The matching relation does not depend on which side is expected.
pub proof fn lemma_match_symmetric(a: MessageView, b: MessageView)
    ensures
        views_match(a, b) == views_match(b, a),
{
}

/// Comparing a list of messages with itself finds nothing unexpected and
/// nothing missing, whatever the list holds (patterns included).
pub proof fn lemma_diff_self(xs: Seq<MessageView>)
    ensures
        unmatched(xs, xs) == Seq::<MessageView>::empty(),
{
    lemma_unmatched_covered(xs, xs);
}

/// When every reported message matches an expected one and every expected
/// message matches a reported one, nothing is unexpected and nothing is
/// missing.
pub proof fn lemma_all_matched(expected: Seq<MessageView>, actual: Seq<MessageView>)
    requires
        forall|i: int| 0 <= i < actual.len() ==> #[trigger] has_match(expected, actual[i]),
        forall|i: int| 0 <= i < expected.len() ==> #[trigger] has_match(actual, expected[i]),
    ensures
        unmatched(actual, expected) == Seq::<MessageView>::empty(),
        unmatched(expected, actual) == Seq::<MessageView>::empty(),
{
    lemma_unmatched_covered(actual, expected);
    lemma_unmatched_covered(expected, actual);
}

/// When the expectations and the reports match both ways, and the compiler
/// then reports one more message that no expectation matches, that message
/// alone is unexpected and nothing is missing.
pub proof fn lemma_one_extra_report(
    expected: Seq<MessageView>,
    actual: Seq<MessageView>,
    extra: MessageView,
)
    requires
        forall|i: int| 0 <= i < actual.len() ==> #[trigger] has_match(expected, actual[i]),
        forall|i: int| 0 <= i < expected.len() ==> #[trigger] has_match(actual, expected[i]),
        !has_match(expected, extra),
    ensures
        unmatched(actual.push(extra), expected) == seq![extra],
        unmatched(expected, actual.push(extra)) == Seq::<MessageView>::empty(),
{
    lemma_unmatched_covered(actual, expected);
    assert(actual.push(extra).drop_last() =~= actual);
    assert forall|i: int| 0 <= i < expected.len() implies #[trigger] has_match(
        actual.push(extra),
        expected[i],
    ) by {
        assert(has_match(actual, expected[i]));
        let k = choose|k: int| 0 <= k < actual.len() && views_match(#[trigger] actual[k], expected[i]);
        assert(actual.push(extra)[k] == actual[k]);
    }
    lemma_unmatched_covered(expected, actual.push(extra));
    assert(Seq::<MessageView>::empty().push(extra) =~= seq![extra]);
}

proof fn lemma_unmatched_covered(xs: Seq<MessageView>, others: Seq<MessageView>)
    requires
        forall|i: int| 0 <= i < xs.len() ==> #[trigger] has_match(others, xs[i]),
    ensures
        unmatched(xs, others) == Seq::<MessageView>::empty(),
    decreases xs.len(),
{
    if xs.len() > 0 {
        let init = xs.drop_last();
        assert forall|i: int| 0 <= i < init.len() implies #[trigger] has_match(others, init[i]) by {
            assert(init[i] == xs[i]);
        }
        lemma_unmatched_covered(init, others);
        assert(has_match(others, xs[xs.len() - 1]));
        assert(xs.last() == xs[xs.len() - 1]);
    }
}

/// A global expectation (no location) with a pattern matches a reported
/// text of the same level, without code on either side, exactly when the
/// pattern is found in the text, wherever the report points.
pub proof fn lemma_global_pattern_matches_anywhere(
    pattern: Seq<char>,
    text: Seq<char>,
    level: DiagnosticLevel,
    location: Option<(Seq<char>, int)>,
)
    ensures
        views_match(
            MessageView { body: BodyView::Regex(pattern), level, code: None, location: None },
            MessageView { body: BodyView::Text(text), level, code: None, location },
        ) == (regex_compiles(pattern) && regex_finds(pattern, text)),
{
}

} // verus!
