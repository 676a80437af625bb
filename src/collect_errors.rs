use vstd::prelude::*;

use crate::cargo_messages::{
    first_primary, first_primary_index, is_compiler_message, is_compiler_message_exec, own_message,
    own_view, Diagnostic, DiagnosticMessage,
};
use crate::error::TestingError;
use crate::messages::{
    location_view, message_views, CompilerMessage, DiagnosticLevel, MessageLocation, MessageView,
};

verus! {

/// A reported message with a span of its own, located at its first primary
/// span, or at line 1 of `unknown` where none is primary.
pub open spec fn collected_view(m: DiagnosticMessage) -> MessageView {
    own_view(
        m,
        match first_primary(m.spans@) {
            Some(s) => Some((s.file_name@, s.line_start as int)),
            None => Some(("unknown"@, 1)),
        },
    )
}

/// The messages that a run of records reports with a span and a level.
pub open spec fn records_collected(rs: Seq<Diagnostic>) -> Seq<MessageView>
    decreases rs.len(),
{
    if rs.len() == 0 {
        seq![]
    } else {
        let init = records_collected(rs.drop_last());
        let r = rs.last();
        match r.message {
            Some(m) => if is_compiler_message(r) && m.spans@.len() > 0 && m.level
                != DiagnosticLevel::Empty {
                init.push(collected_view(m))
            } else {
                init
            },
            None => init,
        }
    }
}

/// Collects the messages that a failing build reports.
pub struct CollectErrorsStepFactory;

impl CollectErrorsStepFactory {
    pub fn new() -> (r: Self) {
        CollectErrorsStepFactory {  }
    }
}

/// The collection of the messages of one crate's build.
pub struct CollectErrorsStep {
    pub crate_dir: String,
}

impl CollectErrorsStep {
    pub fn new(crate_dir: String) -> (r: Self)
        ensures
            r.crate_dir == crate_dir,
    {
        CollectErrorsStep { crate_dir }
    }

    /// The messages that the records report with a span and a level.
    pub fn collect(records: &Vec<Diagnostic>) -> (r: Vec<CompilerMessage>)
        ensures
            message_views(r@) == records_collected(records@),
    {
        let mut out: Vec<CompilerMessage> = Vec::new();
        let mut i: usize = 0;
        assert(records@.take(0) =~= Seq::<Diagnostic>::empty());
        assert(message_views(out@) =~= Seq::<MessageView>::empty());
        while i < records.len()
            invariant
                i <= records@.len(),
                message_views(out@) == records_collected(records@.take(i as int)),
            decreases records@.len() - i,
        {
            assert(records@.take(i + 1).drop_last() =~= records@.take(i as int));
            assert(records@.take(i + 1).last() == records@[i as int]);
            let record = &records[i];
            if is_compiler_message_exec(record) {
                if let Some(m) = &record.message {
                    if m.spans.len() > 0 && m.level != DiagnosticLevel::Empty {
                        let location = match first_primary_index(&m.spans) {
                            Some(k) => MessageLocation {
                                file: m.spans[k].file_name.clone(),
                                line: m.spans[k].line_start,
                            },
                            None => MessageLocation { file: String::from_str("unknown"), line: 1 },
                        };
                        let ghost before = out@;
                        let msg = own_message(m, Some(location));
                        out.push(msg);
                        assert(message_views(out@) =~= message_views(before).push(collected_view(*m)));
                    }
                }
            }
            i = i + 1;
        }
        assert(records@.take(i as int) =~= records@);
        out
    }

    /// The outcome of one build whose messages are to be collected: a
    /// failing build with messages reports them all as unexpected.
    pub fn evaluate(
        &self,
        build_succeeded: bool,
        records: &Vec<Diagnostic>,
        stdout: String,
        stderr: String,
    ) -> (r: Result<(), TestingError>)
        ensures
            build_succeeded ==> r matches Err(TestingError::UnexpectedBuildSuccess),
            !build_succeeded && records_collected(records@).len() == 0 ==> (r matches Err(
                TestingError::CrateBuildFailed { stdout: o, stderr: e },
            ) && o == stdout && e == stderr),
            !build_succeeded && records_collected(records@).len() > 0 ==> (r matches Err(
                TestingError::MessageExpectationsFailed { unexpected, missing },
            ) && message_views(unexpected@) == records_collected(records@) && missing@.len() == 0),
    {
        if build_succeeded {
            return Err(TestingError::UnexpectedBuildSuccess);
        }
        let found = Self::collect(records);
        if found.len() == 0 {
            Err(TestingError::CrateBuildFailed { stdout, stderr })
        } else {
            Err(TestingError::MessageExpectationsFailed { unexpected: found, missing: Vec::new() })
        }
    }
}

} // verus!
