use vstd::prelude::*;

use crate::annotations::{line_message, message_of_line};
use crate::cargo_messages::{actual_messages, records_normalized, Diagnostic};
use crate::error::TestingError;
use crate::messages::{diff, message_views, unmatched, CompilerMessage, MessageView};
use crate::text::{chars_of, lines_of, split_lines};

verus! {

/// The messages that the first lines of `file` declare, or the number of the
/// first line whose directive cannot be used.
pub open spec fn lines_messages(file: Seq<char>, lines: Seq<Seq<char>>) -> Result<
    Seq<MessageView>,
    int,
>
    decreases lines.len(),
{
    if lines.len() == 0 {
        Ok(seq![])
    } else {
        match lines_messages(file, lines.drop_last()) {
            Err(k) => Err(k),
            Ok(prev) => match line_message(prev, file, lines.len() as int, lines.last()) {
                Err(_) => Err(lines.len() as int),
                Ok(None) => Ok(prev),
                Ok(Some(m)) => Ok(prev.push(m)),
            },
        }
    }
}

/// The messages that the source text of `file` declares, line by line.
pub open spec fn file_messages(file: Seq<char>, source: Seq<char>) -> Result<Seq<MessageView>, int> {
    lines_messages(file, lines_of(source))
}

/// The messages that the files of a crate declare, file after file; or the
/// path of the first file with a directive that cannot be used, and the
/// number of its first such line.
pub open spec fn crate_messages(files: Seq<(Seq<char>, Seq<char>)>) -> Result<
    Seq<MessageView>,
    (Seq<char>, int),
>
    decreases files.len(),
{
    if files.len() == 0 {
        Ok(seq![])
    } else {
        match crate_messages(files.drop_last()) {
            Err(e) => Err(e),
            Ok(a) => match file_messages(files.last().0, files.last().1) {
                Ok(b) => Ok(a + b),
                Err(k) => Err((files.last().0, k)),
            },
        }
    }
}

/// Reads the expected compiler messages out of the sources of a crate.
pub struct CheckErrorsStepFactory;

impl CheckErrorsStepFactory {
    pub fn new() -> (r: Self) {
        CheckErrorsStepFactory {  }
    }

    /// The message that line `line.0` (text `line.1`) of `path` declares,
    /// after the messages `previous` of that file.
    pub fn analyse_source_line(
        previous: &Vec<CompilerMessage>,
        path: &str,
        line: (usize, &str),
    ) -> (r: Result<Option<CompilerMessage>, TestingError>)
        ensures
            crate::annotations::line_result_view(r) == line_message(
                message_views(previous@),
                path@,
                line.0 as int,
                line.1@,
            ),
            r matches Err(e) ==> e matches TestingError::InvalidAnnotation { file: f, line: k }
                && f@ == path@ && k == line.0,
    {
        let chars = chars_of(line.1);
        message_of_line(previous, path, line.0, &chars)
    }

    /// The messages that the source text of `path` declares, in line order.
    pub fn analyse_file(path: &str, source: &str) -> (r: Result<Vec<CompilerMessage>, TestingError>)
        ensures
            match r {
                Ok(ms) => file_messages(path@, source@) == Ok::<Seq<MessageView>, int>(
                    message_views(ms@),
                ),
                Err(e) => file_messages(path@, source@) matches Err(k) && e matches TestingError::InvalidAnnotation {
                    file: f,
                    line: n,
                } && f@ == path@ && n == k,
            },
    {
        let chars = chars_of(source);
        let lines = split_lines(&chars);
        let ghost ls = lines@.map_values(|v: Vec<char>| v@);
        let mut out: Vec<CompilerMessage> = Vec::new();
        let mut i: usize = 0;
        assert(ls.take(0) =~= Seq::<Seq<char>>::empty());
        assert(message_views(out@) =~= Seq::<MessageView>::empty());
        while i < lines.len()
            invariant
                i <= lines@.len(),
                ls == lines@.map_values(|v: Vec<char>| v@),
                ls == lines_of(source@),
                lines_messages(path@, ls.take(i as int)) == Ok::<Seq<MessageView>, int>(
                    message_views(out@),
                ),
            decreases lines@.len() - i,
        {
            assert(ls.take(i + 1).drop_last() =~= ls.take(i as int));
            assert(ls.take(i + 1).last() == lines@[i as int]@);
            let found = message_of_line(&out, path, i + 1, &lines[i]);
            match found {
                Err(e) => {
                    proof {
                        lemma_lines_messages_error(path@, ls, i + 1, i + 1);
                    }
                    return Err(e);
                },
                Ok(None) => {},
                Ok(Some(m)) => {
                    let ghost before = out@;
                    out.push(m);
                    assert(message_views(out@) =~= message_views(before).push(m@));
                },
            }
            i = i + 1;
        }
        assert(ls.take(i as int) =~= ls);
        Ok(out)
    }

    /// The messages that the files of a crate declare, given as pairs of a
    /// path relative to the crate and a source text, in the order given.
    pub fn collect_crate_messages(files: &Vec<(String, String)>) -> (r: Result<
        Vec<CompilerMessage>,
        TestingError,
    >)
        ensures
            match r {
                Ok(ms) => crate_messages(files@.map_values(|f: (String, String)| (f.0@, f.1@)))
                    == Ok::<Seq<MessageView>, (Seq<char>, int)>(message_views(ms@)),
                Err(e) => crate_messages(files@.map_values(|f: (String, String)| (f.0@, f.1@)))
                    matches Err((file, line)) && e matches TestingError::InvalidAnnotation {
                    file: f,
                    line: n,
                } && f@ == file && n == line,
            },
    {
        let ghost fs = files@.map_values(|f: (String, String)| (f.0@, f.1@));
        let mut out: Vec<CompilerMessage> = Vec::new();
        let mut i: usize = 0;
        assert(fs.take(0) =~= Seq::<(Seq<char>, Seq<char>)>::empty());
        assert(message_views(out@) =~= Seq::<MessageView>::empty());
        while i < files.len()
            invariant
                i <= files@.len(),
                fs == files@.map_values(|f: (String, String)| (f.0@, f.1@)),
                crate_messages(fs.take(i as int)) == Ok::<Seq<MessageView>, (Seq<char>, int)>(
                    message_views(out@),
                ),
            decreases files@.len() - i,
        {
            assert(fs.take(i + 1).drop_last() =~= fs.take(i as int));
            let (path, source) = &files[i];
            assert(fs.take(i + 1).last() == (path@, source@));
            match Self::analyse_file(path.as_str(), source.as_str()) {
                Err(e) => {
                    proof {
                        let k = choose|k: int| file_messages(path@, source@) == Err::<Seq<MessageView>, int>(k);
                        lemma_crate_messages_error(fs, i + 1, (path@, k));
                    }
                    return Err(e);
                },
                Ok(ms) => {
                    let ghost before = out@;
                    let mut k: usize = 0;
                    while k < ms.len()
                        invariant
                            k <= ms@.len(),
                            message_views(out@) == message_views(before) + message_views(
                                ms@.take(k as int),
                            ),
                        decreases ms@.len() - k,
                    {
                        let ghost mid = out@;
                        out.push(ms[k].clone());
                        assert(message_views(out@) =~= message_views(mid).push(ms@[k as int]@));
                        assert(message_views(ms@.take(k + 1)) =~= message_views(ms@.take(k as int)).push(
                            ms@[k as int]@,
                        ));
                        k = k + 1;
                    }
                    assert(ms@.take(k as int) =~= ms@);
                },
            }
            i = i + 1;
        }
        assert(fs.take(i as int) =~= fs);
        Ok(out)
    }
}

/// The check of one crate against the messages its sources declare.
pub struct CheckErrorsStep {
    pub crate_dir: String,
    pub expected_messages: Vec<CompilerMessage>,
}

impl CheckErrorsStep {
    pub fn new(crate_dir: String, expected_messages: Vec<CompilerMessage>) -> (r: Self)
        ensures
            r.crate_dir == crate_dir,
            r.expected_messages == expected_messages,
    {
        CheckErrorsStep { crate_dir, expected_messages }
    }

    /// The outcome of one build that was expected to fail, from whether it
    /// succeeded, the records of its structured output, and its raw output.
    pub fn evaluate(
        &self,
        build_succeeded: bool,
        records: &Vec<Diagnostic>,
        stdout: String,
        stderr: String,
    ) -> (r: Result<(), TestingError>)
        ensures
            build_succeeded ==> r matches Err(TestingError::UnexpectedBuildSuccess),
            !build_succeeded && records_normalized(records@).len() == 0 ==> (r matches Err(
                TestingError::CrateBuildFailed { stdout: o, stderr: e },
            ) && o == stdout && e == stderr),
            !build_succeeded && records_normalized(records@).len() > 0 ==> ({
                let actual = records_normalized(records@);
                let expected = message_views(self.expected_messages@);
                let u = unmatched(actual, expected);
                let m = unmatched(expected, actual);
                if u.len() == 0 && m.len() == 0 {
                    r is Ok
                } else {
                    r matches Err(TestingError::MessageExpectationsFailed { unexpected, missing })
                        && message_views(unexpected@) == u && message_views(missing@) == m
                }
            }),
    {
        if build_succeeded {
            return Err(TestingError::UnexpectedBuildSuccess);
        }
        let actual = actual_messages(records);
        if actual.len() == 0 {
            return Err(TestingError::CrateBuildFailed { stdout, stderr });
        }
        let (unexpected, missing) = diff(&self.expected_messages, &actual);
        if unexpected.len() == 0 && missing.len() == 0 {
            Ok(())
        } else {
            Err(TestingError::MessageExpectationsFailed { unexpected, missing })
        }
    }
}

proof fn lemma_lines_messages_error(file: Seq<char>, ls: Seq<Seq<char>>, n: int, k: int)
    requires
        1 <= n <= ls.len(),
        lines_messages(file, ls.take(n)) == Err::<Seq<MessageView>, int>(k),
    ensures
        lines_messages(file, ls) == Err::<Seq<MessageView>, int>(k),
    decreases ls.len() - n,
{
    if n < ls.len() {
        assert(ls.take(n + 1).drop_last() =~= ls.take(n));
        lemma_lines_messages_error(file, ls, n + 1, k);
    } else {
        assert(ls.take(n) =~= ls);
    }
}

proof fn lemma_crate_messages_error(
    fs: Seq<(Seq<char>, Seq<char>)>,
    n: int,
    e: (Seq<char>, int),
)
    requires
        1 <= n <= fs.len(),
        crate_messages(fs.take(n)) == Err::<Seq<MessageView>, (Seq<char>, int)>(e),
    ensures
        crate_messages(fs) == Err::<Seq<MessageView>, (Seq<char>, int)>(e),
    decreases fs.len() - n,
{
    if n < fs.len() {
        assert(fs.take(n + 1).drop_last() =~= fs.take(n));
        lemma_crate_messages_error(fs, n + 1, e);
    } else {
        assert(fs.take(n) =~= fs);
    }
}

} // verus!
