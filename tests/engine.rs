use std::collections::BTreeMap;

use crate_compile_test::cargo_messages::{
    actual_messages, normalize, Diagnostic, DiagnosticCode, DiagnosticMessage, DiagnosticSpan,
};
use crate_compile_test::check_errors::{CheckErrorsStep, CheckErrorsStepFactory};
use crate_compile_test::check_expansion::{
    verify_expansion, CheckExpansionStep, CheckExpansionStepFactory,
};
use crate_compile_test::collect_errors::{CollectErrorsStep, CollectErrorsStepFactory};
use crate_compile_test::config::{Config, Mode, Profile};
use crate_compile_test::error::{ModuleMismatch, TestingError};
use crate_compile_test::formatting::{
    display_block, display_list, prefix_each_line, prefix_each_next_line, trim_lines,
};
use crate_compile_test::messages::{
    diff, CompilerMessage, DiagnosticLevel, MessageLocation, MessageType,
};
use crate_compile_test::outcome::{CrateOutcome, TestResult};
use crate_compile_test::plan::TestPlan;
use crate_compile_test::tokens::tokenize;

fn to_owned_vec(items: &[&str]) -> Vec<String> {
    items.iter().map(|s| s.to_string()).collect()
}

fn located(level: DiagnosticLevel, body: MessageType, code: Option<&str>, file: &str, line: usize) -> CompilerMessage {
    CompilerMessage {
        message: body,
        level,
        code: code.map(|c| c.to_string()),
        location: Some(MessageLocation { file: file.to_string(), line }),
    }
}

fn text(t: &str) -> MessageType {
    MessageType::Text(t.to_string())
}

fn span(file: &str, line: usize, primary: bool) -> DiagnosticSpan {
    DiagnosticSpan { file_name: file.to_string(), line_start: line, is_primary: primary }
}

fn raw(level: DiagnosticLevel, message: &str, code: Option<&str>, spans: Vec<DiagnosticSpan>, children: Vec<DiagnosticMessage>) -> DiagnosticMessage {
    DiagnosticMessage {
        message: message.to_string(),
        level,
        code: code.map(|c| DiagnosticCode { code: c.to_string() }),
        spans,
        children,
    }
}

fn record(m: DiagnosticMessage) -> Diagnostic {
    Diagnostic { message: Some(m), reason: "compiler-message".to_string() }
}

fn files(list: &[(&str, &str)]) -> Vec<(String, String)> {
    list.iter().map(|(p, s)| (p.to_string(), s.to_string())).collect()
}

#[test]
fn it_should_tokenize_expressions() {
    assert_eq!(
        CheckExpansionStepFactory::parse_tokens(r#"any string"#),
        to_owned_vec(&["any", "string"]),
    );

    assert_eq!(
        CheckExpansionStepFactory::parse_tokens(r#""any" string"#),
        to_owned_vec(&[r#""any""#, "string"]),
    );

    assert_eq!(
        CheckExpansionStepFactory::parse_tokens(r#"a [..] b"#),
        to_owned_vec(&["a", "[", "..", "]", "b"]),
    );

    assert_eq!(
        CheckExpansionStepFactory::parse_tokens(r#""a [..] b""#),
        to_owned_vec(&[r#""a [..] b""#]),
    );
}

const EXPAND_LIB: &str = "mod mod_1;
mod mod_2;

macro_rules! sum {
    ($lhs:expr, $rhs:expr) => {
        $lhs + $rhs
    };
}

fn some_fn() {
    //~ EXPAND x = 2;
    //~ EXPAND x = 1 + 1;
    let x = sum!(1, 1);

    let mut y;

    //~ EXPAND y = 1 + 1;
    //~ EXPAND y = 2 + 2;
    //~ EXPAND y = 4 + 4;

    y = sum!(1, 1);
    y = sum!(1, 2);
    y = sum!(3, 3);
    y = sum!(4, 4);
}
";

const EXPAND_MOD_1: &str = "macro_rules! div_n {
    ($n:expr) => {
        pub fn div_n(a: f64) -> f64 {
            a / $n as f64
        }
    };
}

//~ EXPAND pub fn div_n(a: f64) -> f64 {
//~ EXPAND     a / 4 as f64
//~ EXPAND }

div_n!(5);
";

const EXPAND_MOD_2: &str = "mod nested_mod_1;

macro_rules! custom_fn {
    ($name:ident() $body:block) => {
        pub fn $name(_arg: u32) -> u32 $body
    };
}

//~ EXPAND pub fn other_fn(_arg: u32) -> u32 {
//~ EXPAND     0
//~ EXPAND }

custom_fn!(other_fn() {
    0
});


mod inner_mod {
    custom_fn!(inner_fn() {
        1
    });
}
";

const EXPAND_NESTED: &str = "pub fn reverse() {
    //~ EXPAND t = [4, 3, 2, 6];
    let t = reverse!([6, 2, 3, 4]);
}
";

#[test]
fn it_should_collect_expected_expansions() {
    let sources = files(&[
        ("src/lib.rs", EXPAND_LIB),
        ("src/mod_1.rs", EXPAND_MOD_1),
        ("src/mod_2/mod.rs", EXPAND_MOD_2),
        ("src/mod_2/nested_mod_1/mod.rs", EXPAND_NESTED),
    ]);
    let actual_expectations: BTreeMap<String, Vec<Vec<String>>> =
        CheckExpansionStepFactory::find_expected_expansion(&sources).into_iter().collect();

    let mut expected_expectations = BTreeMap::new();

    expected_expectations.insert(
        "lib".to_string(),
        vec![
            to_owned_vec(&["x", "=", "2", ";"]),
            to_owned_vec(&["x", "=", "1", "+", "1", ";"]),
            to_owned_vec(&["y", "=", "1", "+", "1", ";"]),
            to_owned_vec(&["y", "=", "2", "+", "2", ";"]),
            to_owned_vec(&["y", "=", "4", "+", "4", ";"]),
        ],
    );

    expected_expectations.insert(
        "mod_2".to_string(),
        vec![
            to_owned_vec(&["pub", "fn", "other_fn", "(", "_arg", ":", "u32", ")", "->", "u32", "{"]),
            to_owned_vec(&["0"]),
            to_owned_vec(&["}"]),
        ],
    );

    expected_expectations.insert(
        "mod_2/nested_mod_1".to_string(),
        vec![to_owned_vec(&["t", "=", "[", "4", ",", "3", ",", "2", ",", "6", "]", ";"])],
    );

    expected_expectations.insert(
        "mod_1".to_string(),
        vec![
            to_owned_vec(&["pub", "fn", "div_n", "(", "a", ":", "f64", ")", "->", "f64", "{"]),
            to_owned_vec(&["a", "/", "4", "as", "f64"]),
            to_owned_vec(&["}"]),
        ],
    );

    assert_eq!(actual_expectations, expected_expectations);
}

const GLOBAL_MAIN: &str = "//~ GLOBAL-NOTE-REGEX -l(.+)libcore-(.+)\\.rlib
//~ GLOBAL-NOTE-REGEX undefined reference to `some_external_fn'
//~ GLOBAL-NOTE-REGEX undefined reference to `third_external_fn'

extern \"C\" {
    fn some_external_fn();
    fn other_external_fn();
}

fn main() {
    unsafe {
        some_external_fn();
        other_external_fn();
    }
}
";

fn global(level: DiagnosticLevel, pattern: &str) -> CompilerMessage {
    CompilerMessage {
        message: MessageType::Regex(pattern.to_string()),
        code: None,
        level,
        location: None,
    }
}

#[test]
fn it_should_collect_global_messages() {
    let messages =
        CheckErrorsStepFactory::collect_crate_messages(&files(&[("src/main.rs", GLOBAL_MAIN)])).unwrap();

    assert_eq!(
        messages,
        &[
            global(DiagnosticLevel::Note, "-l(.+)libcore-(.+)\\.rlib"),
            global(DiagnosticLevel::Note, r#"undefined reference to `some_external_fn'"#),
            global(DiagnosticLevel::Note, r#"undefined reference to `third_external_fn'"#),
        ]
    );
    match &messages[0].message {
        MessageType::Regex(p) => assert_eq!(p, "-l(.+)libcore-(.+)\\.rlib"),
        _ => panic!("expected a pattern"),
    }
}

#[test]
fn tokenize_rejoin_retokenize_is_identity() {
    let samples = [
        "fn main() { let x: Vec<u8> = vec![1, 2]; x.len() >> 2 }",
        "a::b->c=>d..=e...f\"s t\\\" u\"g<<=h",
        "  \"unterminated string with spaces",
        "ünïcode_ident + 'a' 'static",
    ];
    for s in samples.iter() {
        let tokens = tokenize(s);
        let joined = tokens.join(" ");
        assert_eq!(tokenize(&joined), tokens);
    }
}

#[test]
fn tokenize_keeps_operators_and_unterminated_strings() {
    assert_eq!(tokenize("x>>=1"), to_owned_vec(&["x", ">>=", "1"]));
    assert_eq!(tokenize("std::prelude::v1::*;"), to_owned_vec(&["std", "::", "prelude", "::", "v1", "::", "*", ";"]));
    assert_eq!(tokenize("a \"b c"), to_owned_vec(&["a", "\"b c"]));
    assert_eq!(tokenize("   \n\t "), Vec::<String>::new());
}

fn analyse(previous: &Vec<CompilerMessage>, line_no: usize, line: &str) -> Result<Option<CompilerMessage>, TestingError> {
    CheckErrorsStepFactory::analyse_source_line(previous, "src/lib.rs", (line_no, line))
}

#[test]
fn error_directive_takes_its_own_line() {
    let m = analyse(&vec![], 5, "// ~ ERROR foo").unwrap().unwrap();
    assert_eq!(m.level, DiagnosticLevel::Error);
    assert!(matches!(&m.message, MessageType::Text(t) if t == "foo"));
    assert_eq!(m.code, None);
    let location = m.location.unwrap();
    assert_eq!(location.line, 5);
    assert_eq!(location.file, "src/lib.rs");
}

#[test]
fn continuation_directive_takes_previous_location() {
    let first = analyse(&vec![], 5, "// ~ ERROR foo").unwrap().unwrap();
    let m = analyse(&vec![first], 6, "// ~| HELP bar").unwrap().unwrap();
    assert_eq!(m.level, DiagnosticLevel::Help);
    assert!(matches!(&m.message, MessageType::Text(t) if t == "bar"));
    assert_eq!(m.location.unwrap().line, 5);
}

#[test]
fn continuation_directive_without_previous_points_at_first_line() {
    let m = analyse(&vec![], 9, "//~| NOTE alone").unwrap().unwrap();
    assert_eq!(m.location.unwrap().line, 1);
}

#[test]
fn caret_directive_points_up() {
    let m = analyse(&vec![], 7, "// ~^^ WARNING baz").unwrap().unwrap();
    assert_eq!(m.level, DiagnosticLevel::Warning);
    assert!(matches!(&m.message, MessageType::Text(t) if t == "baz"));
    assert_eq!(m.location.unwrap().line, 5);
}

#[test]
fn caret_directive_above_first_line_is_rejected() {
    match analyse(&vec![], 2, "//~^^ ERROR too far") {
        Err(TestingError::InvalidAnnotation { file, line }) => {
            assert_eq!(file, "src/lib.rs");
            assert_eq!(line, 2);
        }
        _ => panic!("expected an invalid annotation"),
    }
}

#[test]
fn invalid_global_pattern_is_rejected() {
    assert!(matches!(
        analyse(&vec![], 3, "//~ GLOBAL-ERROR-REGEX (unclosed"),
        Err(TestingError::InvalidAnnotation { line: 3, .. })
    ));
}

#[test]
fn error_code_directive_has_no_text() {
    let m = analyse(&vec![], 4, "let x = y; //~ ERROR   E0425  ").unwrap().unwrap();
    assert_eq!(m.code, Some("E0425".to_string()));
    assert!(matches!(m.message, MessageType::Absent));
    let m = analyse(&vec![], 4, "//~ ERROR E04251").unwrap().unwrap();
    assert_eq!(m.code, None);
    assert!(matches!(&m.message, MessageType::Text(t) if t == "E04251"));
}

#[test]
fn lines_without_directive_give_nothing() {
    assert!(analyse(&vec![], 1, "// ERROR foo").unwrap().is_none());
    assert!(analyse(&vec![], 1, "//~ ERROR").unwrap().is_none());
    assert!(analyse(&vec![], 1, "//~ FATAL x").unwrap().is_none());
    assert_eq!(DiagnosticLevel::from("NOTE"), DiagnosticLevel::Note);
    assert_eq!(DiagnosticLevel::from("note"), DiagnosticLevel::Empty);
}

#[test]
fn diff_of_a_list_with_itself_is_empty() {
    let list = vec![
        located(DiagnosticLevel::Error, MessageType::Absent, Some("E0432"), "src/lib.rs", 2),
        located(DiagnosticLevel::Warning, text("unused"), None, "src/lib.rs", 3),
        global(DiagnosticLevel::Note, "undefined reference to `foo'"),
        global(DiagnosticLevel::Note, "(unclosed"),
        located(DiagnosticLevel::Help, MessageType::Absent, None, "src/a.rs", 1),
    ];
    let (unexpected, missing) = diff(&list, &list);
    assert!(unexpected.is_empty());
    assert!(missing.is_empty());
}

#[test]
fn global_pattern_matches_text_anywhere() {
    let expected = vec![global(DiagnosticLevel::Note, "undefined reference to `foo'")];
    let actual = vec![located(
        DiagnosticLevel::Note,
        text("main.o: in function `main': undefined reference to `foo' here"),
        None,
        "src/main.rs",
        40,
    )];
    let (unexpected, missing) = diff(&expected, &actual);
    assert!(unexpected.is_empty());
    assert!(missing.is_empty());

    let other = vec![located(DiagnosticLevel::Note, text("undefined reference to `bar'"), None, "x", 1)];
    let (unexpected, missing) = diff(&expected, &other);
    assert_eq!(unexpected.len(), 1);
    assert_eq!(missing.len(), 1);
}

#[test]
fn reported_message_without_location_does_not_match_a_located_one() {
    let expected = vec![located(DiagnosticLevel::Error, text("x"), None, "f", 1)];
    let actual = vec![CompilerMessage { message: text("x"), level: DiagnosticLevel::Error, code: None, location: None }];
    let (unexpected, missing) = diff(&expected, &actual);
    assert_eq!(unexpected.len(), 1);
    assert_eq!(missing.len(), 1);
    let (unexpected, missing) = diff(&actual, &actual);
    assert!(unexpected.is_empty() && missing.is_empty());
}

#[test]
fn located_messages_need_the_same_line() {
    let expected = vec![located(DiagnosticLevel::Error, text("boom"), None, "src/lib.rs", 3)];
    let actual = vec![located(DiagnosticLevel::Error, text("boom"), None, "src/lib.rs", 4)];
    let (unexpected, missing) = diff(&expected, &actual);
    assert_eq!(unexpected, actual);
    assert_eq!(missing, expected);
}

fn module_names(entries: &Vec<(String, Vec<String>)>) -> Vec<String> {
    entries.iter().map(|e| e.0.clone()).collect()
}

#[test]
fn partition_extracts_file_backed_modules_only() {
    let code = "fn top() {} mod sub { fn a() {} mod inline { fn b() {} } } mod other { fn c() {} }";
    let source_files = to_owned_vec(&["lib.rs", "sub.rs", "other/mod.rs"]);
    let parts = CheckExpansionStep::analyse_actual_expansion(code, &source_files).unwrap();
    assert_eq!(module_names(&parts), to_owned_vec(&["sub", "other", "lib"]));
    assert_eq!(parts[0].1, tokenize("fn a() {} mod inline { fn b() {} }"));
    assert_eq!(parts[1].1, tokenize("fn c() {}"));
    assert_eq!(parts[2].1, to_owned_vec(&["fn", "top", "(", ")", "{", "}"]));
}

#[test]
fn partition_keeps_inline_modules_in_their_parent() {
    let code = "mod nested { pub fn x() {} } mod inline { fn y() { let s = \"}\"; } }";
    let source_files = to_owned_vec(&["lib.rs", "nested/mod.rs"]);
    let parts = CheckExpansionStep::analyse_actual_expansion(code, &source_files).unwrap();
    assert_eq!(parts.len(), 2);
    assert_eq!(parts[0].0, "nested");
    assert_eq!(parts[0].1, to_owned_vec(&["pub", "fn", "x", "(", ")", "{", "}"]));
    assert_eq!(parts[1].0, "lib");
    assert_eq!(parts[1].1, tokenize("mod inline { fn y() { let s = \"}\"; } }"));
}

#[test]
fn unbalanced_expansion_is_rejected() {
    let source_files = to_owned_vec(&["lib.rs"]);
    assert!(matches!(
        CheckExpansionStep::analyse_actual_expansion("fn a() { ", &source_files),
        Err(TestingError::UnableToParseExpansion)
    ));
    assert!(matches!(
        CheckExpansionStep::analyse_actual_expansion("fn a() } {", &source_files),
        Err(TestingError::UnableToParseExpansion)
    ));
}

#[test]
fn module_names_are_normalized() {
    assert_eq!(CheckExpansionStep::normalize_module_name("mod"), "lib");
    assert_eq!(CheckExpansionStep::normalize_module_name("a/b/mod"), "a/b");
    assert_eq!(CheckExpansionStep::normalize_module_name("amod"), "a");
    assert_eq!(CheckExpansionStep::normalize_module_name("a/b"), "a/b");
    assert_eq!(CheckExpansionStepFactory::transform_path_into_module("src/lib.rs"), "lib");
    assert_eq!(CheckExpansionStepFactory::transform_path_into_module("src/a/mod.rs"), "a");
    assert_eq!(CheckExpansionStepFactory::transform_path_into_module("src/a/b.rs"), "a/b");
    assert_eq!(CheckExpansionStepFactory::transform_path_into_module("build.rs"), "build.rs");
}

#[test]
fn expansion_is_compared_per_module() {
    let expected = vec![(
        "lib".to_string(),
        vec![to_owned_vec(&["x", "="]), to_owned_vec(&["2", ";"])],
    )];
    let good = vec![("lib".to_string(), to_owned_vec(&["x", "=", "2", ";"]))];
    assert!(verify_expansion(&expected, &good).is_ok());
    let bad = vec![("lib".to_string(), to_owned_vec(&["x", "=", "3", ";"]))];
    match verify_expansion(&expected, &bad) {
        Err(TestingError::ExpansionMismatch { mismatches }) => {
            assert_eq!(mismatches.len(), 1);
            assert_eq!(mismatches[0].module, "lib");
            assert_eq!(mismatches[0].expected, to_owned_vec(&["x", "=", "2", ";"]));
            assert_eq!(mismatches[0].actual, Some(to_owned_vec(&["x", "=", "3", ";"])));
        }
        _ => panic!("expected a mismatch"),
    }
    let missing: Vec<(String, Vec<String>)> = vec![];
    match verify_expansion(&expected, &missing) {
        Err(TestingError::ExpansionMismatch { mismatches }) => {
            assert_eq!(mismatches.len(), 1);
            assert_eq!(mismatches[0].actual, None);
        }
        _ => panic!("expected a mismatch"),
    }
}

#[test]
fn every_differing_module_is_reported() {
    let expected = vec![
        ("a".to_string(), vec![to_owned_vec(&["1"])]),
        ("b".to_string(), vec![to_owned_vec(&["2"])]),
        ("c".to_string(), vec![to_owned_vec(&["3"])]),
    ];
    let actual = vec![
        ("a".to_string(), to_owned_vec(&["9"])),
        ("b".to_string(), to_owned_vec(&["2"])),
    ];
    match verify_expansion(&expected, &actual) {
        Err(TestingError::ExpansionMismatch { mismatches }) => {
            let names: Vec<String> = mismatches.iter().map(|m| m.module.clone()).collect();
            assert_eq!(names, to_owned_vec(&["a", "c"]));
            assert_eq!(mismatches[1].actual, None);
            let text = TestingError::ExpansionMismatch { mismatches }.describe();
            assert_eq!(
                text,
                "Expansion of module a doesn't match!\nexpected: 1\nactual:   9\n\nExpansion of module c doesn't match!\nexpected: 3\nactual:   none"
            );
        }
        _ => panic!("expected mismatches"),
    }
}

#[test]
fn expansion_step_checks_the_dump() {
    let expected = CheckExpansionStepFactory::find_expected_expansion(&files(&[(
        "src/lib.rs",
        "mod m;\nfn f() {\n    //~ EXPAND let x = 2;\n}\n",
    )]));
    let step = CheckExpansionStep::new("crate".to_string(), expected);
    let source_files = to_owned_vec(&["lib.rs", "m.rs"]);
    let dump = "mod m { pub fn g() {} } fn f() { let x = 2; }";
    assert!(step.evaluate(true, dump.to_string(), String::new(), &source_files).is_err());
    let dump = "mod m { pub fn g() {} } let x = 2;";
    assert!(step.evaluate(true, dump.to_string(), String::new(), &source_files).is_ok());
    assert!(matches!(
        step.evaluate(false, "out".to_string(), "err".to_string(), &source_files),
        Err(TestingError::CrateBuildFailed { .. })
    ));
}

const ANNOTATED: &str = "use mod2::func3;
//~^ WARNING another warning
//~^^ ERROR E0432
//~| ERROR unresolved import `mod2::func3`

fn main() {}

mod mod2 {
    pub fn func2() {}
}

fn other() { undefined::call(); } //~ ERROR E0433

fn third() {}

fn fourth() {}
fn fifth() {} //~ NOTE  With extra space
//~| HELP For previous line
";

fn toolchain_records() -> Vec<Diagnostic> {
    vec![
        record(raw(DiagnosticLevel::Error, "unresolved import `mod2::func3`", Some("E0432"), vec![span("src/lib.rs", 1, true)], vec![])),
        record(raw(DiagnosticLevel::Warning, "another warning", None, vec![span("src/lib.rs", 1, true)], vec![])),
        record(raw(DiagnosticLevel::Error, "failed to resolve", Some("E0433"), vec![span("src/lib.rs", 12, true)], vec![])),
        record(raw(DiagnosticLevel::Note, "With extra space", None, vec![span("src/lib.rs", 17, false), span("src/lib.rs", 17, true)], vec![])),
        record(raw(DiagnosticLevel::Help, "For previous line", None, vec![span("src/lib.rs", 17, true)], vec![])),
        record(raw(DiagnosticLevel::Error, "aborting due to 2 previous errors", None, vec![], vec![])),
        Diagnostic { message: None, reason: "build-finished".to_string() },
    ]
}

#[test]
fn annotated_unit_matching_its_diagnostics_passes() {
    let expected = CheckErrorsStepFactory::collect_crate_messages(&files(&[("src/lib.rs", ANNOTATED)])).unwrap();
    assert_eq!(expected.len(), 6);
    assert_eq!(expected[1].location.as_ref().unwrap().line, 1);
    let step = CheckErrorsStep::new("crate".to_string(), expected);
    assert!(step.evaluate(false, &toolchain_records(), String::new(), String::new()).is_ok());
}

#[test]
fn annotated_unit_with_an_extra_error_reports_it() {
    let expected = CheckErrorsStepFactory::collect_crate_messages(&files(&[("src/lib.rs", ANNOTATED)])).unwrap();
    let step = CheckErrorsStep::new("crate".to_string(), expected);
    let mut records = toolchain_records();
    let extra = raw(DiagnosticLevel::Error, "mismatched types", Some("E0308"), vec![span("src/lib.rs", 15, true)], vec![]);
    records.push(record(extra));
    match step.evaluate(false, &records, String::new(), String::new()) {
        Err(TestingError::MessageExpectationsFailed { unexpected, missing }) => {
            assert!(missing.is_empty());
            assert_eq!(unexpected.len(), 1);
            assert_eq!(unexpected[0].code, Some("E0308".to_string()));
            assert!(matches!(&unexpected[0].message, MessageType::Text(t) if t == "mismatched types"));
            assert_eq!(unexpected[0].location.as_ref().unwrap().line, 15);
        }
        _ => panic!("expected a mismatch"),
    }
}

#[test]
fn check_errors_step_reports_build_outcomes() {
    let step = CheckErrorsStep::new("crate".to_string(), vec![]);
    assert!(matches!(
        step.evaluate(true, &vec![], String::new(), String::new()),
        Err(TestingError::UnexpectedBuildSuccess)
    ));
    match step.evaluate(false, &vec![], "out".to_string(), "err".to_string()) {
        Err(TestingError::CrateBuildFailed { stdout, stderr }) => {
            assert_eq!(stdout, "out");
            assert_eq!(stderr, "err");
        }
        _ => panic!("expected a build failure"),
    }
}

#[test]
fn normalizer_flattens_children_without_primary_span() {
    let linker = raw(
        DiagnosticLevel::Error,
        "linking with `cc` failed",
        None,
        vec![],
        vec![
            raw(DiagnosticLevel::Note, "undefined reference to `foo'", None, vec![], vec![]),
            raw(DiagnosticLevel::Note, "in lib", None, vec![span("src/lib.rs", 3, true)], vec![]),
        ],
    );
    let out = normalize(&linker);
    assert_eq!(out.len(), 3);
    assert!(out[0].location.is_none());
    assert!(matches!(&out[0].message, MessageType::Text(t) if t == "undefined reference to `foo'"));
    assert_eq!(out[1].location.as_ref().unwrap().line, 3);
    assert!(out[2].location.is_none());
    assert!(matches!(&out[2].message, MessageType::Text(t) if t == "linking with `cc` failed"));

    let lone = raw(DiagnosticLevel::Error, "aborting", None, vec![], vec![
        raw(DiagnosticLevel::Note, "spanless note", None, vec![], vec![]),
        raw(DiagnosticLevel::Empty, "no level", None, vec![], vec![]),
    ]);
    let out = normalize(&lone);
    assert_eq!(out.len(), 1);
    assert!(matches!(&out[0].message, MessageType::Text(t) if t == "spanless note"));

    let nested = raw(
        DiagnosticLevel::Error,
        "outer",
        None,
        vec![span("x.rs", 1, false)],
        vec![raw(DiagnosticLevel::Help, "inner", None, vec![], vec![raw(DiagnosticLevel::Note, "deep", None, vec![span("y.rs", 2, true)], vec![])])],
    );
    let out = normalize(&nested);
    assert_eq!(out.len(), 3);
    assert!(matches!(&out[0].message, MessageType::Text(t) if t == "deep"));
    assert!(matches!(&out[1].message, MessageType::Text(t) if t == "inner"));

    let aborting = raw(DiagnosticLevel::Error, "aborting due to errors", None, vec![], vec![
        raw(DiagnosticLevel::Note, "child", None, vec![span("z.rs", 4, true)], vec![]),
    ]);
    assert_eq!(normalize(&aborting).len(), 1);

    let empty = raw(DiagnosticLevel::Empty, "x", None, vec![span("a.rs", 1, true)], vec![]);
    assert!(normalize(&empty).is_empty());

    let bare = raw(DiagnosticLevel::Warning, "no span", None, vec![], vec![]);
    assert!(normalize(&bare).is_empty());

    let records = vec![
        Diagnostic { message: Some(bare), reason: "compiler-artifact".to_string() },
        record(raw(DiagnosticLevel::Warning, "w", Some("unused"), vec![span("a.rs", 9, true)], vec![])),
    ];
    let actual = actual_messages(&records);
    assert_eq!(actual.len(), 1);
    assert_eq!(actual[0].code, Some("unused".to_string()));
}

#[test]
fn collect_errors_step_reports_every_message() {
    let _factory = CollectErrorsStepFactory::new();
    let step = CollectErrorsStep::new("crate".to_string());
    let records = vec![
        record(raw(DiagnosticLevel::Error, "first", None, vec![span("src/lib.rs", 2, false)], vec![])),
        record(raw(DiagnosticLevel::Error, "summary", None, vec![], vec![])),
    ];
    match step.evaluate(false, &records, String::new(), String::new()) {
        Err(TestingError::MessageExpectationsFailed { unexpected, missing }) => {
            assert!(missing.is_empty());
            assert_eq!(unexpected.len(), 1);
            let location = unexpected[0].location.as_ref().unwrap();
            assert_eq!(location.file, "unknown");
            assert_eq!(location.line, 1);
        }
        _ => panic!("expected the collected messages"),
    }
    assert_eq!(DiagnosticSpan::default().file_name, "unknown");
}

#[test]
fn formatting_trims_and_prefixes_lines() {
    assert_eq!(trim_lines("a  \nb\t\n\nc \n"), "a\nb\n\nc");
    assert_eq!(prefix_each_next_line("a\nb\n", "  "), "a\n  b\n");
    assert_eq!(prefix_each_line("a\nb", "> "), "> a\n> b");
}

#[test]
fn formatting_draws_lists() {
    assert_eq!(display_list(&vec![]), "");
    assert_eq!(display_list(&to_owned_vec(&["one\ntwo"])), " └─ one\n    two\n");
    assert_eq!(
        display_list(&to_owned_vec(&["a", "b\nc", "d"])),
        " ├─ a\n │\n ├─ b\n │  c\n │\n └─ d"
    );
}

#[test]
fn formatting_draws_blocks() {
    assert_eq!(
        display_block("out", "x\ny  "),
        "┍━━━━━┑\n│ out │\n┕━━━━━┙\n  x\n  y\n┍━━━━━━━━━┑\n│ end out │\n┕━━━━━━━━━┙"
    );
}

#[test]
fn messages_and_errors_describe_themselves() {
    let m = located(DiagnosticLevel::Error, text("boom"), Some("E0001"), "src/lib.rs", 12);
    assert_eq!(m.describe(), "file:    src/lib.rs:12\nmessage: (Error E0001) boom");
    let g = global(DiagnosticLevel::Note, "a.b");
    assert_eq!(g.describe(), "file:    none\nmessage: (Note) Regex(a.b)");
    assert_eq!(TestingError::UnexpectedBuildSuccess.describe(), "Unexpectedly successful build!");
    let e = TestingError::MessageExpectationsFailed { unexpected: vec![g], missing: vec![] };
    assert_eq!(
        e.describe(),
        "Compiler messages don't fulfill expectations!\n\nUnexpected messages:\n └─ file:    none\n    message: (Note) Regex(a.b)\n\n\nMissing messages:\n"
    );
    let f = TestingError::CrateBuildFailed { stdout: String::new(), stderr: "bad".to_string() };
    assert_eq!(
        f.describe(),
        "Unable to build the crate!\n\n┍━━━━━━━━┑\n│ stderr │\n┕━━━━━━━━┙\n  bad\n┍━━━━━━━━━━━━┑\n│ end stderr │\n┕━━━━━━━━━━━━┙"
    );
    assert_eq!(
        TestingError::InvalidAnnotation { file: "src/a.rs".to_string(), line: 305 }.describe(),
        "Invalid annotation at src/a.rs:305"
    );
}

#[test]
fn config_and_plan_hold_their_settings() {
    let mut config = Config::new(Mode::BuildFail, "tests/build-fail");
    assert!(config.profile == Profile::Release);
    assert_eq!(config.cargo_command, "cargo");
    config.add_cargo_env("RUSTFLAGS".to_string(), "-D warnings".to_string());
    assert_eq!(config.cargo_env, vec![("RUSTFLAGS".to_string(), "-D warnings".to_string())]);
    let plan = TestPlan::new(config, to_owned_vec(&["a", "b"]), |p: &str| p == "a");
    assert_eq!(plan.crates(), &to_owned_vec(&["a", "b"])[..]);
    assert!(!plan.is_crate_filtered_out("a"));
    assert!(plan.is_crate_filtered_out("b"));
}

#[test]
fn test_result_counts_outcomes() {
    let mut result = TestResult::new();
    result.record(CrateOutcome::Passed);
    result.record(CrateOutcome::Ignored);
    assert!(result.is_success());
    result.record(CrateOutcome::Failed);
    assert_eq!((result.successful, result.failed, result.ignored), (1, 1, 1));
    assert!(!result.is_success());
    let mut full = TestResult { successful: usize::MAX, failed: 0, ignored: 0 };
    full.record(CrateOutcome::Passed);
    assert_eq!(full.successful, usize::MAX);
}

#[test]
fn tool_failure_describes_itself() {
    let e = TestingError::ToolFailed { message: "no such file".to_string() };
    assert_eq!(e.describe(), "Unable to run the build tool: no such file");
    let m = TestingError::ExpansionMismatch {
        mismatches: vec![ModuleMismatch {
            module: "lib".to_string(),
            expected: to_owned_vec(&["a", "b"]),
            actual: None,
        }],
    };
    assert_eq!(m.describe(), "Expansion of module lib doesn't match!\nexpected: a b\nactual:   none");
}

#[test]
fn partition_cuts_public_module_declarations_whole() {
    let code = "pub mod sub { pub fn a() {} }\nfn b() {}";
    let source_files = to_owned_vec(&["lib.rs", "sub.rs"]);
    let parts = CheckExpansionStep::analyse_actual_expansion(code, &source_files).unwrap();
    assert_eq!(module_names(&parts), to_owned_vec(&["sub", "lib"]));
    assert_eq!(parts[0].1, to_owned_vec(&["pub", "fn", "a", "(", ")", "{", "}"]));
    assert_eq!(parts[1].1, to_owned_vec(&["fn", "b", "(", ")", "{", "}"]));
}

const EXPANDED_DUMP: &str = "#[prelude_import]
use std::prelude::v1::*;
#[macro_use]
extern crate std;
mod mod_1 {
    pub fn div_n(a: f64) -> f64 { a / 5 as f64 }
}
mod mod_2 {
    mod nested_mod_1 {
        pub fn reverse() { let t = [4, 3, 2, 6]; }
    }
    pub fn other_fn(_arg: u32) -> u32 { 0 }
    mod inner_mod {
        pub fn inner_fn(_arg: u32) -> u32 { 1 }
    }
}
fn some_fn() {
    let x = 1 + 1;
    let mut y;
    y = 1 + 1;
    y = 1 + 2;
    y = 3 + 3;
    y = 4 + 4;
}
";

#[test]
fn it_should_collect_actual_expansion() {
    let source_files = to_owned_vec(&["lib.rs", "mod_1.rs", "mod_2/mod.rs", "mod_2/nested_mod_1/mod.rs"]);
    let actual_expansion: BTreeMap<String, Vec<String>> =
        CheckExpansionStep::analyse_actual_expansion(EXPANDED_DUMP, &source_files)
            .unwrap()
            .into_iter()
            .collect();

    let mut expected_expansion = BTreeMap::new();
    expected_expansion.insert(
        "lib".to_string(),
        to_owned_vec(&[
            "#", "[", "prelude_import", "]", "use", "std", "::", "prelude", "::", "v1", "::", "*", ";",
            "#", "[", "macro_use", "]", "extern", "crate", "std", ";", "fn", "some_fn", "(", ")", "{",
            "let", "x", "=", "1", "+", "1", ";", "let", "mut", "y", ";", "y", "=", "1", "+", "1", ";",
            "y", "=", "1", "+", "2", ";", "y", "=", "3", "+", "3", ";", "y", "=", "4", "+", "4", ";", "}",
        ]),
    );
    expected_expansion.insert(
        "mod_1".to_string(),
        to_owned_vec(&["pub", "fn", "div_n", "(", "a", ":", "f64", ")", "->", "f64", "{", "a", "/", "5", "as", "f64", "}"]),
    );
    expected_expansion.insert(
        "mod_2".to_string(),
        to_owned_vec(&[
            "pub", "fn", "other_fn", "(", "_arg", ":", "u32", ")", "->", "u32", "{", "0", "}", "mod",
            "inner_mod", "{", "pub", "fn", "inner_fn", "(", "_arg", ":", "u32", ")", "->", "u32", "{",
            "1", "}", "}",
        ]),
    );
    expected_expansion.insert(
        "mod_2/nested_mod_1".to_string(),
        to_owned_vec(&["pub", "fn", "reverse", "(", ")", "{", "let", "t", "=", "[", "4", ",", "3", ",", "2", ",", "6", "]", ";", "}"]),
    );
    assert_eq!(actual_expansion, expected_expansion);
}

#[test]
fn partition_keeps_one_stream_per_module() {
    let code = "mod a { fn x() {} } mod a { fn y() {} }";
    let source_files = to_owned_vec(&["lib.rs", "a.rs"]);
    let parts = CheckExpansionStep::analyse_actual_expansion(code, &source_files).unwrap();
    assert_eq!(module_names(&parts), to_owned_vec(&["a", "lib"]));
    assert_eq!(parts[0].1, tokenize("fn x() {}"));
}

#[test]
fn crate_error_names_first_failing_file_and_line() {
    let sources = files(&[
        ("src/a.rs", "//~ ERROR fine\n"),
        ("src/b.rs", "fn x() {}\n\n//~^^^ ERROR too far\n//~ GLOBAL-NOTE-REGEX (bad\n"),
        ("src/c.rs", "//~ GLOBAL-NOTE-REGEX (also bad\n"),
    ]);
    match CheckErrorsStepFactory::collect_crate_messages(&sources) {
        Err(TestingError::InvalidAnnotation { file, line }) => {
            assert_eq!(file, "src/b.rs");
            assert_eq!(line, 3);
        }
        _ => panic!("expected the first invalid annotation"),
    }
}
