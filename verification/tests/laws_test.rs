use brv::context::{context_satisfied, PatternCheck};
use brv::serve::{handle_expand, handle_request_error, parse_request};
use brv::expand::{build_output, expand, expand_after_context, extract_keyword, ExpandInput};
use brv::matcher::{self, AbbrScope, Abbreviation, AbbreviationContext, CompiledAbbr};
use brv::output::{ExpandOutput, PlaceholderOutput};
use brv::placeholder::{apply_first_placeholder, find_next_placeholder};

fn abbr(keyword: &str, expansion: &str, global: bool, lbuffer: Option<&str>) -> Abbreviation {
    Abbreviation {
        keyword: keyword.to_string(),
        expansion: expansion.to_string(),
        global,
        evaluate: false,
        allow_conflict: false,
        context: lbuffer.map(|p| AbbreviationContext {
            lbuffer: Some(p.to_string()),
            rbuffer: None,
        }),
    }
}

fn run(m: &matcher::Matcher, l: &str, r: &str) -> ExpandOutput {
    expand(
        &ExpandInput {
            lbuffer: l.to_string(),
            rbuffer: r.to_string(),
        },
        m,
    )
}

#[test]
fn keyword_split_keeps_prefix_and_last_token() {
    let (p, k) = extract_keyword("  git  commit   ").unwrap();
    assert_eq!(p, "  git  ");
    assert_eq!(k, "commit");
    let (p, k) = extract_keyword("a\tb").unwrap();
    assert_eq!(p, "");
    assert_eq!(k, "a\tb");
}

#[test]
fn later_declaration_replaces_earlier() {
    let m = matcher::build(&[abbr("g", "git", false, None), abbr("g", "grep", false, None)]);
    match run(&m, "g", "") {
        ExpandOutput::Success { buffer, .. } => assert_eq!(buffer, "grep"),
        other => panic!("unexpected {:?}", other),
    }
    assert_eq!(matcher::lookup_regular(&m, "g").unwrap().expansion, "grep");
    assert!(matcher::lookup_global(&m, "g").is_none());
}

#[test]
fn contextual_beats_regular_and_global() {
    let m = matcher::build(&[
        abbr("k", "regular", false, None),
        abbr("k", "global", true, None),
        abbr("k", "contextual", false, Some("^$")),
    ]);
    match run(&m, "k", "") {
        ExpandOutput::Success { buffer, cursor } => {
            assert_eq!(buffer, "contextual");
            assert_eq!(cursor, 10);
        }
        other => panic!("unexpected {:?}", other),
    }
    // Context fails: command position picks the regular one.
    match run(&m, "  k", "") {
        ExpandOutput::Success { buffer, .. } => assert_eq!(buffer, "  regular"),
        other => panic!("unexpected {:?}", other),
    }
    // Not in command position: the global one.
    match run(&m, "echo k", "") {
        ExpandOutput::Success { buffer, .. } => assert_eq!(buffer, "echo global"),
        other => panic!("unexpected {:?}", other),
    }
}

#[test]
fn after_context_decision_uses_given_hit() {
    let m = matcher::build(&[abbr("k", "regular", false, None)]);
    let hit = CompiledAbbr {
        keyword: "k".to_string(),
        expansion: "hit".to_string(),
        scope: AbbrScope::Global,
        evaluate: false,
    };
    match expand_after_context(&m, "x ", "k", Some(&hit), "!") {
        ExpandOutput::Success { buffer, cursor } => {
            assert_eq!(buffer, "x hit!");
            assert_eq!(cursor, 5);
        }
        other => panic!("unexpected {:?}", other),
    }
    match expand_after_context(&m, "x ", "k", None, "") {
        ExpandOutput::NoMatch => {}
        other => panic!("unexpected {:?}", other),
    }
}

#[test]
fn placeholder_removal_and_reinsertion() {
    let text = "a {{b}} c {{d}}";
    let r = apply_first_placeholder(text, 99);
    assert_eq!(r.text, "a  c {{d}}");
    assert_eq!(r.cursor, 2);
    let (s, e) = find_next_placeholder(text, 0).unwrap();
    assert_eq!((s, e), (2, 7));
    let mut back = r.text.clone();
    back.insert_str(r.cursor, &text[s..e]);
    assert_eq!(back, text);
    assert_eq!(find_next_placeholder(text, 3), Some((10, 15)));
    assert_eq!(find_next_placeholder("{{ open", 0), None);
    assert_eq!(find_next_placeholder("x", 5), None);
}

#[test]
fn no_placeholder_keeps_text_and_cursor() {
    let r = apply_first_placeholder("plain }} text {{", 7);
    assert_eq!(r.text, "plain }} text {{");
    assert_eq!(r.cursor, 7);
}

#[test]
fn placeholder_in_typed_prefix_is_found_first() {
    let a = CompiledAbbr {
        keyword: "x".to_string(),
        expansion: "y{{z}}".to_string(),
        scope: AbbrScope::Regular,
        evaluate: false,
    };
    match build_output("{{p}} ", &a, "") {
        ExpandOutput::Success { buffer, cursor } => {
            assert_eq!(buffer, " y{{z}}");
            assert_eq!(cursor, 0);
        }
        other => panic!("unexpected {:?}", other),
    }
}

#[test]
fn unicode_cursor_is_in_bytes() {
    let m = matcher::build(&[abbr("ü", "über", true, None)]);
    match run(&m, "é ü", "") {
        ExpandOutput::Success { buffer, cursor } => {
            assert_eq!(buffer, "é über");
            assert_eq!(cursor, "é über".len());
        }
        other => panic!("unexpected {:?}", other),
    }
}

#[test]
fn no_match_renders_as_no_match() {
    assert_eq!(ExpandOutput::NoMatch.to_string(), "no_match");
    assert_eq!(PlaceholderOutput::NoPlaceholder.to_string(), "no_placeholder");
    assert_eq!(
        PlaceholderOutput::Success {
            buffer: "b".to_string(),
            cursor: 1234567890
        }
        .to_string(),
        "success\nb\n1234567890"
    );
}

#[test]
fn context_verdict_from_pattern_checks() {
    assert!(context_satisfied(PatternCheck::Absent, PatternCheck::Absent));
    assert!(context_satisfied(PatternCheck::Checked(true), PatternCheck::Absent));
    assert!(!context_satisfied(PatternCheck::Checked(false), PatternCheck::Absent));
    assert!(!context_satisfied(PatternCheck::Absent, PatternCheck::Invalid));
    assert!(!context_satisfied(PatternCheck::Checked(true), PatternCheck::Checked(false)));
}

#[test]
fn keyword_declared_finds_any_kind() {
    let abbrs = vec![abbr("g", "git", false, None), abbr("m", "main", false, Some("^x"))];
    assert!(matcher::keyword_declared(&abbrs, "g"));
    assert!(matcher::keyword_declared(&abbrs, "m"));
    assert!(!matcher::keyword_declared(&abbrs, "gg"));
    assert!(!matcher::keyword_declared(&[], "g"));
}

#[test]
fn empty_matcher_finds_nothing() {
    let m = matcher::Matcher::new();
    assert!(matcher::lookup_regular(&m, "g").is_none());
    assert!(matcher::lookup_global(&m, "g").is_none());
    assert!(matcher::lookup_contextual(&m, "g").is_empty());
    match run(&m, "g", "") {
        ExpandOutput::NoMatch => {}
        other => panic!("unexpected {:?}", other),
    }
}

#[test]
fn serve_expand_answers() {
    let m = matcher::build(&[abbr("g", "git", false, None)]);
    let mut out = Vec::new();
    handle_expand(Some(&m), "g", " x", &mut out);
    assert_eq!(String::from_utf8(out).unwrap(), "success\ngit x\n3\n\x1e\n");
    let mut out = Vec::new();
    handle_expand(None, "g", "", &mut out);
    assert_eq!(String::from_utf8(out).unwrap(), "stale_cache\n\x1e\n");
    let mut out = Vec::new();
    handle_request_error(&parse_request("bogus").unwrap_err(), &mut out);
    assert_eq!(
        String::from_utf8(out).unwrap(),
        "error\tunknown command: bogus\n\x1e\n"
    );
}

#[test]
fn single_word_is_in_command_position() {
    let (prefix, keyword) = extract_keyword("g\tx").unwrap();
    assert_eq!(prefix, "");
    assert_eq!(keyword, "g\tx");
    assert!(brv::expand::is_command_position(&prefix));
}

#[test]
fn nothing_left_after_removing_all_placeholders() {
    for text in ["{{a}}b{{c}}", "{{{{x}}}}y", "x{{y", "{{a}}{{b}}}}", "日{{本}}語"] {
        let stripped = brv::placeholder::remove_all_placeholders(text);
        assert_eq!(find_next_placeholder(&stripped, 0), None, "{}", text);
    }
    assert_eq!(brv::placeholder::remove_all_placeholders("{{{{x}}}}y"), "}}y");
}
