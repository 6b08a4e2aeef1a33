use brv::expand::{expand, extract_keyword, is_command_position, ExpandInput};
use brv::matcher::{self, Abbreviation, AbbreviationContext, Matcher};
use brv::output::ExpandOutput;

fn build_test_matcher() -> Matcher {
    let abbrs = vec![
        Abbreviation {
            keyword: "g".to_string(),
            expansion: "git".to_string(),
            global: false,
            evaluate: false,
            allow_conflict: false,
            context: None,
        },
        Abbreviation {
            keyword: "gc".to_string(),
            expansion: "git commit -m '{{message}}'".to_string(),
            global: false,
            evaluate: false,
            allow_conflict: false,
            context: None,
        },
        Abbreviation {
            keyword: "gp".to_string(),
            expansion: "git push".to_string(),
            global: false,
            evaluate: false,
            allow_conflict: false,
            context: None,
        },
        Abbreviation {
            keyword: "NE".to_string(),
            expansion: "2>/dev/null".to_string(),
            global: true,
            evaluate: false,
            allow_conflict: false,
            context: None,
        },
        Abbreviation {
            keyword: "main".to_string(),
            expansion: "main --branch".to_string(),
            global: false,
            evaluate: false,
            allow_conflict: false,
            context: Some(AbbreviationContext {
                lbuffer: Some("^git (checkout|switch) ".to_string()),
                rbuffer: None,
            }),
        },
        Abbreviation {
            keyword: "TODAY".to_string(),
            expansion: "date +%Y-%m-%d".to_string(),
            global: true,
            evaluate: true,
            allow_conflict: false,
            context: None,
        },
    ];
    matcher::build(&abbrs)
}

#[test]
fn test_extract_keyword_simple() {
    let (prefix, keyword) = extract_keyword("g").unwrap();
    assert_eq!(prefix, "");
    assert_eq!(keyword, "g");
}

#[test]
fn test_extract_keyword_with_trailing_space() {
    // When trailing is only spaces, trim_end removes them and returns the last token
    let (prefix, keyword) = extract_keyword("git commit ").unwrap();
    assert_eq!(prefix, "git ");
    assert_eq!(keyword, "commit");
}

#[test]
fn test_extract_keyword_with_args() {
    let (prefix, keyword) = extract_keyword("echo NE").unwrap();
    assert_eq!(prefix, "echo ");
    assert_eq!(keyword, "NE");
}

#[test]
fn test_extract_keyword_empty() {
    assert!(extract_keyword("").is_none());
    assert!(extract_keyword("   ").is_none());
}

#[test]
fn test_is_command_position() {
    assert!(is_command_position(""));
    assert!(is_command_position("  "));
    assert!(!is_command_position("echo "));
    assert!(!is_command_position("git commit "));
}

#[test]
fn test_expand_regular_command_position() {
    let matcher = build_test_matcher();
    let input = ExpandInput {
        lbuffer: "g".to_string(),
        rbuffer: "".to_string(),
    };
    match expand(&input, &matcher) {
        ExpandOutput::Success { buffer, cursor } => {
            assert_eq!(buffer, "git");
            assert_eq!(cursor, 3);
        }
        other => panic!("Expected Success, got {:?}", other),
    }
}

#[test]
fn test_expand_regular_not_command_position() {
    let matcher = build_test_matcher();
    // "g" is regular, so it only matches in command position
    let input = ExpandInput {
        lbuffer: "echo g".to_string(),
        rbuffer: "".to_string(),
    };
    match expand(&input, &matcher) {
        ExpandOutput::NoMatch => {}
        other => panic!("Expected NoMatch, got {:?}", other),
    }
}

#[test]
fn test_expand_global() {
    let matcher = build_test_matcher();
    let input = ExpandInput {
        lbuffer: "echo hello NE".to_string(),
        rbuffer: "".to_string(),
    };
    match expand(&input, &matcher) {
        ExpandOutput::Success { buffer, cursor } => {
            assert_eq!(buffer, "echo hello 2>/dev/null");
            assert_eq!(cursor, 22);
        }
        other => panic!("Expected Success, got {:?}", other),
    }
}

#[test]
fn test_expand_with_placeholder() {
    let matcher = build_test_matcher();
    let input = ExpandInput {
        lbuffer: "gc".to_string(),
        rbuffer: "".to_string(),
    };
    match expand(&input, &matcher) {
        ExpandOutput::Success { buffer, cursor } => {
            assert_eq!(buffer, "git commit -m ''");
            assert_eq!(cursor, 15);
        }
        other => panic!("Expected Success, got {:?}", other),
    }
}

#[test]
fn test_expand_contextual() {
    let matcher = build_test_matcher();
    let input = ExpandInput {
        lbuffer: "git checkout main".to_string(),
        rbuffer: "".to_string(),
    };
    match expand(&input, &matcher) {
        ExpandOutput::Success { buffer, cursor } => {
            assert_eq!(buffer, "git checkout main --branch");
            assert_eq!(cursor, 26);
        }
        other => panic!("Expected Success, got {:?}", other),
    }
}

#[test]
fn test_expand_contextual_no_match() {
    let matcher = build_test_matcher();
    let input = ExpandInput {
        lbuffer: "git commit main".to_string(),
        rbuffer: "".to_string(),
    };
    // "main" has context, but lbuffer is "git commit " so it doesn't match
    // "main" is also not in regular, so no match
    match expand(&input, &matcher) {
        ExpandOutput::NoMatch => {}
        other => panic!("Expected NoMatch, got {:?}", other),
    }
}

#[test]
fn test_expand_evaluate() {
    let matcher = build_test_matcher();
    let input = ExpandInput {
        lbuffer: "echo TODAY".to_string(),
        rbuffer: "".to_string(),
    };
    match expand(&input, &matcher) {
        ExpandOutput::Evaluate {
            command,
            prefix,
            rbuffer,
        } => {
            assert_eq!(command, "date +%Y-%m-%d");
            assert_eq!(prefix, "echo ");
            assert_eq!(rbuffer, "");
        }
        other => panic!("Expected Evaluate, got {:?}", other),
    }
}

#[test]
fn test_expand_no_match() {
    let matcher = build_test_matcher();
    let input = ExpandInput {
        lbuffer: "unknown_command".to_string(),
        rbuffer: "".to_string(),
    };
    match expand(&input, &matcher) {
        ExpandOutput::NoMatch => {}
        other => panic!("Expected NoMatch, got {:?}", other),
    }
}

#[test]
fn test_expand_empty_input() {
    let matcher = build_test_matcher();
    let input = ExpandInput {
        lbuffer: "".to_string(),
        rbuffer: "".to_string(),
    };
    match expand(&input, &matcher) {
        ExpandOutput::NoMatch => {}
        other => panic!("Expected NoMatch, got {:?}", other),
    }
}

#[test]
fn test_expand_with_rbuffer() {
    let matcher = build_test_matcher();
    let input = ExpandInput {
        lbuffer: "g".to_string(),
        rbuffer: " --help".to_string(),
    };
    match expand(&input, &matcher) {
        ExpandOutput::Success { buffer, cursor } => {
            assert_eq!(buffer, "git --help");
            assert_eq!(cursor, 3);
        }
        other => panic!("Expected Success, got {:?}", other),
    }
}
