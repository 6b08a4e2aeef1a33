use brv::context::{find_contextual_match, matches_context};
use brv::matcher::{self, AbbrScope, Abbreviation, AbbreviationContext, CompiledAbbr};

fn make_contextual(
    keyword: &str,
    expansion: &str,
    lbuffer: Option<&str>,
    rbuffer: Option<&str>,
) -> CompiledAbbr {
    CompiledAbbr {
        keyword: keyword.to_string(),
        expansion: expansion.to_string(),
        scope: AbbrScope::Contextual {
            lbuffer: lbuffer.map(|s| s.to_string()),
            rbuffer: rbuffer.map(|s| s.to_string()),
        },
        ..Default::default()
    }
}

fn contextual_abbreviation(keyword: &str, expansion: &str, lbuffer: Option<&str>) -> Abbreviation {
    Abbreviation {
        keyword: keyword.to_string(),
        expansion: expansion.to_string(),
        global: false,
        evaluate: false,
        allow_conflict: false,
        context: Some(AbbreviationContext {
            lbuffer: lbuffer.map(|s| s.to_string()),
            rbuffer: None,
        }),
    }
}

#[test]
fn test_matches_lbuffer_pattern() {
    let abbr = make_contextual("main", "main --branch", Some("^git (checkout|switch)"), None);
    assert!(matches_context(&abbr, "git checkout ", ""));
    assert!(matches_context(&abbr, "git switch ", ""));
    assert!(!matches_context(&abbr, "git commit ", ""));
    assert!(!matches_context(&abbr, "", ""));
}

#[test]
fn test_matches_rbuffer_pattern() {
    let abbr = make_contextual("--force", "--force-with-lease", None, Some("$"));
    assert!(matches_context(&abbr, "git push ", ""));
    assert!(matches_context(&abbr, "", ""));
}

#[test]
fn test_matches_both_patterns() {
    let abbr = make_contextual(
        "main",
        "main --branch",
        Some("^git checkout"),
        Some("$"),
    );
    assert!(matches_context(&abbr, "git checkout ", ""));
    assert!(!matches_context(&abbr, "echo ", ""));
}

#[test]
fn test_no_context_always_matches() {
    let abbr = CompiledAbbr {
        keyword: "g".to_string(),
        expansion: "git".to_string(),
        ..Default::default()
    };
    assert!(matches_context(&abbr, "anything", "anything"));
}

#[test]
fn test_find_contextual_match() {
    let contextual = matcher::build(&[
        contextual_abbreviation("main", "main --branch", Some("^git (checkout|switch)")),
        contextual_abbreviation("main", "int main()", Some("^#include")),
    ]);

    let result = find_contextual_match(&contextual, "main", "git checkout ", "");
    assert!(result.is_some());
    assert_eq!(result.unwrap().expansion, "main --branch");

    let result = find_contextual_match(&contextual, "main", "#include <stdio.h>\n", "");
    assert!(result.is_some());
    assert_eq!(result.unwrap().expansion, "int main()");

    let result = find_contextual_match(&contextual, "main", "echo ", "");
    assert!(result.is_none());

    let result = find_contextual_match(&contextual, "other", "git checkout ", "");
    assert!(result.is_none());
}

#[test]
fn invalid_context_pattern_never_matches() {
    let abbr = make_contextual("x", "y", Some("(unclosed"), None);
    assert!(!matches_context(&abbr, "(unclosed", ""));
    let abbr = make_contextual("x", "y", None, Some("[z-a]"));
    assert!(!matches_context(&abbr, "", "anything"));
}

#[test]
fn both_patterns_must_match() {
    let abbr = make_contextual("x", "y", Some("^a"), Some("^b"));
    assert!(matches_context(&abbr, "a", "b"));
    assert!(!matches_context(&abbr, "a", "c"));
    assert!(!matches_context(&abbr, "c", "b"));
}

#[test]
fn global_scope_ignores_buffers() {
    let abbr = CompiledAbbr {
        keyword: "NE".to_string(),
        expansion: "2>/dev/null".to_string(),
        scope: AbbrScope::Global,
        evaluate: false,
    };
    assert!(matches_context(&abbr, "whatever", "text"));
}

#[test]
fn first_declared_context_wins() {
    let m = matcher::build(&[
        contextual_abbreviation("k", "first", Some("^git")),
        contextual_abbreviation("k", "second", Some("^git")),
    ]);
    let hit = find_contextual_match(&m, "k", "git ", "").unwrap();
    assert_eq!(hit.expansion, "first");
}

#[test]
fn context_without_patterns_always_applies() {
    let m = matcher::build(&[contextual_abbreviation("k", "always", None)]);
    let hit = find_contextual_match(&m, "k", "anything at all ", "right").unwrap();
    assert_eq!(hit.expansion, "always");
}
