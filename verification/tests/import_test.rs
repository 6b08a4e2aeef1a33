use brv::import::{
    export, fish_import_ok, import_aliases, import_fish, import_git_aliases, parse_fish_abbr,
    parse_zsh_alias, strip_quotes, zsh_import_ok, ImportResult, ImportStep,
};
use brv::matcher::{Abbreviation, AbbreviationContext};

/// Tallies the steps as the application does when every append succeeds.
fn tally(steps: &[ImportStep]) -> ImportResult {
    let mut result = ImportResult::default();
    for step in steps {
        match step {
            ImportStep::Add { .. } => result.record_added(),
            ImportStep::Skip { line, reason } => result.record_skipped(line, reason),
        }
    }
    result
}

fn added(steps: &[ImportStep]) -> Vec<&brv::import::AddParams> {
    steps
        .iter()
        .filter_map(|s| match s {
            ImportStep::Add { params, .. } => Some(params),
            ImportStep::Skip { .. } => None,
        })
        .collect()
}

#[test]
fn test_parse_zsh_alias_simple() {
    let (name, value) = parse_zsh_alias("g='git'").unwrap();
    assert_eq!(name, "g");
    assert_eq!(value, "git");
}

#[test]
fn test_parse_zsh_alias_double_quotes() {
    let (name, value) = parse_zsh_alias("gc=\"git commit\"").unwrap();
    assert_eq!(name, "gc");
    assert_eq!(value, "git commit");
}

#[test]
fn test_parse_zsh_alias_with_alias_prefix() {
    let (name, value) = parse_zsh_alias("alias g='git'").unwrap();
    assert_eq!(name, "g");
    assert_eq!(value, "git");
}

#[test]
fn test_parse_zsh_alias_no_quotes() {
    let (name, value) = parse_zsh_alias("g=git").unwrap();
    assert_eq!(name, "g");
    assert_eq!(value, "git");
}

#[test]
fn test_import_aliases() {
    let alias_output = "g='git'\ngc='git commit'\n";
    let steps = import_aliases(alias_output);
    let result = tally(&steps);
    assert_eq!(result.imported, 2);
    assert!(result.skipped.is_empty());

    assert_eq!(added(&steps).len(), 2);
}

#[test]
fn test_import_aliases_skips_invalid() {
    let alias_output = "g='git'\n# comment\n=empty\n";
    let steps = import_aliases(alias_output);
    let result = tally(&steps);
    assert_eq!(result.imported, 1);
    assert_eq!(result.skipped.len(), 1);
}

#[test]
fn test_parse_fish_abbr_simple() {
    let (name, value, global) = parse_fish_abbr("abbr -a g git").unwrap();
    assert_eq!(name, "g");
    assert_eq!(value, "git");
    assert!(!global);
}

#[test]
fn test_parse_fish_abbr_with_dashdash() {
    let (name, value, _) = parse_fish_abbr("abbr -a -- gc 'git commit'").unwrap();
    assert_eq!(name, "gc");
    assert_eq!(value, "git commit");
}

#[test]
fn test_parse_fish_abbr_global() {
    let (_, _, global) = parse_fish_abbr("abbr -a -g NE '2>/dev/null'").unwrap();
    assert!(global);
}

#[test]
fn test_import_fish() {
    let fish_content = "abbr -a g git\nabbr -a gc 'git commit'\n";
    let steps = import_fish(fish_content);
    let result = tally(&steps);
    assert_eq!(result.imported, 2);

    assert_eq!(added(&steps).len(), 2);
}

#[test]
fn test_import_git_aliases() {
    let git_output = "alias.co checkout\nalias.ci commit\nalias.st status\n";
    let steps = import_git_aliases(git_output);
    let result = tally(&steps);
    assert_eq!(result.imported, 3);

    let params = added(&steps);
    assert_eq!(params.len(), 3);
    assert_eq!(params[0].expansion, "git checkout");
}

#[test]
fn test_import_git_aliases_shell_command() {
    let git_output = "alias.lg !git log --oneline\n";
    let steps = import_git_aliases(git_output);
    let result = tally(&steps);
    assert_eq!(result.imported, 1);

    let params = added(&steps);
    assert!(params[0].evaluate);
    assert_eq!(params[0].expansion, "git git log --oneline");
}

#[test]
fn test_export() {
    let abbrs = vec![
        Abbreviation {
            keyword: "g".to_string(),
            expansion: "git".to_string(),
            global: false,
            evaluate: false,
            allow_conflict: false,
            context: None,
        },
        Abbreviation {
            keyword: "NE".to_string(),
            expansion: "2>/dev/null".to_string(),
            global: true,
            evaluate: false,
            allow_conflict: false,
            context: None,
        },
    ];

    let lines = export(&abbrs);
    assert_eq!(lines.len(), 2);
    assert!(lines[0].starts_with("kort add "));
    assert!(lines[1].contains("--global"));
}

#[test]
fn test_strip_quotes() {
    assert_eq!(strip_quotes("'hello'"), "hello");
    assert_eq!(strip_quotes("\"hello\""), "hello");
    assert_eq!(strip_quotes("hello"), "hello");
}

#[test]
fn zsh_skip_messages_name_the_reason() {
    let steps = import_aliases("  g='git'  \n\nbad line\nx y=z\n");
    let result = tally(&steps);
    assert_eq!(result.imported, 1);
    assert_eq!(
        result.skipped,
        vec![
            "bad line (unrecognized format)".to_string(),
            "x y=z (invalid format)".to_string()
        ]
    );
}

#[test]
fn one_step_per_content_line() {
    let text = "a=b\n# c\n\n  \nd=e\r\nf\n";
    let steps = import_aliases(text);
    assert_eq!(steps.len(), 3);
    match &steps[1] {
        ImportStep::Add { line, params } => {
            assert_eq!(line, "d=e");
            assert_eq!(params.keyword, "d");
            assert_eq!(params.expansion, "e");
        }
        ImportStep::Skip { .. } => panic!("expected an abbreviation"),
    }
}

#[test]
fn zsh_value_keeps_unpaired_quotes() {
    let (name, value) = parse_zsh_alias("l = 'ls -la\"").unwrap();
    assert_eq!(name, "l");
    assert_eq!(value, "'ls -la\"");
    let (_, value) = parse_zsh_alias("e=a=b").unwrap();
    assert_eq!(value, "a=b");
    assert!(parse_zsh_alias("no equals sign").is_none());
}

#[test]
fn lone_quote_inputs_are_detected() {
    assert!(!zsh_import_ok("g='\n"));
    assert!(zsh_import_ok("g='git'\n# x='\n"));
    assert!(!fish_import_ok("abbr -a q '\n"));
    assert!(fish_import_ok("abbr -a q ''\n"));
}

#[test]
fn fish_flags_are_skipped() {
    let (name, value, global) =
        parse_fish_abbr("abbr --add --position anywhere -U gco git checkout").unwrap();
    assert_eq!(name, "gco");
    assert_eq!(value, "git checkout");
    assert!(!global);
    assert!(parse_fish_abbr("abbr -a g").is_none());
    assert!(parse_fish_abbr("alias g git").is_none());
    assert!(parse_fish_abbr("abbr -a --set-cursor").is_none());
    let steps = import_fish("abbr -a g git\nfunction f\n");
    let result = tally(&steps);
    assert_eq!(result.imported, 1);
    assert_eq!(result.skipped, vec!["function f (unsupported fish format)".to_string()]);
}

#[test]
fn git_alias_reasons() {
    let steps = import_git_aliases("alias.co checkout\nuser.name me\nalias.x\n\nalias.lg   !  git log \n");
    let result = tally(&steps);
    assert_eq!(result.imported, 2);
    assert_eq!(
        result.skipped,
        vec![
            "user.name me (not an alias)".to_string(),
            "alias.x (no value)".to_string()
        ]
    );
    let params = added(&steps);
    assert_eq!(params[1].keyword, "lg");
    assert_eq!(params[1].expansion, "git git log");
    assert!(params[1].evaluate);
    assert!(!params[0].evaluate);
}

#[test]
fn export_quotes_for_the_shell() {
    let abbrs = vec![Abbreviation {
        keyword: "main".to_string(),
        expansion: "it's".to_string(),
        global: false,
        evaluate: true,
        allow_conflict: false,
        context: Some(AbbreviationContext {
            lbuffer: Some("^git ".to_string()),
            rbuffer: None,
        }),
    }];
    let lines = export(&abbrs);
    assert_eq!(
        lines[0],
        "kort add 'main' 'it'\\''s' --evaluate --context-lbuffer '^git '"
    );
}

#[test]
fn record_skipped_formats_message() {
    let mut r = ImportResult::new();
    r.record_skipped("x", "write failed");
    r.record_added();
    assert_eq!(r.imported, 1);
    assert_eq!(r.skipped, vec!["x (write failed)".to_string()]);
}

#[test]
fn fish_empty_expansion_is_invalid() {
    let steps = import_fish("abbr -a g ''\n");
    let result = tally(&steps);
    assert_eq!(result.imported, 0);
    assert_eq!(result.skipped, vec!["abbr -a g '' (invalid format)".to_string()]);
}

#[test]
fn git_alias_with_empty_name() {
    let steps = import_git_aliases("alias. x\n");
    let result = tally(&steps);
    assert_eq!(result.skipped, vec!["alias. x (empty name or value)".to_string()]);
}
