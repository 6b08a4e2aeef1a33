use brv::serve::{
    freshness_step, handle_expand, handle_ping, handle_placeholder, handle_remind, parse_request,
    placeholder_answer, write_empty_eor, write_response, FreshnessAction, FreshnessEvent, Request,
    RequestError,
};
use brv::output::PlaceholderOutput;

#[test]
fn test_parse_expand() {
    let req = parse_request("expand\tgit co\t--help").unwrap();
    assert_eq!(
        req,
        Request::Expand {
            lbuffer: "git co".to_string(),
            rbuffer: "--help".to_string(),
        }
    );
}

#[test]
fn test_parse_expand_empty_rbuffer() {
    let req = parse_request("expand\tg\t").unwrap();
    assert_eq!(
        req,
        Request::Expand {
            lbuffer: "g".to_string(),
            rbuffer: "".to_string(),
        }
    );
}

#[test]
fn test_parse_placeholder() {
    let req = parse_request("placeholder\tgit commit -m '\t' --author=''").unwrap();
    assert_eq!(
        req,
        Request::Placeholder {
            lbuffer: "git commit -m '".to_string(),
            rbuffer: "' --author=''".to_string(),
        }
    );
}

#[test]
fn test_parse_remind() {
    let req = parse_request("remind\tgit commit -m 'hello'").unwrap();
    assert_eq!(
        req,
        Request::Remind {
            buffer: "git commit -m 'hello'".to_string(),
        }
    );
}

#[test]
fn test_parse_reload() {
    let req = parse_request("reload").unwrap();
    assert_eq!(req, Request::Reload);
}

#[test]
fn test_parse_ping() {
    let req = parse_request("ping").unwrap();
    assert_eq!(req, Request::Ping);
}

#[test]
fn test_parse_unknown_command() {
    let result = parse_request("unknown_cmd");
    assert!(result.is_err());
    assert!(result.unwrap_err().to_string().contains("unknown command"));
}

#[test]
fn test_parse_expand_missing_rbuffer() {
    let result = parse_request("expand\tg");
    assert!(result.is_err());
    assert!(result.unwrap_err().to_string().contains("missing rbuffer"));
}

#[test]
fn test_parse_expand_missing_lbuffer() {
    let result = parse_request("expand");
    assert!(result.is_err());
    assert!(result.unwrap_err().to_string().contains("missing lbuffer"));
}

#[test]
fn test_parse_remind_missing_buffer() {
    let result = parse_request("remind");
    assert!(result.is_err());
    assert!(result.unwrap_err().to_string().contains("missing buffer"));
}

#[test]
fn test_write_response() {
    let mut buf = Vec::new();
    write_response(&mut buf, "pong");
    assert_eq!(String::from_utf8(buf).unwrap(), "pong\n\x1e\n");
}

#[test]
fn test_write_multiline_response() {
    let mut buf = Vec::new();
    write_response(&mut buf, "success\ngit commit\n10");
    assert_eq!(
        String::from_utf8(buf).unwrap(),
        "success\ngit commit\n10\n\x1e\n"
    );
}

#[test]
fn test_write_empty_eor() {
    let mut buf = Vec::new();
    write_empty_eor(&mut buf);
    assert_eq!(String::from_utf8(buf).unwrap(), "\x1e\n");
}

#[test]
fn test_handle_ping() {
    let mut buf = Vec::new();
    handle_ping(&mut buf);
    assert_eq!(String::from_utf8(buf).unwrap(), "pong\n\x1e\n");
}

#[test]
fn test_handle_placeholder_found() {
    let mut buf = Vec::new();
    handle_placeholder("git commit -m '", "' --author='{{author}}'", &mut buf);
    let output = String::from_utf8(buf).unwrap();
    assert!(output.starts_with("success\n"));
    assert!(output.contains("git commit -m '' --author=''"));
    assert!(output.ends_with("\x1e\n"));
}

#[test]
fn test_handle_placeholder_not_found() {
    let mut buf = Vec::new();
    handle_placeholder("no placeholder", "", &mut buf);
    let output = String::from_utf8(buf).unwrap();
    assert!(output.starts_with("no_placeholder"));
    assert!(output.ends_with("\x1e\n"));
}

#[test]
fn expand_request_roundtrip_keeps_tabs_on_the_right() {
    let line = format!("expand\t{}\t{}", "git co", "a\tb");
    assert_eq!(
        parse_request(&line).unwrap(),
        Request::Expand {
            lbuffer: "git co".to_string(),
            rbuffer: "a\tb".to_string(),
        }
    );
}

#[test]
fn remind_ignores_a_third_field_and_ping_ignores_fields() {
    assert_eq!(
        parse_request("remind\tgit push\textra").unwrap(),
        Request::Remind {
            buffer: "git push".to_string()
        }
    );
    assert_eq!(parse_request("ping\tx").unwrap(), Request::Ping);
    assert_eq!(
        parse_request("placeholder\tx").unwrap_err(),
        RequestError::MissingRbuffer
    );
    assert_eq!(
        parse_request("").unwrap_err().to_string(),
        "unknown command: "
    );
    assert_eq!(
        parse_request("expandx\ta\tb").unwrap_err().to_string(),
        "unknown command: expandx"
    );
}

#[test]
fn placeholder_after_cursor_only() {
    // The placeholder before the cursor is not the next one.
    match placeholder_answer("{{a}} x ", "y {{b}} z") {
        PlaceholderOutput::Success { buffer, cursor } => {
            assert_eq!(buffer, "{{a}} x y  z");
            assert_eq!(cursor, 10);
        }
        other => panic!("unexpected {:?}", other),
    }
    match placeholder_answer("{{a}} x ", "y") {
        PlaceholderOutput::NoPlaceholder => {}
        other => panic!("unexpected {:?}", other),
    }
}

#[test]
fn placeholder_cursor_counts_bytes() {
    match placeholder_answer("é", "{{x}}") {
        PlaceholderOutput::Success { buffer, cursor } => {
            assert_eq!(buffer, "é");
            assert_eq!(cursor, 2);
        }
        other => panic!("unexpected {:?}", other),
    }
}

#[test]
fn test_handle_expand_no_cache() {
    let mut buf = Vec::new();
    handle_expand(None, "g", "", &mut buf);
    let output = String::from_utf8(buf).unwrap();
    assert!(output.starts_with("stale_cache"));
    assert!(output.ends_with("\x1e\n"));
}

#[test]
fn test_handle_remind_no_cache() {
    let mut buf = Vec::new();
    handle_remind(None, &mut buf);
    let output = String::from_utf8(buf).unwrap();
    assert_eq!(output, "\x1e\n");
}

#[test]
fn remind_reports_the_abbreviation() {
    let mut buf = Vec::new();
    handle_remind(Some(("gc", "git commit")), &mut buf);
    assert_eq!(
        String::from_utf8(buf).unwrap(),
        "kort: you could have used \"gc\" instead of \"git commit\"\n\x1e\n"
    );
}

fn is_current(a: &FreshnessAction, record: bool, take: bool) -> bool {
    matches!(a, FreshnessAction::Current { record_mtime, take_reread }
        if *record_mtime == record && *take_reread == take)
}

#[test]
fn freshness_unchanged_mtime_is_current() {
    let a = freshness_step(FreshnessEvent::MtimeCompared { unchanged: true, loaded: true });
    assert!(is_current(&a, false, false));
}

#[test]
fn freshness_changed_mtime_compares_then_rereads() {
    let a = freshness_step(FreshnessEvent::MtimeCompared { unchanged: false, loaded: true });
    assert!(matches!(a, FreshnessAction::CompareLoaded));
    let a = freshness_step(FreshnessEvent::MtimeCompared { unchanged: false, loaded: false });
    assert!(matches!(a, FreshnessAction::Reread));
    let a = freshness_step(FreshnessEvent::LoadedCompared { same: true });
    assert!(is_current(&a, true, false));
    let a = freshness_step(FreshnessEvent::LoadedCompared { same: false });
    assert!(matches!(a, FreshnessAction::Reread));
    let a = freshness_step(FreshnessEvent::Reread { fresh: true });
    assert!(is_current(&a, true, true));
    let a = freshness_step(FreshnessEvent::Reread { fresh: false });
    assert!(matches!(a, FreshnessAction::Stale));
}
