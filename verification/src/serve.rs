//! The request/response protocol of the expansion server.
//!
//! A request is one line of tab-separated fields; a response is the answer's
//! lines followed by a record separator line. Reading requests and writing the
//! bytes out, and the state kept between requests, are the caller's part.

use crate::expand::{expand, expand_outcome, ExpandInput};
use crate::matcher::Matcher;
use crate::output::{render_expand, render_placeholder, PlaceholderOutcome, PlaceholderOutput};
use crate::placeholder::{cut, find_next_placeholder, next_placeholder};
use crate::text::{
    chars_of, concat2, find_char, find_char_at, is_first_index, push_str, push_utf8, string_of,
    to_owned_string, utf8_len,
};
use vstd::prelude::*;
use vstd::utf8::encode_utf8;

verus! {

/// A request to the server.
#[derive(Debug, PartialEq)]
pub enum Request {
    Expand { lbuffer: String, rbuffer: String },
    Placeholder { lbuffer: String, rbuffer: String },
    Remind { buffer: String },
    Reload,
    Ping,
}

/// The mathematical content of a [`Request`].
pub enum RequestSpec {
    Expand { lbuffer: Seq<char>, rbuffer: Seq<char> },
    Placeholder { lbuffer: Seq<char>, rbuffer: Seq<char> },
    Remind { buffer: Seq<char> },
    Reload,
    Ping,
}

impl View for Request {
    type V = RequestSpec;

    open spec fn view(&self) -> RequestSpec {
        match self {
            Request::Expand { lbuffer, rbuffer } => RequestSpec::Expand {
                lbuffer: lbuffer@,
                rbuffer: rbuffer@,
            },
            Request::Placeholder { lbuffer, rbuffer } => RequestSpec::Placeholder {
                lbuffer: lbuffer@,
                rbuffer: rbuffer@,
            },
            Request::Remind { buffer } => RequestSpec::Remind { buffer: buffer@ },
            Request::Reload => RequestSpec::Reload,
            Request::Ping => RequestSpec::Ping,
        }
    }
}

/// Why a request line was refused.
#[derive(Debug, PartialEq)]
pub enum RequestError {
    MissingLbuffer,
    MissingRbuffer,
    MissingBuffer,
    UnknownCommand(String),
}

/// The mathematical content of a [`RequestError`].
pub enum RequestErrorSpec {
    MissingLbuffer,
    MissingRbuffer,
    MissingBuffer,
    UnknownCommand(Seq<char>),
}

impl View for RequestError {
    type V = RequestErrorSpec;

    open spec fn view(&self) -> RequestErrorSpec {
        match self {
            RequestError::MissingLbuffer => RequestErrorSpec::MissingLbuffer,
            RequestError::MissingRbuffer => RequestErrorSpec::MissingRbuffer,
            RequestError::MissingBuffer => RequestErrorSpec::MissingBuffer,
            RequestError::UnknownCommand(c) => RequestErrorSpec::UnknownCommand(c@),
        }
    }
}

/// The message that reports a refused request.
pub open spec fn error_message(e: RequestErrorSpec) -> Seq<char> {
    match e {
        RequestErrorSpec::MissingLbuffer => "missing lbuffer"@,
        RequestErrorSpec::MissingRbuffer => "missing rbuffer"@,
        RequestErrorSpec::MissingBuffer => "missing buffer"@,
        RequestErrorSpec::UnknownCommand(c) => "unknown command: "@ + c,
    }
}

impl RequestError {
    /// The message that reports this error.
    pub fn to_string(&self) -> (r: String)
        ensures
            r@ == error_message(self@),
    {
        let mut r = String::new();
        match self {
            RequestError::MissingLbuffer => push_str(&mut r, "missing lbuffer"),
            RequestError::MissingRbuffer => push_str(&mut r, "missing rbuffer"),
            RequestError::MissingBuffer => push_str(&mut r, "missing buffer"),
            RequestError::UnknownCommand(c) => {
                push_str(&mut r, "unknown command: ");
                push_str(&mut r, c.as_str());
            },
        }
        r
    }
}

/// The first three tab-separated fields of `s` (`str::splitn(3, '\t')`): the
/// text before the first tab, the text between the first and second tab (or
/// after the first tab when there is no second), and everything after the
/// second tab.
pub open spec fn split_fields(s: Seq<char>) -> (Seq<char>, Option<Seq<char>>, Option<Seq<char>>) {
    match find_char(s, '\t') {
        None => (s, None, None),
        Some(i) => {
            let rest = s.skip(i + 1);
            match find_char(rest, '\t') {
                None => (s.take(i), Some(rest), None),
                Some(j) => (s.take(i), Some(rest.take(j)), Some(rest.skip(j + 1))),
            }
        },
    }
}

/// The request a line describes: the first field names the command;
/// `expand` and `placeholder` take the text left and right of the cursor,
/// `remind` takes the buffer, `reload` and `ping` take nothing.
pub open spec fn request_spec(line: Seq<char>) -> Result<RequestSpec, RequestErrorSpec> {
    let (command, second, third) = split_fields(line);
    if command == "expand"@ || command == "placeholder"@ {
        match second {
            None => Err(RequestErrorSpec::MissingLbuffer),
            Some(l) => match third {
                None => Err(RequestErrorSpec::MissingRbuffer),
                Some(r) => if command == "expand"@ {
                    Ok(RequestSpec::Expand { lbuffer: l, rbuffer: r })
                } else {
                    Ok(RequestSpec::Placeholder { lbuffer: l, rbuffer: r })
                },
            },
        }
    } else if command == "remind"@ {
        match second {
            None => Err(RequestErrorSpec::MissingBuffer),
            Some(b) => Ok(RequestSpec::Remind { buffer: b }),
        }
    } else if command == "reload"@ {
        Ok(RequestSpec::Reload)
    } else if command == "ping"@ {
        Ok(RequestSpec::Ping)
    } else {
        Err(RequestErrorSpec::UnknownCommand(command))
    }
}

/// The bounds of the three fields of `v`.
fn field_bounds(v: &[char]) -> (r: (usize, Option<(usize, usize)>, Option<usize>))
    ensures
        r.0 <= v@.len(),
        v@.subrange(0, r.0 as int) == split_fields(v@).0,
        match r.1 {
            Some((a, b)) => a <= b <= v@.len() && split_fields(v@).1 == Some(
                v@.subrange(a as int, b as int),
            ),
            None => split_fields(v@).1 is None,
        },
        match r.2 {
            Some(c) => c <= v@.len() && split_fields(v@).2 == Some(
                v@.subrange(c as int, v@.len() as int),
            ),
            None => split_fields(v@).2 is None,
        },
{
    let n = v.len();
    let ghost s = v@;
    assert(s.subrange(0, n as int) == s);
    match find_char_at(v, 0, n, '\t') {
        None => (n, None, None),
        Some(i) => {
            proof {
                let q = choose|k: int| is_first_index(s, '\t', k);
                assert(is_first_index(s, '\t', q));
            }
            let ghost rest = s.skip(i + 1);
            assert(rest == s.subrange(i + 1, n as int));
            assert(s.take(i as int) == s.subrange(0, i as int));
            match find_char_at(v, i + 1, n, '\t') {
                None => (i, Some((i + 1, n)), None),
                Some(j) => {
                    proof {
                        let q = choose|k: int| is_first_index(rest, '\t', k);
                        assert(is_first_index(rest, '\t', q));
                    }
                    assert(rest.take(j - i - 1) == s.subrange(i + 1, j as int));
                    assert(rest.skip(j - i) == s.subrange(j + 1, n as int));
                    (i, Some((i + 1, j)), Some(j + 1))
                },
            }
        },
    }
}

/// Parses one request line.
pub fn parse_request(line: &str) -> (r: Result<Request, RequestError>)
    ensures
        match r {
            Ok(req) => request_spec(line@) == Ok::<RequestSpec, RequestErrorSpec>(req@),
            Err(e) => request_spec(line@) == Err::<RequestSpec, RequestErrorSpec>(e@),
        },
{
    let v = chars_of(line);
    let n = v.len();
    let (c, second, third) = field_bounds(v.as_slice());
    let vs = v.as_slice();
    let is_expand = crate::text::equals_at(vs, 0, c, "expand");
    let is_placeholder = crate::text::equals_at(vs, 0, c, "placeholder");
    if is_expand || is_placeholder {
        match second {
            None => Err(RequestError::MissingLbuffer),
            Some((a, b)) => match third {
                None => Err(RequestError::MissingRbuffer),
                Some(d) => {
                    let lbuffer = string_of(vs, a, b);
                    let rbuffer = string_of(vs, d, n);
                    if is_expand {
                        Ok(Request::Expand { lbuffer, rbuffer })
                    } else {
                        Ok(Request::Placeholder { lbuffer, rbuffer })
                    }
                },
            },
        }
    } else if crate::text::equals_at(vs, 0, c, "remind") {
        match second {
            None => Err(RequestError::MissingBuffer),
            Some((a, b)) => Ok(Request::Remind { buffer: string_of(vs, a, b) }),
        }
    } else if crate::text::equals_at(vs, 0, c, "reload") {
        Ok(Request::Reload)
    } else if crate::text::equals_at(vs, 0, c, "ping") {
        Ok(Request::Ping)
    } else {
        Err(RequestError::UnknownCommand(string_of(vs, 0, c)))
    }
}

/// A response on the wire: the text, a line feed, the record separator
/// `\x1e` and a line feed.
pub open spec fn response_text(response: Seq<char>) -> Seq<char> {
    response + "\n"@ + "\u{1e}"@ + "\n"@
}

/// The record separator line that ends an empty response.
pub open spec fn empty_response_text() -> Seq<char> {
    "\u{1e}"@ + "\n"@
}

/// The wire form of a response.
pub fn format_response(response: &str) -> (r: String)
    ensures
        r@ == response_text(response@),
{
    let mut r = String::new();
    push_str(&mut r, response);
    push_str(&mut r, "\n");
    push_str(&mut r, "\u{1e}");
    push_str(&mut r, "\n");
    r
}

/// Appends a response, in UTF-8, to `out`.
pub fn write_response(out: &mut Vec<u8>, response: &str)
    ensures
        final(out)@ == old(out)@ + encode_utf8(response_text(response@)),
{
    let r = format_response(response);
    push_utf8(out, r.as_str());
}

/// Appends the end of an empty response to `out`.
pub fn write_empty_eor(out: &mut Vec<u8>)
    ensures
        final(out)@ == old(out)@ + encode_utf8(empty_response_text()),
{
    let mut r = String::new();
    push_str(&mut r, "\u{1e}");
    push_str(&mut r, "\n");
    push_utf8(out, r.as_str());
}

/// Answers a `ping`.
pub fn handle_ping(out: &mut Vec<u8>)
    ensures
        final(out)@ == old(out)@ + encode_utf8(response_text("pong"@)),
{
    write_response(out, "pong");
}

/// The answer to a `placeholder` request: the first placeholder at or after
/// the cursor is removed and the cursor goes where it stood.
pub open spec fn placeholder_outcome(lbuffer: Seq<char>, rbuffer: Seq<char>) -> PlaceholderOutcome {
    let full = lbuffer + rbuffer;
    match next_placeholder(full, lbuffer.len() as int) {
        Some((s, e)) => PlaceholderOutcome::Success {
            buffer: cut(full, s, e),
            cursor: utf8_len(full.take(s)),
        },
        None => PlaceholderOutcome::NoPlaceholder,
    }
}

/// Computes the answer to a `placeholder` request.
pub fn placeholder_answer(lbuffer: &str, rbuffer: &str) -> (o: PlaceholderOutput)
    ensures
        o@ == placeholder_outcome(lbuffer@, rbuffer@),
{
    let full = concat2(lbuffer, rbuffer);
    let cursor = lbuffer.unicode_len();
    match find_next_placeholder(full.as_str(), cursor) {
        Some((start, end)) => {
            let v = chars_of(full.as_str());
            let head = string_of(v.as_slice(), 0, start);
            let c = crate::text::byte_len(&head);
            let mut buffer = head;
            crate::text::push_chars(&mut buffer, v.as_slice(), end, v.len());
            assert(v@.subrange(0, start as int) == full@.take(start as int));
            assert(v@.subrange(end as int, v@.len() as int) == full@.skip(end as int));
            PlaceholderOutput::Success { buffer, cursor: c }
        },
        None => PlaceholderOutput::NoPlaceholder,
    }
}

/// Answers a `placeholder` request.
pub fn handle_placeholder(lbuffer: &str, rbuffer: &str, out: &mut Vec<u8>)
    ensures
        final(out)@ == old(out)@ + encode_utf8(
            response_text(render_placeholder(placeholder_outcome(lbuffer@, rbuffer@))),
        ),
{
    let o = placeholder_answer(lbuffer, rbuffer);
    let text = o.to_string();
    write_response(out, text.as_str());
}

/// A request line built from a command, the text left of the cursor and the
/// text right of it, separated by tabs.
pub open spec fn request_line(command: Seq<char>, lbuffer: Seq<char>, rbuffer: Seq<char>) -> Seq<
    char,
> {
    command + "\t"@ + lbuffer + "\t"@ + rbuffer
}

/// The fields of a line made of a tab-free head, a tab-free middle and any
/// tail, joined by tabs, are those three parts.
pub proof fn lemma_split_fields_of_line(head: Seq<char>, mid: Seq<char>, tail: Seq<char>)
    requires
        !head.contains('\t'),
        !mid.contains('\t'),
    ensures
        split_fields(request_line(head, mid, tail)) == (head, Some(mid), Some(tail)),
{
    reveal_strlit("\t");
    let line = request_line(head, mid, tail);
    assert(line =~= head + seq!['\t'] + mid + seq!['\t'] + tail);
    assert(is_first_index(line, '\t', head.len() as int)) by {
        assert forall|j: int| 0 <= j < head.len() implies #[trigger] line[j] != '\t' by {
            assert(line[j] == head[j]);
        }
    }
    crate::text::lemma_find_char_is_first(line, '\t', head.len() as int);
    let rest = line.skip(head.len() as int + 1);
    assert(rest =~= mid + seq!['\t'] + tail);
    assert(is_first_index(rest, '\t', mid.len() as int)) by {
        assert forall|j: int| 0 <= j < mid.len() implies #[trigger] rest[j] != '\t' by {
            assert(rest[j] == mid[j]);
        }
    }
    crate::text::lemma_find_char_is_first(rest, '\t', mid.len() as int);
    assert(line.take(head.len() as int) =~= head);
    assert(rest.take(mid.len() as int) =~= mid);
    assert(rest.skip(mid.len() as int + 1) =~= tail);
}

/// The server reads back what the shell sends: an `expand` line with a
/// tab-free left text is the request to expand exactly that left text and that
/// right text (which may contain tabs).
pub proof fn lemma_expand_request_roundtrip(lbuffer: Seq<char>, rbuffer: Seq<char>)
    requires
        !lbuffer.contains('\t'),
    ensures
        request_spec(request_line("expand"@, lbuffer, rbuffer)) == Ok::<
            RequestSpec,
            RequestErrorSpec,
        >(RequestSpec::Expand { lbuffer, rbuffer }),
{
    reveal_strlit("expand");
    assert(!"expand"@.contains('\t')) by {
        assert forall|j: int| 0 <= j < "expand"@.len() implies "expand"@[j] != '\t' by {}
    }
    lemma_split_fields_of_line("expand"@, lbuffer, rbuffer);
}

/// Likewise for a `placeholder` line.
pub proof fn lemma_placeholder_request_roundtrip(lbuffer: Seq<char>, rbuffer: Seq<char>)
    requires
        !lbuffer.contains('\t'),
    ensures
        request_spec(request_line("placeholder"@, lbuffer, rbuffer)) == Ok::<
            RequestSpec,
            RequestErrorSpec,
        >(RequestSpec::Placeholder { lbuffer, rbuffer }),
{
    reveal_strlit("placeholder");
    reveal_strlit("expand");
    assert(!"placeholder"@.contains('\t')) by {
        assert forall|j: int| 0 <= j < "placeholder"@.len() implies "placeholder"@[j] != '\t' by {}
    }
    lemma_split_fields_of_line("placeholder"@, lbuffer, rbuffer);
    assert("placeholder"@ != "expand"@) by {
        assert("placeholder"@.len() != "expand"@.len());
    }
}

/// Answers an `expand` request. Without a fresh matcher (none was loaded, or
/// the configuration changed and could not be reloaded) the answer is
/// `stale_cache`; otherwise it is the expansion of the keyword left of the
/// cursor.
pub fn handle_expand(matcher: Option<&Matcher>, lbuffer: &str, rbuffer: &str, out: &mut Vec<u8>)
    ensures
        matcher is None ==> final(out)@ == old(out)@ + encode_utf8(response_text("stale_cache"@)),
        matcher matches Some(m) ==> final(out)@ == old(out)@ + encode_utf8(
            response_text(render_expand(expand_outcome(*m, lbuffer@, rbuffer@))),
        ),
{
    match matcher {
        None => write_response(out, "stale_cache"),
        Some(m) => {
            let input = ExpandInput {
                lbuffer: to_owned_string(lbuffer),
                rbuffer: to_owned_string(rbuffer),
            };
            let o = expand(&input, m);
            let text = o.to_string();
            write_response(out, text.as_str());
        },
    }
}

/// The reminder that an abbreviation could have been typed in place of its
/// expansion.
pub open spec fn reminder_text(keyword: Seq<char>, expansion: Seq<char>) -> Seq<char> {
    "kort: you could have used \""@ + keyword + "\" instead of \""@ + expansion + "\""@
}

/// Answers a `remind` request from what the reminder check found: the
/// keyword and expansion of an abbreviation that could have been typed, or
/// nothing (also when no abbreviations are loaded or reminders are off). With
/// nothing found the response is empty.
pub fn handle_remind(found: Option<(&str, &str)>, out: &mut Vec<u8>)
    ensures
        found is None ==> final(out)@ == old(out)@ + encode_utf8(empty_response_text()),
        found matches Some((k, e)) ==> final(out)@ == old(out)@ + encode_utf8(
            response_text(reminder_text(k@, e@)),
        ),
{
    match found {
        None => write_empty_eor(out),
        Some((k, e)) => {
            let mut msg = String::new();
            push_str(&mut msg, "kort: you could have used \"");
            push_str(&mut msg, k);
            push_str(&mut msg, "\" instead of \"");
            push_str(&mut msg, e);
            push_str(&mut msg, "\"");
            write_response(out, msg.as_str());
        },
    }
}

/// What the server has found out so far about whether its loaded
/// abbreviations still match the configuration file.
pub enum FreshnessEvent {
    /// The file's modification time was compared with the one recorded when
    /// the abbreviations were loaded; `loaded` tells whether any are.
    MtimeCompared { unchanged: bool, loaded: bool },
    /// The loaded abbreviations were compared with the file's content.
    LoadedCompared { same: bool },
    /// The abbreviations were read again; `fresh` tells whether that worked
    /// and gave abbreviations that match the file.
    Reread { fresh: bool },
}

/// What the server does next while checking freshness.
pub enum FreshnessAction {
    /// The abbreviations are current. `record_mtime`: record the file's new
    /// modification time; `take_reread`: use the abbreviations just read.
    Current { record_mtime: bool, take_reread: bool },
    /// Compare the loaded abbreviations with the file's content.
    CompareLoaded,
    /// Read the abbreviations again.
    Reread,
    /// The abbreviations are stale.
    Stale,
}

/// The next step of the freshness check: an unchanged modification time
/// means current; otherwise loaded abbreviations that still match the file
/// are current (only the time is recorded); failing that the abbreviations are
/// read again and taken when they match, else they are stale.
pub fn freshness_step(event: FreshnessEvent) -> (a: FreshnessAction)
    ensures
        a == (match event {
            FreshnessEvent::MtimeCompared { unchanged, loaded } => if unchanged {
                FreshnessAction::Current { record_mtime: false, take_reread: false }
            } else if loaded {
                FreshnessAction::CompareLoaded
            } else {
                FreshnessAction::Reread
            },
            FreshnessEvent::LoadedCompared { same } => if same {
                FreshnessAction::Current { record_mtime: true, take_reread: false }
            } else {
                FreshnessAction::Reread
            },
            FreshnessEvent::Reread { fresh } => if fresh {
                FreshnessAction::Current { record_mtime: true, take_reread: true }
            } else {
                FreshnessAction::Stale
            },
        }),
{
    match event {
        FreshnessEvent::MtimeCompared { unchanged, loaded } => {
            if unchanged {
                FreshnessAction::Current { record_mtime: false, take_reread: false }
            } else if loaded {
                FreshnessAction::CompareLoaded
            } else {
                FreshnessAction::Reread
            }
        },
        FreshnessEvent::LoadedCompared { same } => {
            if same {
                FreshnessAction::Current { record_mtime: true, take_reread: false }
            } else {
                FreshnessAction::Reread
            }
        },
        FreshnessEvent::Reread { fresh } => {
            if fresh {
                FreshnessAction::Current { record_mtime: true, take_reread: true }
            } else {
                FreshnessAction::Stale
            }
        },
    }
}

/// Answers a request line that could not be parsed: `error`, a tab and the
/// reason.
pub fn handle_request_error(e: &RequestError, out: &mut Vec<u8>)
    ensures
        final(out)@ == old(out)@ + encode_utf8(response_text("error\t"@ + error_message(e@))),
{
    let mut text = String::new();
    push_str(&mut text, "error\t");
    let m = e.to_string();
    push_str(&mut text, m.as_str());
    write_response(out, text.as_str());
}

} // verus!
