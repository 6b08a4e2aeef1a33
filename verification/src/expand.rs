//! Expansion of the keyword left of the cursor.
//!
//! The keyword is the last space-separated token of the text left of the
//! cursor. Contextual abbreviations are tried first, then regular ones when the
//! keyword is the command word, then global ones.

use crate::context::{contextual_for, find_contextual_match, first_context_match};
use crate::matcher::{lookup_global, lookup_regular, CompiledAbbr, Matcher};
use crate::output::{ExpandOutcome, ExpandOutput};
use crate::placeholder::{apply_first_placeholder, cut, next_placeholder};
use crate::text::{
    byte_len, chars_of, concat2, rfind_char, string_of, to_owned_string, trim, trim_at, trim_end,
    trim_end_at, utf8_len,
};
use vstd::prelude::*;

verus! {

/// The text left (`lbuffer`) and right (`rbuffer`) of the cursor.
pub struct ExpandInput {
    pub lbuffer: String,
    pub rbuffer: String,
}

/// The prefix and the keyword of `lbuffer`: after trailing whitespace is
/// removed, the keyword is what follows the last space and the prefix is
/// everything up to and including that space.
pub open spec fn split_keyword(lbuffer: Seq<char>) -> Option<(Seq<char>, Seq<char>)> {
    let t = trim_end(lbuffer);
    if t.len() == 0 {
        None
    } else {
        match rfind_char(t, ' ') {
            Some(p) => if t.skip(p + 1).len() == 0 {
                None
            } else {
                Some((t.take(p + 1), t.skip(p + 1)))
            },
            None => Some((Seq::empty(), t)),
        }
    }
}

/// A keyword is in command position when nothing but whitespace precedes it.
pub open spec fn command_position(prefix: Seq<char>) -> bool {
    trim(prefix).len() == 0
}

/// The answer for `abbr` expanded after `prefix` with `rbuffer` right of the
/// cursor: an evaluated abbreviation hands its command back; otherwise the
/// keyword is replaced, the first placeholder of the whole buffer is removed and
/// the cursor goes where it stood, or after the expansion when there is none.
pub open spec fn output_for(prefix: Seq<char>, abbr: CompiledAbbr, rbuffer: Seq<char>) -> ExpandOutcome {
    if abbr.evaluate {
        ExpandOutcome::Evaluate { command: abbr.expansion@, prefix, rbuffer }
    } else {
        let new_lbuffer = prefix + abbr.expansion@;
        let full = new_lbuffer + rbuffer;
        match next_placeholder(full, 0) {
            Some((s, e)) => ExpandOutcome::Success {
                buffer: cut(full, s, e),
                cursor: utf8_len(full.take(s)),
            },
            None => ExpandOutcome::Success { buffer: full, cursor: utf8_len(new_lbuffer) },
        }
    }
}

/// The answer once the contextual search has given `contextual`: that
/// abbreviation if there is one; else the regular abbreviation for the keyword
/// when it is in command position; else the global one; else no match.
pub open spec fn outcome_after_context(
    m: Matcher,
    prefix: Seq<char>,
    keyword: Seq<char>,
    contextual: Option<CompiledAbbr>,
    rbuffer: Seq<char>,
) -> ExpandOutcome {
    match contextual {
        Some(a) => output_for(prefix, a, rbuffer),
        None => if command_position(prefix) && m.regular_view().dom().contains(keyword) {
            output_for(prefix, m.regular_view()[keyword], rbuffer)
        } else if m.global_view().dom().contains(keyword) {
            output_for(prefix, m.global_view()[keyword], rbuffer)
        } else {
            ExpandOutcome::NoMatch
        },
    }
}

/// The answer to an expansion request.
pub open spec fn expand_outcome(m: Matcher, lbuffer: Seq<char>, rbuffer: Seq<char>) -> ExpandOutcome {
    match split_keyword(lbuffer) {
        None => ExpandOutcome::NoMatch,
        Some((prefix, keyword)) => outcome_after_context(
            m,
            prefix,
            keyword,
            first_context_match(contextual_for(m, keyword), prefix, rbuffer),
            rbuffer,
        ),
    }
}

/// Splits `lbuffer` into the prefix and the keyword to expand.
pub fn extract_keyword(lbuffer: &str) -> (r: Option<(String, String)>)
    ensures
        match r {
            Some((p, k)) => split_keyword(lbuffer@) == Some((p@, k@)),
            None => split_keyword(lbuffer@) is None,
        },
{
    let v = chars_of(lbuffer);
    let n = v.len();
    let e = trim_end_at(v.as_slice(), 0, n);
    assert(v@.subrange(0, n as int) == lbuffer@);
    let ghost t = v@.subrange(0, e as int);
    if e == 0 {
        return None;
    }
    match crate::text::rfind_char_at(v.as_slice(), 0, e, ' ') {
        Some(p) => {
            proof {
                let q = choose|i: int| crate::text::is_last_index(t, ' ', i);
                assert(crate::text::is_last_index(t, ' ', q));
            }
            if p + 1 == e {
                assert(t.skip(p + 1).len() == 0);
                None
            } else {
                let prefix = string_of(v.as_slice(), 0, p + 1);
                let keyword = string_of(v.as_slice(), p + 1, e);
                assert(t.take(p + 1) == v@.subrange(0, p + 1));
                assert(t.skip(p + 1) == v@.subrange(p + 1, e as int));
                Some((prefix, keyword))
            }
        },
        None => {
            let keyword = string_of(v.as_slice(), 0, e);
            Some((String::new(), keyword))
        },
    }
}

/// Whether a keyword after `prefix` is in command position.
pub fn is_command_position(prefix: &str) -> (r: bool)
    ensures
        r == command_position(prefix@),
{
    let v = chars_of(prefix);
    let n = v.len();
    let (b, e) = trim_at(v.as_slice(), 0, n);
    assert(v@.subrange(0, n as int) == prefix@);
    b == e
}

/// The answer for `abbr` expanded after `prefix`.
pub fn build_output(prefix: &str, abbr: &CompiledAbbr, rbuffer: &str) -> (o: ExpandOutput)
    ensures
        o@ == output_for(prefix@, *abbr, rbuffer@),
{
    if abbr.evaluate {
        return ExpandOutput::Evaluate {
            command: abbr.expansion.clone(),
            prefix: to_owned_string(prefix),
            rbuffer: to_owned_string(rbuffer),
        };
    }
    let new_lbuffer = concat2(prefix, abbr.expansion.as_str());
    let full = concat2(new_lbuffer.as_str(), rbuffer);
    let cursor = byte_len(&new_lbuffer);
    let r = apply_first_placeholder(full.as_str(), cursor);
    ExpandOutput::Success { buffer: r.text, cursor: r.cursor }
}

/// The answer once the contextual search has given `contextual`.
pub fn expand_after_context(
    matcher_data: &Matcher,
    prefix: &str,
    keyword: &str,
    contextual: Option<&CompiledAbbr>,
    rbuffer: &str,
) -> (o: ExpandOutput)
    ensures
        o@ == outcome_after_context(
            *matcher_data,
            prefix@,
            keyword@,
            match contextual {
                Some(a) => Some(*a),
                None => None,
            },
            rbuffer@,
        ),
{
    if let Some(abbr) = contextual {
        return build_output(prefix, abbr, rbuffer);
    }
    if is_command_position(prefix) {
        if let Some(abbr) = lookup_regular(matcher_data, keyword) {
            return build_output(prefix, abbr, rbuffer);
        }
    }
    if let Some(abbr) = lookup_global(matcher_data, keyword) {
        return build_output(prefix, abbr, rbuffer);
    }
    ExpandOutput::NoMatch
}

/// Expands the keyword left of the cursor.
pub fn expand(input: &ExpandInput, matcher_data: &Matcher) -> (o: ExpandOutput)
    ensures
        o@ == expand_outcome(*matcher_data, input.lbuffer@, input.rbuffer@),
{
    let (prefix, keyword) = match extract_keyword(input.lbuffer.as_str()) {
        Some(pk) => pk,
        None => {
            return ExpandOutput::NoMatch;
        },
    };
    let hit = find_contextual_match(
        matcher_data,
        keyword.as_str(),
        prefix.as_str(),
        input.rbuffer.as_str(),
    );
    expand_after_context(
        matcher_data,
        prefix.as_str(),
        keyword.as_str(),
        hit,
        input.rbuffer.as_str(),
    )
}

/// A non-empty text without trailing whitespace ends with a character that
/// is not whitespace.
proof fn lemma_trim_end_last(s: Seq<char>)
    ensures
        trim_end(s).len() > 0 ==> !crate::text::is_ws(trim_end(s).last()),
        trim_end(s).len() <= s.len(),
    decreases s.len(),
{
    if s.len() > 0 && crate::text::is_ws(s.last()) {
        lemma_trim_end_last(s.drop_last());
    }
}

/// The keyword is the last space-separated token of the text without its
/// trailing whitespace: prefix and keyword make up that text, the keyword is
/// not empty and has no space, and the prefix is empty or ends with a space.
/// There is a keyword exactly when the text is not all whitespace.
pub proof fn lemma_keyword_split(lbuffer: Seq<char>)
    ensures
        split_keyword(lbuffer) matches Some((p, k)) ==> {
            &&& p + k == trim_end(lbuffer)
            &&& k.len() > 0
            &&& !k.contains(' ')
            &&& p.len() == 0 || p.last() == ' '
        },
        split_keyword(lbuffer) is None <==> trim_end(lbuffer).len() == 0,
{
    let t = trim_end(lbuffer);
    lemma_trim_end_last(lbuffer);
    if t.len() > 0 {
        match rfind_char(t, ' ') {
            Some(p) => {
                let q = choose|i: int| crate::text::is_last_index(t, ' ', i);
                assert(crate::text::is_last_index(t, ' ', q));
                assert(p < t.len() - 1);
                let k = t.skip(p + 1);
                assert(t.take(p + 1) + k =~= t);
                assert forall|j: int| 0 <= j < k.len() implies k[j] != ' ' by {
                    assert(k[j] == t[p + 1 + j]);
                }
            },
            None => {
                assert forall|j: int| 0 <= j < t.len() implies t[j] != ' ' by {
                    if t[j] == ' ' {
                        crate::text::lemma_last_index_exists(t, ' ', j);
                    }
                }
                assert(Seq::<char>::empty() + t =~= t);
            },
        }
    }
}

/// A text left of the cursor without spaces is a single word, in command
/// position: its keyword has an empty prefix.
pub proof fn lemma_no_space_is_command_position(lbuffer: Seq<char>)
    requires
        !lbuffer.contains(' '),
    ensures
        split_keyword(lbuffer) matches Some((p, k)) ==> p.len() == 0 && command_position(p),
{
    let t = trim_end(lbuffer);
    lemma_trim_end_prefix(lbuffer);
    if t.len() > 0 {
        if let Some(p) = rfind_char(t, ' ') {
            let q = choose|i: int| crate::text::is_last_index(t, ' ', i);
            assert(crate::text::is_last_index(t, ' ', q));
            assert(t[q] == lbuffer[q]);
        }
        assert(trim(Seq::<char>::empty()) =~= Seq::<char>::empty());
    }
}

/// Trailing whitespace removed leaves a prefix of the text.
proof fn lemma_trim_end_prefix(s: Seq<char>)
    ensures
        trim_end(s).len() <= s.len(),
        trim_end(s) == s.take(trim_end(s).len() as int),
    decreases s.len(),
{
    if s.len() > 0 && crate::text::is_ws(s.last()) {
        lemma_trim_end_prefix(s.drop_last());
        assert(s.drop_last().take(trim_end(s).len() as int) =~= s.take(trim_end(s).len() as int));
    } else {
        assert(s.take(s.len() as int) =~= s);
    }
}

/// An evaluated abbreviation is handed back as its command, with the text
/// left of the keyword and the text right of the cursor exactly as given.
pub proof fn lemma_evaluate_keeps_buffers(prefix: Seq<char>, abbr: CompiledAbbr, rbuffer: Seq<char>)
    requires
        abbr.evaluate,
    ensures
        output_for(prefix, abbr, rbuffer) == (ExpandOutcome::Evaluate {
            command: abbr.expansion@,
            prefix,
            rbuffer,
        }),
{
}

/// Whatever abbreviation is chosen, an evaluate answer to an expansion
/// request carries the request's right text unchanged and, as prefix, the
/// left text up to the keyword: prefix and keyword make up the left text
/// without its trailing whitespace.
pub proof fn lemma_evaluate_answer_keeps_request(m: Matcher, lbuffer: Seq<char>, rbuffer: Seq<char>)
    ensures
        expand_outcome(m, lbuffer, rbuffer) matches ExpandOutcome::Evaluate {
            command,
            prefix,
            rbuffer: r,
        } ==> {
            &&& r == rbuffer
            &&& split_keyword(lbuffer) matches Some((p, k))
            &&& prefix == p
            &&& p + k == trim_end(lbuffer)
        },
{
    lemma_keyword_split(lbuffer);
}

/// Priorities of expansion: a contextual abbreviation whose context holds
/// wins; failing that a regular abbreviation applies, but only in command
/// position; failing that a global one applies anywhere; otherwise nothing
/// expands.
pub proof fn lemma_expansion_priority(m: Matcher, lbuffer: Seq<char>, rbuffer: Seq<char>)
    ensures
        split_keyword(lbuffer) matches Some((p, k)) ==> {
            &&& first_context_match(contextual_for(m, k), p, rbuffer) matches Some(a)
                ==> expand_outcome(m, lbuffer, rbuffer) == output_for(p, a, rbuffer)
            &&& (first_context_match(contextual_for(m, k), p, rbuffer) is None
                && !command_position(p) && !m.global_view().dom().contains(k))
                ==> expand_outcome(m, lbuffer, rbuffer) == ExpandOutcome::NoMatch
            &&& (first_context_match(contextual_for(m, k), p, rbuffer) is None
                && !command_position(p) && m.global_view().dom().contains(k))
                ==> expand_outcome(m, lbuffer, rbuffer) == output_for(p, m.global_view()[k], rbuffer)
            &&& (first_context_match(contextual_for(m, k), p, rbuffer) is None && command_position(p)
                && m.regular_view().dom().contains(k))
                ==> expand_outcome(m, lbuffer, rbuffer) == output_for(p, m.regular_view()[k], rbuffer)
            &&& (first_context_match(contextual_for(m, k), p, rbuffer) is None && command_position(p)
                && !m.regular_view().dom().contains(k) && m.global_view().dom().contains(k))
                ==> expand_outcome(m, lbuffer, rbuffer) == output_for(p, m.global_view()[k], rbuffer)
            &&& (first_context_match(contextual_for(m, k), p, rbuffer) is None
                && !m.regular_view().dom().contains(k) && !m.global_view().dom().contains(k))
                ==> expand_outcome(m, lbuffer, rbuffer) == ExpandOutcome::NoMatch
        },
        split_keyword(lbuffer) is None ==> expand_outcome(m, lbuffer, rbuffer)
            == ExpandOutcome::NoMatch,
{
}

/// A non-evaluated expansion without placeholders replaces the keyword and
/// leaves the cursor right after the expansion.
pub proof fn lemma_plain_expansion(prefix: Seq<char>, abbr: CompiledAbbr, rbuffer: Seq<char>)
    requires
        !abbr.evaluate,
        next_placeholder(prefix + abbr.expansion@ + rbuffer, 0) is None,
    ensures
        output_for(prefix, abbr, rbuffer) == (ExpandOutcome::Success {
            buffer: prefix + abbr.expansion@ + rbuffer,
            cursor: utf8_len(prefix + abbr.expansion@),
        }),
{
}

/// The position, in characters, of the cursor after a non-evaluated
/// expansion: where the first placeholder stood, or right after the expansion.
pub open spec fn cursor_chars(prefix: Seq<char>, abbr: CompiledAbbr, rbuffer: Seq<char>) -> int {
    let new_lbuffer = prefix + abbr.expansion@;
    match next_placeholder(new_lbuffer + rbuffer, 0) {
        Some((s, e)) => s,
        None => new_lbuffer.len() as int,
    }
}

/// The cursor of a successful expansion sits on a character boundary of the
/// new buffer: it is the byte length of the buffer's first
/// `cursor_chars(..)` characters.
pub proof fn lemma_cursor_on_char_boundary(prefix: Seq<char>, abbr: CompiledAbbr, rbuffer: Seq<char>)
    ensures
        match output_for(prefix, abbr, rbuffer) {
            ExpandOutcome::Success { buffer, cursor } => {
                &&& 0 <= cursor_chars(prefix, abbr, rbuffer) <= buffer.len()
                &&& cursor == utf8_len(buffer.take(cursor_chars(prefix, abbr, rbuffer)))
            },
            _ => true,
        },
{
    if !abbr.evaluate {
        let nl = prefix + abbr.expansion@;
        let full = nl + rbuffer;
        crate::placeholder::lemma_placeholder_removal(full, 0);
        match next_placeholder(full, 0) {
            Some((s, e)) => {
                assert(cut(full, s, e).take(s) =~= full.take(s));
            },
            None => {
                assert(full.take(nl.len() as int) =~= nl);
            },
        }
    }
}

} // verus!
