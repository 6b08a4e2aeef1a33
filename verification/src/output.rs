//! The answers the expander gives to the shell, and their line-based wire form.

use crate::text::{decimal, digit_char, push_decimal, push_str};
use vstd::prelude::*;

verus! {

/// The answer to an expansion request.
#[derive(Debug)]
pub enum ExpandOutput {
    /// The new buffer and the byte offset of the cursor in it.
    Success { buffer: String, cursor: usize },
    /// A command for the shell to run; its output replaces the keyword.
    Evaluate { command: String, prefix: String, rbuffer: String },
    /// No abbreviation applies.
    NoMatch,
}

/// The mathematical content of an [`ExpandOutput`].
pub enum ExpandOutcome {
    Success { buffer: Seq<char>, cursor: nat },
    Evaluate { command: Seq<char>, prefix: Seq<char>, rbuffer: Seq<char> },
    NoMatch,
}

impl View for ExpandOutput {
    type V = ExpandOutcome;

    open spec fn view(&self) -> ExpandOutcome {
        match self {
            ExpandOutput::Success { buffer, cursor } => ExpandOutcome::Success {
                buffer: buffer@,
                cursor: *cursor as nat,
            },
            ExpandOutput::Evaluate { command, prefix, rbuffer } => ExpandOutcome::Evaluate {
                command: command@,
                prefix: prefix@,
                rbuffer: rbuffer@,
            },
            ExpandOutput::NoMatch => ExpandOutcome::NoMatch,
        }
    }
}

/// The line-based form of an expansion answer: `success`, buffer, cursor;
/// or `evaluate`, command, prefix, rbuffer; or `no_match`.
pub open spec fn render_expand(o: ExpandOutcome) -> Seq<char> {
    match o {
        ExpandOutcome::Success { buffer, cursor } => "success"@ + "\n"@ + buffer + "\n"@ + decimal(
            cursor,
        ),
        ExpandOutcome::Evaluate { command, prefix, rbuffer } => "evaluate"@ + "\n"@ + command
            + "\n"@ + prefix + "\n"@ + rbuffer,
        ExpandOutcome::NoMatch => "no_match"@,
    }
}

impl ExpandOutput {
    /// The line-based form of this answer.
    pub fn to_string(&self) -> (r: String)
        ensures
            r@ == render_expand(self@),
    {
        let mut r = String::new();
        match self {
            ExpandOutput::Success { buffer, cursor } => {
                push_str(&mut r, "success");
                push_str(&mut r, "\n");
                push_str(&mut r, buffer.as_str());
                push_str(&mut r, "\n");
                push_decimal(&mut r, *cursor);
            },
            ExpandOutput::Evaluate { command, prefix, rbuffer } => {
                push_str(&mut r, "evaluate");
                push_str(&mut r, "\n");
                push_str(&mut r, command.as_str());
                push_str(&mut r, "\n");
                push_str(&mut r, prefix.as_str());
                push_str(&mut r, "\n");
                push_str(&mut r, rbuffer.as_str());
            },
            ExpandOutput::NoMatch => {
                push_str(&mut r, "no_match");
            },
        }
        r
    }
}

/// The answer to a request to jump to the next placeholder.
#[derive(Debug)]
pub enum PlaceholderOutput {
    /// The buffer with the placeholder removed and the cursor's byte offset.
    Success { buffer: String, cursor: usize },
    /// There is no placeholder after the cursor.
    NoPlaceholder,
}

/// The mathematical content of a [`PlaceholderOutput`].
pub enum PlaceholderOutcome {
    Success { buffer: Seq<char>, cursor: nat },
    NoPlaceholder,
}

impl View for PlaceholderOutput {
    type V = PlaceholderOutcome;

    open spec fn view(&self) -> PlaceholderOutcome {
        match self {
            PlaceholderOutput::Success { buffer, cursor } => PlaceholderOutcome::Success {
                buffer: buffer@,
                cursor: *cursor as nat,
            },
            PlaceholderOutput::NoPlaceholder => PlaceholderOutcome::NoPlaceholder,
        }
    }
}

/// The line-based form of a placeholder answer.
pub open spec fn render_placeholder(o: PlaceholderOutcome) -> Seq<char> {
    match o {
        PlaceholderOutcome::Success { buffer, cursor } => "success"@ + "\n"@ + buffer + "\n"@
            + decimal(cursor),
        PlaceholderOutcome::NoPlaceholder => "no_placeholder"@,
    }
}

impl PlaceholderOutput {
    /// The line-based form of this answer.
    pub fn to_string(&self) -> (r: String)
        ensures
            r@ == render_placeholder(self@),
    {
        let mut r = String::new();
        match self {
            PlaceholderOutput::Success { buffer, cursor } => {
                push_str(&mut r, "success");
                push_str(&mut r, "\n");
                push_str(&mut r, buffer.as_str());
                push_str(&mut r, "\n");
                push_decimal(&mut r, *cursor);
            },
            PlaceholderOutput::NoPlaceholder => {
                push_str(&mut r, "no_placeholder");
            },
        }
        r
    }
}

/// The number of occurrences of `c` in `s`.
pub open spec fn count_char(s: Seq<char>, c: char) -> nat
    decreases s.len(),
{
    if s.len() == 0 {
        0
    } else {
        count_char(s.drop_last(), c) + if s.last() == c {
            1nat
        } else {
            0nat
        }
    }
}

/// Counting is additive over concatenation.
pub proof fn lemma_count_concat(a: Seq<char>, b: Seq<char>, c: char)
    ensures
        count_char(a + b, c) == count_char(a, c) + count_char(b, c),
    decreases b.len(),
{
    if b.len() > 0 {
        lemma_count_concat(a, b.drop_last(), c);
        assert((a + b).drop_last() =~= a + b.drop_last());
    } else {
        assert(a + b =~= a);
    }
}

/// A character that does not occur is counted zero times.
pub proof fn lemma_count_absent(s: Seq<char>, c: char)
    requires
        forall|j: int| 0 <= j < s.len() ==> s[j] != c,
    ensures
        count_char(s, c) == 0,
    decreases s.len(),
{
    if s.len() > 0 {
        assert forall|j: int| 0 <= j < s.drop_last().len() implies s.drop_last()[j] != c by {
            assert(s.drop_last()[j] == s[j]);
        }
        lemma_count_absent(s.drop_last(), c);
    }
}

/// A decimal representation has no line feed.
pub proof fn lemma_decimal_has_no_line_feed(n: nat)
    ensures
        count_char(decimal(n), '\n') == 0,
    decreases n,
{
    if n >= 10 {
        lemma_decimal_has_no_line_feed(n / 10);
        assert(decimal(n).drop_last() =~= decimal(n / 10));
        assert(decimal(n).last() == digit_char((n % 10) as nat));
        assert(count_char(decimal(n), '\n') == count_char(decimal(n / 10), '\n'));
    } else {
        assert(decimal(n).drop_last() =~= Seq::<char>::empty());
        assert(count_char(Seq::<char>::empty(), '\n') == 0);
        assert(decimal(n).last() == digit_char(n));
        assert(digit_char(n) != '\n');
    }
}

/// The line structure of the wire form: a success is three lines and an
/// evaluation four, plus one more line for each line feed inside a field;
/// `no_match` is one line.
pub proof fn lemma_render_line_feeds(o: ExpandOutcome)
    ensures
        count_char(render_expand(o), '\n') == match o {
            ExpandOutcome::Success { buffer, cursor } => 2 + count_char(buffer, '\n'),
            ExpandOutcome::Evaluate { command, prefix, rbuffer } => 3 + count_char(command, '\n')
                + count_char(prefix, '\n') + count_char(rbuffer, '\n'),
            ExpandOutcome::NoMatch => 0,
        },
{
    reveal_strlit("success");
    reveal_strlit("evaluate");
    reveal_strlit("no_match");
    reveal_strlit("\n");
    let nl = "\n"@;
    assert(count_char(nl, '\n') == 1) by {
        assert(nl.len() == 1 && nl.last() == '\n');
        assert(nl.drop_last() =~= Seq::<char>::empty());
        assert(count_char(nl.drop_last(), '\n') == 0);
    }
    lemma_count_absent("success"@, '\n');
    lemma_count_absent("evaluate"@, '\n');
    lemma_count_absent("no_match"@, '\n');
    match o {
        ExpandOutcome::Success { buffer, cursor } => {
            lemma_decimal_has_no_line_feed(cursor);
            lemma_count_concat("success"@, nl, '\n');
            lemma_count_concat("success"@ + nl, buffer, '\n');
            lemma_count_concat("success"@ + nl + buffer, nl, '\n');
            lemma_count_concat("success"@ + nl + buffer + nl, decimal(cursor), '\n');
        },
        ExpandOutcome::Evaluate { command, prefix, rbuffer } => {
            let e = "evaluate"@;
            lemma_count_concat(e, nl, '\n');
            lemma_count_concat(e + nl, command, '\n');
            lemma_count_concat(e + nl + command, nl, '\n');
            lemma_count_concat(e + nl + command + nl, prefix, '\n');
            lemma_count_concat(e + nl + command + nl + prefix, nl, '\n');
            lemma_count_concat(e + nl + command + nl + prefix + nl, rbuffer, '\n');
        },
        ExpandOutcome::NoMatch => {},
    }
}

} // verus!
