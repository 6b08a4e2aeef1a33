//! Importing abbreviations from zsh aliases, fish abbreviations and git
//! aliases, and exporting them as `kort add` commands.
//!
//! Reading the sources and writing the configuration are left to the caller:
//! the importers here turn the text into a list of steps, one per line that
//! carries content, and [`ImportResult`] tallies what the caller did with them.

use crate::matcher::Abbreviation;
use crate::text::{
    chars_of, equals_at, find_char, find_char_at, find_ws, find_ws_at, has_prefix, join_space,
    line_bounds, lines, push_char, push_chars, push_str, split_ws, starts_with_at,
    strip_prefix_or_keep, string_of, to_owned_string, trim, trim_at, word_bounds,
};
use vstd::prelude::*;

verus! {

/// The parameters of one abbreviation to append to the configuration.
pub struct AddParams {
    pub keyword: String,
    pub expansion: String,
    pub global: bool,
    pub evaluate: bool,
    pub allow_conflict: bool,
    pub context_lbuffer: Option<String>,
    pub context_rbuffer: Option<String>,
}

/// The mathematical content of [`AddParams`].
pub struct AddSpec {
    pub keyword: Seq<char>,
    pub expansion: Seq<char>,
    pub global: bool,
    pub evaluate: bool,
    pub allow_conflict: bool,
    pub context_lbuffer: Option<Seq<char>>,
    pub context_rbuffer: Option<Seq<char>>,
}

/// The view of an optional string.
pub open spec fn opt_view(o: Option<String>) -> Option<Seq<char>> {
    match o {
        Some(s) => Some(s@),
        None => None,
    }
}

impl View for AddParams {
    type V = AddSpec;

    open spec fn view(&self) -> AddSpec {
        AddSpec {
            keyword: self.keyword@,
            expansion: self.expansion@,
            global: self.global,
            evaluate: self.evaluate,
            allow_conflict: self.allow_conflict,
            context_lbuffer: opt_view(self.context_lbuffer),
            context_rbuffer: opt_view(self.context_rbuffer),
        }
    }
}

/// What to do with one line of an import source.
pub enum ImportStep {
    /// Append an abbreviation; `line` is the trimmed source line.
    Add { line: String, params: AddParams },
    /// Skip the trimmed source line, for the reason given.
    Skip { line: String, reason: String },
}

/// The mathematical content of an [`ImportStep`].
pub enum StepSpec {
    Add { line: Seq<char>, params: AddSpec },
    Skip { line: Seq<char>, reason: Seq<char> },
}

impl View for ImportStep {
    type V = StepSpec;

    open spec fn view(&self) -> StepSpec {
        match self {
            ImportStep::Add { line, params } => StepSpec::Add { line: line@, params: params@ },
            ImportStep::Skip { line, reason } => StepSpec::Skip { line: line@, reason: reason@ },
        }
    }
}

/// The tally of an import.
#[derive(Debug)]
pub struct ImportResult {
    /// How many abbreviations were appended.
    pub imported: usize,
    /// One message per line that was not imported: the line and, in
    /// parentheses, why.
    pub skipped: Vec<String>,
}

/// The message recorded for a skipped line.
pub open spec fn skip_message(line: Seq<char>, reason: Seq<char>) -> Seq<char> {
    line + " ("@ + reason + ")"@
}

impl Default for ImportResult {
    fn default() -> (r: ImportResult)
        ensures
            r.imported == 0,
            r.skipped@.len() == 0,
    {
        ImportResult { imported: 0, skipped: Vec::new() }
    }
}

impl ImportResult {
    /// An empty tally.
    pub fn new() -> (r: ImportResult)
        ensures
            r.imported == 0,
            r.skipped@.len() == 0,
    {
        ImportResult { imported: 0, skipped: Vec::new() }
    }

    /// Counts one appended abbreviation.
    pub fn record_added(&mut self)
        requires
            old(self).imported < usize::MAX,
        ensures
            final(self).imported == old(self).imported + 1,
            final(self).skipped@ == old(self).skipped@,
    {
        self.imported = self.imported + 1;
    }

    /// Records a skipped line with the reason it was skipped.
    pub fn record_skipped(&mut self, line: &str, reason: &str)
        ensures
            final(self).imported == old(self).imported,
            final(self).skipped@.len() == old(self).skipped@.len() + 1,
            forall|i: int|
                0 <= i < old(self).skipped@.len() ==> #[trigger] final(self).skipped@[i]
                    == old(self).skipped@[i],
            final(self).skipped@.last()@ == skip_message(line@, reason@),
    {
        let mut m = String::new();
        push_str(&mut m, line);
        push_str(&mut m, " (");
        push_str(&mut m, reason);
        push_str(&mut m, ")");
        self.skipped.push(m);
    }
}

/// `v` is a single quote character, which has no closing partner.
pub open spec fn lone_quote(v: Seq<char>) -> bool {
    v.len() == 1 && (v[0] == '\'' || v[0] == '"')
}

/// `v` is enclosed in a pair of single or of double quotes.
pub open spec fn quoted(v: Seq<char>) -> bool {
    &&& v.len() >= 2
    &&& (v[0] == '\'' && v.last() == '\'') || (v[0] == '"' && v.last() == '"')
}

/// `v` without its enclosing quotes, when it has them.
pub open spec fn unquote(v: Seq<char>) -> Seq<char> {
    if quoted(v) {
        v.subrange(1, v.len() - 1)
    } else {
        v
    }
}

/// `s` trimmed and without its enclosing quotes.
pub open spec fn strip_quotes_spec(s: Seq<char>) -> Seq<char> {
    unquote(trim(s))
}

/// The bounds of `v[lo..hi]` without enclosing quotes.
fn unquote_at(v: &[char], lo: usize, hi: usize) -> (r: (usize, usize))
    requires
        lo <= hi <= v@.len(),
        !lone_quote(v@.subrange(lo as int, hi as int)),
    ensures
        lo <= r.0 <= r.1 <= hi,
        v@.subrange(r.0 as int, r.1 as int) == unquote(v@.subrange(lo as int, hi as int)),
{
    let ghost s = v@.subrange(lo as int, hi as int);
    if hi - lo >= 2 && ((v[lo] == '\'' && v[hi - 1] == '\'') || (v[lo] == '"' && v[hi - 1]
        == '"')) {
        assert(s[0] == v@[lo as int] && s.last() == v@[hi - 1]);
        assert(s.subrange(1, s.len() - 1) == v@.subrange(lo + 1, hi - 1));
        (lo + 1, hi - 1)
    } else {
        proof {
            if s.len() >= 2 {
                assert(s[0] == v@[lo as int] && s.last() == v@[hi - 1]);
            }
        }
        (lo, hi)
    }
}

/// Removes surrounding whitespace and then one pair of enclosing quotes.
pub fn strip_quotes(s: &str) -> (r: String)
    requires
        !lone_quote(trim(s@)),
    ensures
        r@ == strip_quotes_spec(s@),
{
    let v = chars_of(s);
    let n = v.len();
    assert(v@.subrange(0, n as int) == s@);
    let (b, e) = trim_at(v.as_slice(), 0, n);
    let (b2, e2) = unquote_at(v.as_slice(), b, e);
    string_of(v.as_slice(), b2, e2)
}

/// The trimmed name and the trimmed value of a zsh alias definition: an
/// optional `alias ` prefix, the name up to the first `=` and the value after
/// it.
pub open spec fn zsh_alias_raw(line: Seq<char>) -> Option<(Seq<char>, Seq<char>)> {
    let l = strip_prefix_or_keep(line, "alias "@);
    match find_char(l, '=') {
        None => None,
        Some(eq) => Some((trim(l.take(eq)), trim(l.skip(eq + 1)))),
    }
}

/// The name and value of a zsh alias definition, the value without enclosing
/// quotes.
pub open spec fn zsh_alias_spec(line: Seq<char>) -> Option<(Seq<char>, Seq<char>)> {
    match zsh_alias_raw(line) {
        None => None,
        Some((name, value)) => Some((name, unquote(value))),
    }
}

/// Parsing the zsh alias definition `line` would meet a lone quote as value.
pub open spec fn zsh_alias_lone_quote(line: Seq<char>) -> bool {
    match zsh_alias_raw(line) {
        None => false,
        Some((name, value)) => lone_quote(value),
    }
}

fn lone_quote_exec(s: &String) -> (r: bool)
    ensures
        r == lone_quote(s@),
{
    s.as_str().unicode_len() == 1 && (s.as_str().get_char(0) == '\'' || s.as_str().get_char(0)
        == '"')
}

/// The trimmed name and value of a zsh alias definition.
fn zsh_alias_raw_exec(line: &str) -> (r: Option<(String, String)>)
    ensures
        match r {
            Some((n, v)) => zsh_alias_raw(line@) == Some((n@, v@)),
            None => zsh_alias_raw(line@) is None,
        },
{
    let v = chars_of(line);
    let n = v.len();
    assert(v@.subrange(0, n as int) == line@);
    let lo: usize = if starts_with_at(v.as_slice(), 0, n, "alias ") {
        6
    } else {
        0
    };
    proof {
        reveal_strlit("alias ");
    }
    let ghost l = strip_prefix_or_keep(line@, "alias "@);
    assert(l == v@.subrange(lo as int, n as int));
    match find_char_at(v.as_slice(), lo, n, '=') {
        None => None,
        Some(eq) => {
            proof {
                let q = choose|i: int| crate::text::is_first_index(l, '=', i);
                assert(crate::text::is_first_index(l, '=', q));
            }
            assert(l.take(eq - lo) == v@.subrange(lo as int, eq as int));
            assert(l.skip(eq - lo + 1) == v@.subrange(eq + 1, n as int));
            let (nb, ne) = trim_at(v.as_slice(), lo, eq);
            let (vb, ve) = trim_at(v.as_slice(), eq + 1, n);
            Some((string_of(v.as_slice(), nb, ne), string_of(v.as_slice(), vb, ve)))
        },
    }
}

/// `s` without enclosing quotes.
fn unquote_string(s: &String) -> (r: String)
    requires
        !lone_quote(s@),
    ensures
        r@ == unquote(s@),
{
    let v = chars_of(s.as_str());
    let n = v.len();
    assert(v@.subrange(0, n as int) == s@);
    let (b, e) = unquote_at(v.as_slice(), 0, n);
    string_of(v.as_slice(), b, e)
}

/// Parses `name='value'`, `name="value"` or `name=value`, with an optional
/// `alias ` prefix.
pub fn parse_zsh_alias(line: &str) -> (r: Option<(String, String)>)
    requires
        !zsh_alias_lone_quote(line@),
    ensures
        match r {
            Some((n, v)) => zsh_alias_spec(line@) == Some((n@, v@)),
            None => zsh_alias_spec(line@) is None,
        },
{
    match zsh_alias_raw_exec(line) {
        None => None,
        Some((name, value)) => {
            let value = unquote_string(&value);
            Some((name, value))
        },
    }
}

fn zsh_lone_quote_exec(line: &str) -> (r: bool)
    ensures
        r == zsh_alias_lone_quote(line@),
{
    match zsh_alias_raw_exec(line) {
        None => false,
        Some((_name, value)) => lone_quote_exec(&value),
    }
}

/// Where the flags of a fish `abbr` command end, scanning from word `i`, and
/// whether `-g` was among them: `-a`, `--add`, `-U`, `--universal` and `-g` are
/// skipped, `--` ends the flags and is skipped, `--position` and
/// `--set-cursor` are skipped with their argument, any other word starting
/// with `-` is skipped, and any other word ends the flags.
pub open spec fn fish_flags(parts: Seq<Seq<char>>, i: int, global: bool) -> (int, bool)
    decreases parts.len() + 2 - i,
{
    if i < 0 || i >= parts.len() {
        (i, global)
    } else {
        let p = parts[i];
        if p == "-a"@ || p == "--add"@ || p == "-U"@ || p == "--universal"@ || p == "-g"@ {
            fish_flags(parts, i + 1, global || p == "-g"@)
        } else if p == "--"@ {
            (i + 1, global)
        } else if p.len() > 0 && p[0] == '-' {
            if p == "--position"@ || p == "--set-cursor"@ {
                fish_flags(parts, i + 2, global)
            } else {
                fish_flags(parts, i + 1, global)
            }
        } else {
            (i, global)
        }
    }
}

/// The name, the words after it joined with spaces, and the `-g` flag of a
/// fish `abbr` command line.
pub open spec fn fish_abbr_parts(line: Seq<char>) -> Option<(Seq<char>, Seq<char>, bool)> {
    let l = trim(line);
    if !has_prefix(l, "abbr"@) {
        None
    } else {
        let parts = split_ws(l);
        if parts.len() < 3 {
            None
        } else {
            let (i, g) = fish_flags(parts, 1, false);
            if i >= parts.len() || i + 1 >= parts.len() {
                None
            } else {
                Some((parts[i], join_space(parts.subrange(i + 1, parts.len() as int)), g))
            }
        }
    }
}

/// The name, expansion and global flag of a fish `abbr` command line; the
/// expansion is the rest of the line without enclosing quotes.
pub open spec fn fish_abbr_spec(line: Seq<char>) -> Option<(Seq<char>, Seq<char>, bool)> {
    match fish_abbr_parts(line) {
        None => None,
        Some((name, rest, g)) => Some((name, strip_quotes_spec(rest), g)),
    }
}

/// Parsing the fish `abbr` line would meet a lone quote as expansion.
pub open spec fn fish_abbr_lone_quote(line: Seq<char>) -> bool {
    match fish_abbr_parts(line) {
        None => false,
        Some((name, rest, g)) => lone_quote(trim(rest)),
    }
}

/// Where the flags end in the words `parts` of `v`, or `None` when they run
/// past the last word.
fn fish_flag_end(v: &[char], parts: &Vec<(usize, usize)>, ws: Ghost<Seq<Seq<char>>>) -> (r: Option<
    (usize, bool),
>)
    requires
        parts@.len() == ws@.len(),
        parts@.len() >= 1,
        forall|k: int|
            0 <= k < parts@.len() ==> {
                &&& (#[trigger] parts@[k]).0 <= parts@[k].1 <= v@.len()
                &&& v@.subrange(parts@[k].0 as int, parts@[k].1 as int) == ws@[k]
            },
    ensures
        match r {
            Some((i, g)) => fish_flags(ws@, 1, false) == (i as int, g) && i <= ws@.len(),
            None => fish_flags(ws@, 1, false).0 >= ws@.len(),
        },
{
    let len = parts.len();
    let mut i: usize = 1;
    let mut global = false;
    while i < len
        invariant
            1 <= i,
            len == parts@.len() == ws@.len(),
            forall|k: int|
                0 <= k < parts@.len() ==> {
                    &&& (#[trigger] parts@[k]).0 <= parts@[k].1 <= v@.len()
                    &&& v@.subrange(parts@[k].0 as int, parts@[k].1 as int) == ws@[k]
                },
            fish_flags(ws@, 1, false) == fish_flags(ws@, i as int, global),
        decreases len - i,
    {
        let (s, e) = parts[i];
        assert(v@.subrange(s as int, e as int) == ws@[i as int]);
        let is_g = equals_at(v, s, e, "-g");
        if equals_at(v, s, e, "-a") || equals_at(v, s, e, "--add") || equals_at(v, s, e, "-U")
            || equals_at(v, s, e, "--universal") || is_g {
            if is_g {
                global = true;
            }
            i = i + 1;
        } else if equals_at(v, s, e, "--") {
            return Some((i + 1, global));
        } else if e > s && v[s] == '-' {
            assert(ws@[i as int][0] == v@[s as int]);
            if equals_at(v, s, e, "--position") || equals_at(v, s, e, "--set-cursor") {
                if len - i < 2 {
                    assert(fish_flags(ws@, i + 2, global) == (i + 2, global));
                    return None;
                }
                i = i + 2;
            } else {
                i = i + 1;
            }
        } else {
            proof {
                if ws@[i as int].len() > 0 {
                    assert(ws@[i as int][0] == v@[s as int]);
                }
            }
            return Some((i, global));
        }
    }
    None
}

/// Appends the words `parts[from..]` of `v`, separated by single spaces.
fn join_words(v: &[char], parts: &Vec<(usize, usize)>, from: usize, ws: Ghost<Seq<Seq<char>>>) -> (r:
    String)
    requires
        parts@.len() == ws@.len(),
        from < parts@.len(),
        forall|k: int|
            0 <= k < parts@.len() ==> {
                &&& (#[trigger] parts@[k]).0 <= parts@[k].1 <= v@.len()
                &&& v@.subrange(parts@[k].0 as int, parts@[k].1 as int) == ws@[k]
            },
    ensures
        r@ == join_space(ws@.subrange(from as int, ws@.len() as int)),
{
    let len = parts.len();
    let mut r = String::new();
    let (s0, e0) = parts[from];
    push_chars(&mut r, v, s0, e0);
    assert(ws@.subrange(from as int, from + 1).len() == 1);
    let mut k = from + 1;
    while k < len
        invariant
            from < k <= len == parts@.len() == ws@.len(),
            forall|j: int|
                0 <= j < parts@.len() ==> {
                    &&& (#[trigger] parts@[j]).0 <= parts@[j].1 <= v@.len()
                    &&& v@.subrange(parts@[j].0 as int, parts@[j].1 as int) == ws@[j]
                },
            r@ == join_space(ws@.subrange(from as int, k as int)),
        decreases len - k,
    {
        let (s, e) = parts[k];
        push_char(&mut r, ' ');
        push_chars(&mut r, v, s, e);
        let ghost w = ws@.subrange(from as int, k + 1);
        assert(w.drop_last() == ws@.subrange(from as int, k as int));
        assert(w.last() == ws@[k as int]);
        k = k + 1;
    }
    r
}

/// The name, the rest of the words and the global flag of a fish `abbr` line.
fn fish_abbr_parts_exec(line: &str) -> (r: Option<(String, String, bool)>)
    ensures
        match r {
            Some((n, x, g)) => fish_abbr_parts(line@) == Some((n@, x@, g)),
            None => fish_abbr_parts(line@) is None,
        },
{
    let v = chars_of(line);
    let n = v.len();
    assert(v@.subrange(0, n as int) == line@);
    let (b, e) = trim_at(v.as_slice(), 0, n);
    if !starts_with_at(v.as_slice(), b, e, "abbr") {
        return None;
    }
    let parts = word_bounds(v.as_slice(), b, e);
    let ghost ws = split_ws(v@.subrange(b as int, e as int));
    if parts.len() < 3 {
        return None;
    }
    let flags = fish_flag_end(v.as_slice(), &parts, Ghost(ws));
    match flags {
        None => None,
        Some((i, g)) => {
            if i >= parts.len() || parts.len() - i <= 1 {
                return None;
            }
            let (ns, ne) = parts[i];
            let name = string_of(v.as_slice(), ns, ne);
            let rest = join_words(v.as_slice(), &parts, i + 1, Ghost(ws));
            Some((name, rest, g))
        },
    }
}

/// Parses a fish `abbr` line such as `abbr -a name expansion` or
/// `abbr -a -- name 'expansion'`; `-g` makes the abbreviation global.
pub fn parse_fish_abbr(line: &str) -> (r: Option<(String, String, bool)>)
    requires
        !fish_abbr_lone_quote(line@),
    ensures
        match r {
            Some((n, x, g)) => fish_abbr_spec(line@) == Some((n@, x@, g)),
            None => fish_abbr_spec(line@) is None,
        },
{
    match fish_abbr_parts_exec(line) {
        None => None,
        Some((name, rest, g)) => Some((name, strip_quotes(rest.as_str()), g)),
    }
}

fn fish_lone_quote_exec(line: &str) -> (r: bool)
    ensures
        r == fish_abbr_lone_quote(line@),
{
    match fish_abbr_parts_exec(line) {
        None => false,
        Some((_name, rest, _g)) => {
            let v = chars_of(rest.as_str());
            let n = v.len();
            assert(v@.subrange(0, n as int) == rest@);
            let (b, e) = trim_at(v.as_slice(), 0, n);
            let t = string_of(v.as_slice(), b, e);
            lone_quote_exec(&t)
        },
    }
}

/// A trimmed line carries content: it is not empty and not a comment.
pub open spec fn content_line(t: Seq<char>) -> bool {
    t.len() > 0 && t[0] != '#'
}

/// The step that appends a plain abbreviation.
pub open spec fn add_step(
    line: Seq<char>,
    keyword: Seq<char>,
    expansion: Seq<char>,
    global: bool,
    evaluate: bool,
) -> StepSpec {
    StepSpec::Add {
        line,
        params: AddSpec {
            keyword,
            expansion,
            global,
            evaluate,
            allow_conflict: false,
            context_lbuffer: None,
            context_rbuffer: None,
        },
    }
}

/// A name and an expansion can be imported: the name is not empty and has no
/// space, and the expansion is not empty.
pub open spec fn importable(name: Seq<char>, value: Seq<char>) -> bool {
    !name.contains(' ') && name.len() > 0 && value.len() > 0
}

/// The step for one trimmed line of `alias` output.
pub open spec fn zsh_step(t: Seq<char>) -> Option<StepSpec> {
    if !content_line(t) {
        None
    } else {
        match zsh_alias_spec(t) {
            Some((name, value)) => if importable(name, value) {
                Some(add_step(t, name, value, false, false))
            } else {
                Some(StepSpec::Skip { line: t, reason: "invalid format"@ })
            },
            None => Some(StepSpec::Skip { line: t, reason: "unrecognized format"@ }),
        }
    }
}

/// The step for one trimmed line of fish `abbr` output.
pub open spec fn fish_step(t: Seq<char>) -> Option<StepSpec> {
    if !content_line(t) {
        None
    } else {
        match fish_abbr_spec(t) {
            Some((name, value, g)) => if importable(name, value) {
                Some(add_step(t, name, value, g, false))
            } else {
                Some(StepSpec::Skip { line: t, reason: "invalid format"@ })
            },
            None => Some(StepSpec::Skip { line: t, reason: "unsupported fish format"@ }),
        }
    }
}

/// The step for one trimmed line of `git config --get-regexp ^alias\.`
/// output: `alias.NAME VALUE` becomes the abbreviation NAME for `git VALUE`; a
/// value starting with `!` is a shell command, evaluated without the `!`.
pub open spec fn git_step(t: Seq<char>) -> Option<StepSpec> {
    if t.len() == 0 {
        None
    } else if !has_prefix(t, "alias."@) {
        Some(StepSpec::Skip { line: t, reason: "not an alias"@ })
    } else {
        let rest = t.skip(6);
        match find_ws(rest) {
            None => Some(StepSpec::Skip { line: t, reason: "no value"@ }),
            Some(p) => {
                let name = rest.take(p);
                let value = trim(rest.skip(p));
                if name.len() == 0 || value.len() == 0 {
                    Some(StepSpec::Skip { line: t, reason: "empty name or value"@ })
                } else if value[0] == '!' {
                    Some(add_step(t, name, "git "@ + trim(value.skip(1)), false, true))
                } else {
                    Some(add_step(t, name, "git "@ + value, false, false))
                }
            },
        }
    }
}

/// The sources an import reads.
pub enum ImportFormat {
    Zsh,
    Fish,
    Git,
}

/// The step for one trimmed line of a source in the given format.
pub open spec fn step_for(f: ImportFormat, t: Seq<char>) -> Option<StepSpec> {
    match f {
        ImportFormat::Zsh => zsh_step(t),
        ImportFormat::Fish => fish_step(t),
        ImportFormat::Git => git_step(t),
    }
}

/// The steps for the lines `ls`, in order, each line trimmed first.
pub open spec fn import_plan(f: ImportFormat, ls: Seq<Seq<char>>) -> Seq<StepSpec>
    decreases ls.len(),
{
    if ls.len() == 0 {
        Seq::empty()
    } else {
        let prev = import_plan(f, ls.drop_last());
        match step_for(f, trim(ls.last())) {
            Some(s) => prev.push(s),
            None => prev,
        }
    }
}

/// Parsing a trimmed line in the given format would meet a lone quote.
pub open spec fn line_meets_lone_quote(f: ImportFormat, t: Seq<char>) -> bool {
    match f {
        ImportFormat::Zsh => content_line(t) && zsh_alias_lone_quote(t),
        ImportFormat::Fish => content_line(t) && fish_abbr_lone_quote(t),
        ImportFormat::Git => false,
    }
}

/// No line of `text` meets a lone quote when parsed in the given format.
pub open spec fn import_text_ok(f: ImportFormat, text: Seq<char>) -> bool {
    forall|i: int|
        0 <= i < lines(text).len() ==> !line_meets_lone_quote(f, trim(#[trigger] lines(text)[i]))
}

fn skip_step(line: &str, reason: &str) -> (r: ImportStep)
    ensures
        r@ == (StepSpec::Skip { line: line@, reason: reason@ }),
{
    ImportStep::Skip { line: to_owned_string(line), reason: to_owned_string(reason) }
}

fn add_params(line: &str, keyword: String, expansion: String, global: bool, evaluate: bool) -> (r:
    ImportStep)
    ensures
        r@ == add_step(line@, keyword@, expansion@, global, evaluate),
{
    ImportStep::Add {
        line: to_owned_string(line),
        params: AddParams {
            keyword,
            expansion,
            global,
            evaluate,
            allow_conflict: false,
            context_lbuffer: None,
            context_rbuffer: None,
        },
    }
}

fn importable_exec(name: &String, value: &String) -> (r: bool)
    ensures
        r == importable(name@, value@),
{
    let nv = chars_of(name.as_str());
    let n = nv.len();
    assert(nv@.subrange(0, n as int) == name@);
    let has_space = crate::text::contains_char_at(nv.as_slice(), 0, n, ' ');
    !has_space && n > 0 && value.as_str().unicode_len() > 0
}

fn is_content_line(t: &str) -> (r: bool)
    ensures
        r == content_line(t@),
{
    t.unicode_len() > 0 && t.get_char(0) != '#'
}

fn zsh_step_exec(t: &str) -> (r: Option<ImportStep>)
    requires
        !line_meets_lone_quote(ImportFormat::Zsh, t@),
    ensures
        match r {
            Some(s) => zsh_step(t@) == Some(s@),
            None => zsh_step(t@) is None,
        },
{
    if !is_content_line(t) {
        return None;
    }
    match parse_zsh_alias(t) {
        Some((name, value)) => {
            if importable_exec(&name, &value) {
                Some(add_params(t, name, value, false, false))
            } else {
                Some(skip_step(t, "invalid format"))
            }
        },
        None => Some(skip_step(t, "unrecognized format")),
    }
}

fn fish_step_exec(t: &str) -> (r: Option<ImportStep>)
    requires
        !line_meets_lone_quote(ImportFormat::Fish, t@),
    ensures
        match r {
            Some(s) => fish_step(t@) == Some(s@),
            None => fish_step(t@) is None,
        },
{
    if !is_content_line(t) {
        return None;
    }
    match parse_fish_abbr(t) {
        Some((name, value, g)) => {
            if importable_exec(&name, &value) {
                Some(add_params(t, name, value, g, false))
            } else {
                Some(skip_step(t, "invalid format"))
            }
        },
        None => Some(skip_step(t, "unsupported fish format")),
    }
}

fn git_step_exec(t: &str) -> (r: Option<ImportStep>)
    ensures
        match r {
            Some(s) => git_step(t@) == Some(s@),
            None => git_step(t@) is None,
        },
{
    let v = chars_of(t);
    let n = v.len();
    assert(v@.subrange(0, n as int) == t@);
    if n == 0 {
        return None;
    }
    if !starts_with_at(v.as_slice(), 0, n, "alias.") {
        return Some(skip_step(t, "not an alias"));
    }
    proof {
        reveal_strlit("alias.");
    }
    let ghost rest = t@.skip(6);
    assert(rest == v@.subrange(6, n as int));
    match find_ws_at(v.as_slice(), 6, n) {
        None => Some(skip_step(t, "no value")),
        Some(p) => {
            proof {
                let q = choose|i: int| crate::text::is_first_ws(rest, i);
                assert(crate::text::is_first_ws(rest, q));
            }
            assert(rest.take(p - 6) == v@.subrange(6, p as int));
            assert(rest.skip(p - 6) == v@.subrange(p as int, n as int));
            let (vb, ve) = trim_at(v.as_slice(), p, n);
            let ghost value = v@.subrange(vb as int, ve as int);
            if p == 6 || vb == ve {
                return Some(skip_step(t, "empty name or value"));
            }
            let name = string_of(v.as_slice(), 6, p);
            let mut expansion = String::new();
            push_str(&mut expansion, "git ");
            if v[vb] == '!' {
                assert(value[0] == v@[vb as int]);
                let (eb, ee) = trim_at(v.as_slice(), vb + 1, ve);
                assert(value.skip(1) == v@.subrange(vb + 1, ve as int));
                push_chars(&mut expansion, v.as_slice(), eb, ee);
                Some(add_params(t, name, expansion, false, true))
            } else {
                assert(value[0] == v@[vb as int]);
                push_chars(&mut expansion, v.as_slice(), vb, ve);
                Some(add_params(t, name, expansion, false, false))
            }
        },
    }
}

/// The steps for every line of `text` in the given format.
fn import_lines(text: &str, f: ImportFormat) -> (r: Vec<ImportStep>)
    requires
        import_text_ok(f, text@),
    ensures
        r@.len() == import_plan(f, lines(text@)).len(),
        forall|i: int| 0 <= i < r@.len() ==> (#[trigger] r@[i])@ == import_plan(f, lines(text@))[i],
{
    let v = chars_of(text);
    let bounds = line_bounds(v.as_slice());
    let ghost ls = lines(text@);
    let mut r: Vec<ImportStep> = Vec::new();
    let mut k: usize = 0;
    assert(ls.take(0) == Seq::<Seq<char>>::empty());
    while k < bounds.len()
        invariant
            0 <= k <= bounds@.len() == ls.len(),
            v@ == text@,
            ls == lines(text@),
            import_text_ok(f, text@),
            forall|j: int|
                0 <= j < bounds@.len() ==> {
                    &&& (#[trigger] bounds@[j]).0 <= bounds@[j].1 <= v@.len()
                    &&& v@.subrange(bounds@[j].0 as int, bounds@[j].1 as int) == ls[j]
                },
            r@.len() == import_plan(f, ls.take(k as int)).len(),
            forall|i: int|
                0 <= i < r@.len() ==> (#[trigger] r@[i])@ == import_plan(f, ls.take(k as int))[i],
        decreases bounds@.len() - k,
    {
        let (lb, le) = bounds[k];
        let (tb, te) = trim_at(v.as_slice(), lb, le);
        let t = string_of(v.as_slice(), tb, te);
        assert(t@ == trim(ls[k as int]));
        assert(ls.take(k + 1).drop_last() == ls.take(k as int));
        assert(ls.take(k + 1).last() == ls[k as int]);
        assert(!line_meets_lone_quote(f, trim(ls[k as int])));
        let step = match f {
            ImportFormat::Zsh => zsh_step_exec(t.as_str()),
            ImportFormat::Fish => fish_step_exec(t.as_str()),
            ImportFormat::Git => git_step_exec(t.as_str()),
        };
        match step {
            Some(s) => {
                r.push(s);
            },
            None => {},
        }
        k = k + 1;
    }
    assert(ls.take(ls.len() as int) == ls);
    r
}

/// Whether `text` can be imported in the given format without meeting a lone
/// quote character as a value.
fn text_ok(text: &str, f: ImportFormat) -> (r: bool)
    ensures
        r == import_text_ok(f, text@),
{
    let v = chars_of(text);
    let bounds = line_bounds(v.as_slice());
    let ghost ls = lines(text@);
    let mut k: usize = 0;
    while k < bounds.len()
        invariant
            0 <= k <= bounds@.len() == ls.len(),
            v@ == text@,
            ls == lines(text@),
            forall|j: int|
                0 <= j < bounds@.len() ==> {
                    &&& (#[trigger] bounds@[j]).0 <= bounds@[j].1 <= v@.len()
                    &&& v@.subrange(bounds@[j].0 as int, bounds@[j].1 as int) == ls[j]
                },
            forall|j: int| 0 <= j < k ==> !line_meets_lone_quote(f, trim(#[trigger] ls[j])),
        decreases bounds@.len() - k,
    {
        let (lb, le) = bounds[k];
        let (tb, te) = trim_at(v.as_slice(), lb, le);
        let t = string_of(v.as_slice(), tb, te);
        assert(t@ == trim(ls[k as int]));
        let bad = match f {
            ImportFormat::Zsh => is_content_line(t.as_str()) && zsh_lone_quote_exec(t.as_str()),
            ImportFormat::Fish => is_content_line(t.as_str()) && fish_lone_quote_exec(t.as_str()),
            ImportFormat::Git => false,
        };
        if bad {
            return false;
        }
        k = k + 1;
    }
    true
}

/// Turns zsh `alias` output (`name='command'`, `name="command"` or
/// `name=command`, optionally after `alias `) into import steps, one per line
/// that is neither empty nor a comment.
pub fn import_aliases(alias_output: &str) -> (r: Vec<ImportStep>)
    requires
        import_text_ok(ImportFormat::Zsh, alias_output@),
    ensures
        r@.len() == import_plan(ImportFormat::Zsh, lines(alias_output@)).len(),
        forall|i: int|
            0 <= i < r@.len() ==> (#[trigger] r@[i])@ == import_plan(
                ImportFormat::Zsh,
                lines(alias_output@),
            )[i],
{
    import_lines(alias_output, ImportFormat::Zsh)
}

/// Turns fish `abbr` output (`abbr -a -- name 'expansion'`,
/// `abbr -a name expansion`) into import steps, one per line that is neither
/// empty nor a comment.
pub fn import_fish(content: &str) -> (r: Vec<ImportStep>)
    requires
        import_text_ok(ImportFormat::Fish, content@),
    ensures
        r@.len() == import_plan(ImportFormat::Fish, lines(content@)).len(),
        forall|i: int|
            0 <= i < r@.len() ==> (#[trigger] r@[i])@ == import_plan(
                ImportFormat::Fish,
                lines(content@),
            )[i],
{
    import_lines(content, ImportFormat::Fish)
}

/// Turns `git config --get-regexp ^alias\.` output into import steps, one
/// per non-empty line.
pub fn import_git_aliases(git_config_output: &str) -> (r: Vec<ImportStep>)
    ensures
        r@.len() == import_plan(ImportFormat::Git, lines(git_config_output@)).len(),
        forall|i: int|
            0 <= i < r@.len() ==> (#[trigger] r@[i])@ == import_plan(
                ImportFormat::Git,
                lines(git_config_output@),
            )[i],
{
    assert forall|i: int|
        0 <= i < lines(git_config_output@).len() implies !line_meets_lone_quote(
        ImportFormat::Git,
        trim(#[trigger] lines(git_config_output@)[i]),
    ) by {}
    import_lines(git_config_output, ImportFormat::Git)
}

/// Whether zsh `alias` output can be imported: no definition has a lone quote
/// character as its value, on which the parser would fail.
pub fn zsh_import_ok(alias_output: &str) -> (r: bool)
    ensures
        r == import_text_ok(ImportFormat::Zsh, alias_output@),
{
    text_ok(alias_output, ImportFormat::Zsh)
}

/// Whether fish `abbr` output can be imported: no line has a lone quote
/// character as its expansion, on which the parser would fail.
pub fn fish_import_ok(content: &str) -> (r: bool)
    ensures
        r == import_text_ok(ImportFormat::Fish, content@),
{
    text_ok(content, ImportFormat::Fish)
}

/// The number of lines of `ls` that produce a step in the given format.
pub open spec fn stepping_lines(f: ImportFormat, ls: Seq<Seq<char>>) -> nat
    decreases ls.len(),
{
    if ls.len() == 0 {
        0
    } else {
        stepping_lines(f, ls.drop_last()) + if step_for(f, trim(ls.last())) is Some {
            1nat
        } else {
            0nat
        }
    }
}

/// A line produces a step exactly when it carries content: for zsh and fish
/// output a line that is neither empty nor a comment, for git output a line
/// that is not empty.
pub proof fn lemma_step_iff_content(f: ImportFormat, t: Seq<char>)
    ensures
        step_for(f, t) is Some <==> match f {
            ImportFormat::Git => t.len() > 0,
            _ => content_line(t),
        },
{
}

/// Every line that carries content yields exactly one step, in order: the
/// steps of an import are as many as its content lines.
pub proof fn lemma_one_step_per_content_line(f: ImportFormat, ls: Seq<Seq<char>>)
    ensures
        import_plan(f, ls).len() == stepping_lines(f, ls),
    decreases ls.len(),
{
    if ls.len() > 0 {
        lemma_one_step_per_content_line(f, ls.drop_last());
    }
}

/// An imported zsh alias becomes a plain regular abbreviation: the keyword
/// and expansion are the alias's name and value, and it is neither global nor
/// evaluated, allows no conflict and has no context.
pub proof fn lemma_zsh_alias_is_regular(t: Seq<char>)
    ensures
        zsh_step(t) matches Some(StepSpec::Add { line, params }) ==> {
            &&& zsh_alias_spec(t) matches Some((n, v))
            &&& params.keyword == n
            &&& params.expansion == v
            &&& !params.global
            &&& !params.evaluate
            &&& !params.allow_conflict
            &&& params.context_lbuffer is None
            &&& params.context_rbuffer is None
            &&& line == t
        },
        content_line(t) ==> (zsh_alias_spec(t) matches Some((n, v)) ==> (zsh_step(t) is Some && (
        zsh_step(t)->Some_0 is Add <==> (n.len() > 0 && !n.contains(' ') && v.len() > 0)))),
        content_line(t) && zsh_alias_spec(t) is None ==> zsh_step(t) == Some(
            StepSpec::Skip { line: t, reason: "unrecognized format"@ },
        ),
        !content_line(t) ==> zsh_step(t) is None,
{
}

/// A zsh definition `name=value`, with or without a leading `alias `, has
/// the trimmed name and the trimmed value without enclosing quotes, when the
/// name holds no `=`.
pub proof fn lemma_zsh_alias_fields(name: Seq<char>, value: Seq<char>)
    requires
        !name.contains('='),
    ensures
        !has_prefix(name + "="@ + value, "alias "@) ==> zsh_alias_spec(name + "="@ + value) == Some(
            (trim(name), unquote(trim(value))),
        ),
        zsh_alias_spec("alias "@ + name + "="@ + value) == Some(
            (trim(name), unquote(trim(value))),
        ),
{
    reveal_strlit("=");
    reveal_strlit("alias ");
    let l = name + "="@ + value;
    assert(crate::text::is_first_index(l, '=', name.len() as int)) by {
        assert forall|j: int| 0 <= j < name.len() implies #[trigger] l[j] != '=' by {
            assert(l[j] == name[j]);
        }
    }
    crate::text::lemma_find_char_is_first(l, '=', name.len() as int);
    assert(l.take(name.len() as int) =~= name);
    assert(l.skip(name.len() as int + 1) =~= value);
    let al = "alias "@ + l;
    assert("alias "@ + name + "="@ + value =~= al);
    assert(al.take(6) =~= "alias "@);
    assert(al.skip(6) =~= l);
}

/// The words before the name of a fish `abbr` line are the flags `-a`,
/// `--add`, `-U`, `--universal` or `-g`.
pub open spec fn plain_fish_flag(p: Seq<char>) -> bool {
    p == "-a"@ || p == "--add"@ || p == "-U"@ || p == "--universal"@ || p == "-g"@
}

/// Some word of `parts[lo..hi]` is `-g`.
pub open spec fn has_global_flag(parts: Seq<Seq<char>>, lo: int, hi: int) -> bool {
    exists|j: int| lo <= j < hi && #[trigger] parts[j] == "-g"@
}

proof fn lemma_fish_flags_run(parts: Seq<Seq<char>>, i: int, k: int, g: bool)
    requires
        1 <= i <= k < parts.len(),
        forall|j: int| i <= j < k ==> plain_fish_flag(#[trigger] parts[j]),
        parts[k].len() > 0,
        parts[k][0] != '-',
    ensures
        fish_flags(parts, i, g) == (k, g || has_global_flag(parts, i, k)),
    decreases k - i,
{
    reveal_strlit("-a");
    reveal_strlit("--add");
    reveal_strlit("-U");
    reveal_strlit("--universal");
    reveal_strlit("-g");
    reveal_strlit("--");
    let p = parts[i];
    if i == k {
        assert(p != "-a"@ && p != "--add"@ && p != "-U"@ && p != "--universal"@ && p != "-g"@
            && p != "--"@) by {
            assert("-a"@[0] == '-' && "--add"@[0] == '-' && "-U"@[0] == '-');
            assert("--universal"@[0] == '-' && "-g"@[0] == '-' && "--"@[0] == '-');
        }
        assert(!has_global_flag(parts, i, k));
    } else {
        assert(plain_fish_flag(p));
        lemma_fish_flags_run(parts, i + 1, k, g || p == "-g"@);
        if p == "-g"@ {
            assert(has_global_flag(parts, i, k));
        }
        if has_global_flag(parts, i, k) {
            let j = choose|j: int| i <= j < k && #[trigger] parts[j] == "-g"@;
            if j > i {
                assert(has_global_flag(parts, i + 1, k));
            }
        }
        if has_global_flag(parts, i + 1, k) {
            let j = choose|j: int| i + 1 <= j < k && #[trigger] parts[j] == "-g"@;
            assert(has_global_flag(parts, i, k));
        }
    }
}

/// In a fish `abbr` line whose words after `abbr` are plain flags up to the
/// name (the first word not starting with `-`), the name is that word, the
/// expansion is the rest of the words without enclosing quotes, and the
/// abbreviation is global exactly when a `-g` flag precedes the name; an
/// imported line carries these into its step.
pub proof fn lemma_fish_global_flag(t: Seq<char>, k: int)
    requires
        has_prefix(trim(t), "abbr"@),
        1 <= k,
        k + 1 < split_ws(trim(t)).len(),
        forall|j: int| 1 <= j < k ==> plain_fish_flag(#[trigger] split_ws(trim(t))[j]),
        split_ws(trim(t))[k].len() > 0,
        split_ws(trim(t))[k][0] != '-',
    ensures
        ({
            let parts = split_ws(trim(t));
            let name = parts[k];
            let expansion = strip_quotes_spec(join_space(parts.subrange(k + 1, parts.len() as int)));
            let global = has_global_flag(parts, 1, k);
            &&& fish_abbr_spec(t) == Some((name, expansion, global))
            &&& fish_step(t) matches Some(StepSpec::Add { line, params }) ==> {
                &&& params.keyword == name
                &&& params.expansion == expansion
                &&& params.global == global
                &&& !params.evaluate
                &&& line == t
            }
            &&& content_line(t) ==> (fish_step(t)->Some_0 is Add <==> (name.len() > 0
                && !name.contains(' ') && expansion.len() > 0))
        }),
{
    let parts = split_ws(trim(t));
    lemma_fish_flags_run(parts, 1, k, false);
}

/// `trim` ignores a leading whitespace character.
proof fn lemma_trim_end_after_ws(c: char, v: Seq<char>)
    requires
        crate::text::is_ws(c),
    ensures
        crate::text::trim_end(seq![c] + v) == if crate::text::trim_end(v).len() == 0 {
            Seq::<char>::empty()
        } else {
            seq![c] + crate::text::trim_end(v)
        },
    decreases v.len(),
{
    let s = seq![c] + v;
    if v.len() == 0 {
        assert(s.drop_last() =~= Seq::<char>::empty());
        assert(s.last() == c);
        assert(crate::text::trim_end(s) == crate::text::trim_end(s.drop_last()));
        assert(crate::text::trim_end(Seq::<char>::empty()) == Seq::<char>::empty());
    } else if crate::text::is_ws(v.last()) {
        assert(s.drop_last() =~= seq![c] + v.drop_last());
        assert(s.last() == v.last());
        lemma_trim_end_after_ws(c, v.drop_last());
        assert(crate::text::trim_end(s) == crate::text::trim_end(s.drop_last()));
        assert(crate::text::trim_end(v) == crate::text::trim_end(v.drop_last()));
    } else {
        assert(s.last() == v.last());
        assert(crate::text::trim_end(s) == s);
        assert(crate::text::trim_end(v) == v);
        assert(s =~= seq![c] + v);
    }
}

proof fn lemma_trim_after_ws(c: char, v: Seq<char>)
    requires
        crate::text::is_ws(c),
    ensures
        trim(seq![c] + v) == trim(v),
{
    lemma_trim_end_after_ws(c, v);
    let te = crate::text::trim_end(v);
    if te.len() > 0 {
        assert((seq![c] + te).drop_first() =~= te);
    }
}

/// A git alias `alias.NAME VALUE` with a name free of whitespace and a
/// non-empty value becomes the abbreviation NAME: for a value not starting
/// with `!` it expands to `git ` followed by the whole trimmed value and is
/// not evaluated; for `!COMMAND` it expands to `git ` followed by the trimmed
/// command and is evaluated. It is never global.
pub proof fn lemma_git_alias_expansion(name: Seq<char>, value: Seq<char>)
    requires
        name.len() > 0,
        forall|j: int| 0 <= j < name.len() ==> !crate::text::is_ws(#[trigger] name[j]),
        trim(value).len() > 0,
    ensures
        ({
            let t = "alias."@ + name + " "@ + value;
            let v = trim(value);
            &&& git_step(t) matches Some(StepSpec::Add { line, params })
            &&& params.keyword == name
            &&& !params.global
            &&& v[0] != '!' ==> params.expansion == "git "@ + v && !params.evaluate
            &&& v[0] == '!' ==> params.expansion == "git "@ + trim(v.skip(1)) && params.evaluate
        }),
{
    reveal_strlit("alias.");
    reveal_strlit(" ");
    let t = "alias."@ + name + " "@ + value;
    let rest = name + " "@ + value;
    assert(t.take(6) =~= "alias."@);
    assert(t.skip(6) =~= rest);
    let p = name.len() as int;
    assert(crate::text::is_first_ws(rest, p)) by {
        assert(rest[p] == ' ');
        assert forall|j: int| 0 <= j < p implies !crate::text::is_ws(#[trigger] rest[j]) by {
            assert(rest[j] == name[j]);
        }
    }
    let q = choose|i: int| crate::text::is_first_ws(rest, i);
    assert(crate::text::is_first_ws(rest, q));
    if q < p {
        assert(rest[q] == name[q]);
    } else if q > p {
        assert(!crate::text::is_ws(rest[p]));
    }
    assert(rest.take(p) =~= name);
    assert(rest.skip(p) =~= seq![' '] + value);
    lemma_trim_after_ws(' ', value);
}

/// A git alias always expands to a `git` command line.
pub proof fn lemma_git_expansion_is_git_command(t: Seq<char>)
    ensures
        git_step(t) matches Some(StepSpec::Add { line, params }) ==> has_prefix(
            params.expansion,
            "git "@,
        ),
{
    let g = "git "@;
    assert forall|x: Seq<char>| #[trigger] (g + x).take(g.len() as int) == g by {
        assert((g + x).take(g.len() as int) =~= g);
    }
}

/// `s` quoted for a POSIX shell: inside single quotes, each single quote
/// written as `'\''`.
pub open spec fn shell_quote(s: Seq<char>) -> Seq<char> {
    seq!['\''] + shell_escape(s) + seq!['\'']
}

/// The body of [`shell_quote`].
pub open spec fn shell_escape(s: Seq<char>) -> Seq<char>
    decreases s.len(),
{
    if s.len() == 0 {
        Seq::empty()
    } else {
        shell_escape(s.drop_last()) + if s.last() == '\'' {
            seq!['\'', '\\', '\'', '\'']
        } else {
            seq![s.last()]
        }
    }
}

/// An optional flag with its quoted value.
pub open spec fn flag_with(flag: Seq<char>, value: Option<String>) -> Seq<char> {
    match value {
        Some(v) => " "@ + flag + " "@ + shell_quote(v@),
        None => Seq::empty(),
    }
}

/// The `kort add` command that recreates `a`.
pub open spec fn export_line(a: Abbreviation) -> Seq<char> {
    "kort add "@ + shell_quote(a.keyword@) + " "@ + shell_quote(a.expansion@) + (if a.global {
        " --global"@
    } else {
        Seq::empty()
    }) + (if a.evaluate {
        " --evaluate"@
    } else {
        Seq::empty()
    }) + (if a.allow_conflict {
        " --allow-conflict"@
    } else {
        Seq::empty()
    }) + match a.context {
        Some(c) => flag_with("--context-lbuffer"@, c.lbuffer) + flag_with("--context-rbuffer"@, c.rbuffer),
        None => Seq::empty(),
    }
}

fn push_shell_quoted(out: &mut String, s: &str)
    ensures
        final(out)@ == old(out)@ + shell_quote(s@),
{
    let v = chars_of(s);
    push_char(out, '\'');
    let ghost base = out@;
    let mut i: usize = 0;
    assert(v@.take(0) == Seq::<char>::empty());
    while i < v.len()
        invariant
            0 <= i <= v@.len(),
            v@ == s@,
            out@ == base + shell_escape(v@.take(i as int)),
        decreases v@.len() - i,
    {
        assert(v@.take(i + 1).drop_last() == v@.take(i as int));
        assert(v@.take(i + 1).last() == v@[i as int]);
        if v[i] == '\'' {
            push_char(out, '\'');
            push_char(out, '\\');
            push_char(out, '\'');
            push_char(out, '\'');
        } else {
            push_char(out, v[i]);
        }
        i = i + 1;
    }
    assert(v@.take(v@.len() as int) == v@);
    push_char(out, '\'');
}

fn push_flag_with(out: &mut String, flag: &str, value: &Option<String>)
    ensures
        final(out)@ == old(out)@ + flag_with(flag@, *value),
{
    match value {
        Some(v) => {
            push_str(out, " ");
            push_str(out, flag);
            push_str(out, " ");
            push_shell_quoted(out, v.as_str());
        },
        None => {},
    }
}

/// The `kort add` command that recreates one abbreviation.
pub fn export_abbreviation(a: &Abbreviation) -> (r: String)
    ensures
        r@ == export_line(*a),
{
    let mut r = String::new();
    push_str(&mut r, "kort add ");
    push_shell_quoted(&mut r, a.keyword.as_str());
    push_str(&mut r, " ");
    push_shell_quoted(&mut r, a.expansion.as_str());
    if a.global {
        push_str(&mut r, " --global");
    }
    if a.evaluate {
        push_str(&mut r, " --evaluate");
    }
    if a.allow_conflict {
        push_str(&mut r, " --allow-conflict");
    }
    match &a.context {
        Some(c) => {
            push_flag_with(&mut r, "--context-lbuffer", &c.lbuffer);
            push_flag_with(&mut r, "--context-rbuffer", &c.rbuffer);
        },
        None => {},
    }
    r
}

/// The abbreviations as `kort add` commands, one per abbreviation, in order.
pub fn export(abbrs: &[Abbreviation]) -> (r: Vec<String>)
    ensures
        r@.len() == abbrs@.len(),
        forall|i: int| 0 <= i < r@.len() ==> (#[trigger] r@[i])@ == export_line(abbrs@[i]),
{
    let n = abbrs.len();
    let mut r: Vec<String> = Vec::new();
    let mut i: usize = 0;
    while i < n
        invariant
            0 <= i <= n == abbrs@.len(),
            r@.len() == i,
            forall|j: int| 0 <= j < i ==> (#[trigger] r@[j])@ == export_line(abbrs@[j]),
        decreases n - i,
    {
        r.push(export_abbreviation(&abbrs[i]));
        i = i + 1;
    }
    r
}

} // verus!
