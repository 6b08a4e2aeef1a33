//! Contextual abbreviations: regex patterns on the text left and right of the
//! keyword decide whether an abbreviation applies.

use crate::matcher::{
    compile_spec, contextual_of, lookup_contextual, AbbrScope, Abbreviation, CompiledAbbr, Matcher,
};
use regex::Regex;
use vstd::prelude::*;

verus! {

#[verifier::external_type_specification]
#[verifier::external_body]
pub struct ExRegex(Regex);

#[verifier::external_type_specification]
#[verifier::external_body]
pub struct ExRegexError(regex::Error);

/// Whether `regex` accepts `pattern` (`Regex::new` returns `Ok`).
pub uninterp spec fn regex_compiles(pattern: Seq<char>) -> bool;

/// Whether the regex compiled from `pattern` matches somewhere in `haystack`
/// (`Regex::is_match`).
pub uninterp spec fn regex_is_match(pattern: Seq<char>, haystack: Seq<char>) -> bool;

/// A compiled regex together with the pattern it was compiled from.
pub struct CompiledPattern {
    re: Regex,
    source: String,
}

impl CompiledPattern {
    /// The pattern this regex was compiled from.
    pub closed spec fn source(self) -> Seq<char> {
        self.source@
    }
}

/// Compiles `pattern` with `Regex::new`. The contract claims that the outcome
/// depends on the pattern alone, and that a success keeps the pattern beside
/// the regex; this function is the only one that builds a `CompiledPattern`.
#[verifier::external_body]
fn compile_pattern(pattern: &str) -> (r: Result<CompiledPattern, regex::Error>)
    ensures
        r is Ok <==> regex_compiles(pattern@),
        r matches Ok(p) ==> p.source() == pattern@,
{
    match Regex::new(pattern) {
        Ok(re) => Ok(CompiledPattern { re, source: pattern.to_string() }),
        Err(e) => Err(e),
    }
}

/// Runs `Regex::is_match`. The contract claims that the answer depends only on
/// the pattern the regex was compiled from and on the haystack.
#[verifier::external_body]
fn pattern_is_match(p: &CompiledPattern, haystack: &str) -> (b: bool)
    ensures
        b == regex_is_match(p.source(), haystack@),
{
    p.re.is_match(haystack)
}

/// The outcome of checking one optional pattern against a text.
pub enum PatternCheck {
    /// No pattern is set.
    Absent,
    /// The pattern does not compile.
    Invalid,
    /// The pattern compiled; whether it matched.
    Checked(bool),
}

/// Whether a pattern check lets the abbreviation apply.
pub open spec fn check_passes(c: PatternCheck) -> bool {
    match c {
        PatternCheck::Absent => true,
        PatternCheck::Invalid => false,
        PatternCheck::Checked(b) => b,
    }
}

/// Whether the optional `pattern` lets an abbreviation apply to `text`.
pub open spec fn pattern_holds(pattern: Option<String>, text: Seq<char>) -> bool {
    match pattern {
        None => true,
        Some(p) => regex_compiles(p@) && regex_is_match(p@, text),
    }
}

/// Whether `a` applies with `lbuffer` left and `rbuffer` right of the keyword:
/// an abbreviation that is not contextual always does; a contextual one does
/// where each pattern it has compiles and matches.
pub open spec fn context_holds(a: CompiledAbbr, lbuffer: Seq<char>, rbuffer: Seq<char>) -> bool {
    match a.scope {
        AbbrScope::Contextual { lbuffer: lp, rbuffer: rp } => pattern_holds(lp, lbuffer)
            && pattern_holds(rp, rbuffer),
        _ => true,
    }
}

/// The verdict on a context from the checks of its two patterns: both must
/// pass, a missing pattern passes and one that does not compile fails.
pub fn context_satisfied(lbuffer_check: PatternCheck, rbuffer_check: PatternCheck) -> (r: bool)
    ensures
        r == (check_passes(lbuffer_check) && check_passes(rbuffer_check)),
{
    let l = match lbuffer_check {
        PatternCheck::Absent => true,
        PatternCheck::Invalid => false,
        PatternCheck::Checked(b) => b,
    };
    let r = match rbuffer_check {
        PatternCheck::Absent => true,
        PatternCheck::Invalid => false,
        PatternCheck::Checked(b) => b,
    };
    l && r
}

/// Checks an optional pattern against `text`.
fn check_pattern(pattern: &Option<String>, text: &str) -> (c: PatternCheck)
    ensures
        check_passes(c) == pattern_holds(*pattern, text@),
{
    match pattern {
        None => PatternCheck::Absent,
        Some(p) => match compile_pattern(p.as_str()) {
            Err(_) => PatternCheck::Invalid,
            Ok(re) => PatternCheck::Checked(pattern_is_match(&re, text)),
        },
    }
}

/// Whether the context conditions of `abbr` hold for the text left
/// (`lbuffer`) and right (`rbuffer`) of the keyword.
pub fn matches_context(abbr: &CompiledAbbr, lbuffer: &str, rbuffer: &str) -> (r: bool)
    ensures
        r == context_holds(*abbr, lbuffer@, rbuffer@),
{
    match &abbr.scope {
        AbbrScope::Contextual { lbuffer: lp, rbuffer: rp } => {
            let lc = check_pattern(lp, lbuffer);
            let rc = check_pattern(rp, rbuffer);
            context_satisfied(lc, rc)
        },
        _ => true,
    }
}

/// Compiling keeps what an abbreviation declares: its keyword, expansion and
/// evaluate flag; a contextual one applies exactly where both of its declared
/// patterns hold (a pattern that does not compile, or does not match its text,
/// keeps it from applying), any other one applies everywhere, and it is global
/// exactly when it has no context and is declared global.
pub proof fn lemma_compiled_context(a: Abbreviation, lbuffer: Seq<char>, rbuffer: Seq<char>)
    ensures
        compile_spec(a).keyword == a.keyword,
        compile_spec(a).expansion == a.expansion,
        compile_spec(a).evaluate == a.evaluate,
        context_holds(compile_spec(a), lbuffer, rbuffer) == (match a.context {
            Some(c) => pattern_holds(c.lbuffer, lbuffer) && pattern_holds(c.rbuffer, rbuffer),
            None => true,
        }),
        (compile_spec(a).scope is Global) == (a.context is None && a.global),
        (compile_spec(a).scope is Regular) == (a.context is None && !a.global),
        a.context matches Some(c) && c.lbuffer matches Some(p) && !(regex_compiles(p@)
            && regex_is_match(p@, lbuffer)) ==> !context_holds(compile_spec(a), lbuffer, rbuffer),
        a.context matches Some(c) && c.rbuffer matches Some(p) && !(regex_compiles(p@)
            && regex_is_match(p@, rbuffer)) ==> !context_holds(compile_spec(a), lbuffer, rbuffer),
        a.context matches Some(c) && c.lbuffer is None && c.rbuffer is None ==> context_holds(
            compile_spec(a),
            lbuffer,
            rbuffer,
        ),
{
}

/// `e` stands for the declared abbreviation `abbrs[j]`: a contextual one
/// with keyword `k` and the same expansion, and `e` applies exactly where
/// both of its declared patterns hold.
pub open spec fn stands_for_declared(
    abbrs: Seq<Abbreviation>,
    k: Seq<char>,
    e: CompiledAbbr,
    lbuffer: Seq<char>,
    rbuffer: Seq<char>,
    j: int,
) -> bool {
    &&& 0 <= j < abbrs.len()
    &&& abbrs[j].keyword@ == k
    &&& e.expansion == abbrs[j].expansion
    &&& e.evaluate == abbrs[j].evaluate
    &&& abbrs[j].context matches Some(c) && context_holds(e, lbuffer, rbuffer) == (pattern_holds(
        c.lbuffer,
        lbuffer,
    ) && pattern_holds(c.rbuffer, rbuffer))
}

/// Each abbreviation listed for `k` stands for a declared one.
pub open spec fn entries_declared(
    abbrs: Seq<Abbreviation>,
    k: Seq<char>,
    lbuffer: Seq<char>,
    rbuffer: Seq<char>,
) -> bool {
    forall|i: int|
        0 <= i < contextual_of(abbrs)[k].len() ==> declared_one(
            abbrs,
            k,
            #[trigger] contextual_of(abbrs)[k][i],
            lbuffer,
            rbuffer,
        )
}

/// `e` stands for some declared abbreviation of `abbrs`.
pub open spec fn declared_one(
    abbrs: Seq<Abbreviation>,
    k: Seq<char>,
    e: CompiledAbbr,
    lbuffer: Seq<char>,
    rbuffer: Seq<char>,
) -> bool {
    exists|j: int| stands_for_declared(abbrs, k, e, lbuffer, rbuffer, j)
}

/// Every contextual abbreviation the matcher lists for a keyword is one
/// declared with that keyword, and it applies exactly where the patterns
/// declared with it hold.
pub proof fn lemma_contextual_entries_declared(
    abbrs: Seq<Abbreviation>,
    k: Seq<char>,
    lbuffer: Seq<char>,
    rbuffer: Seq<char>,
)
    ensures
        contextual_of(abbrs).dom().contains(k) ==> entries_declared(abbrs, k, lbuffer, rbuffer),
    decreases abbrs.len(),
{
    if abbrs.len() > 0 {
        let pre = abbrs.drop_last();
        let a = abbrs.last();
        let n = abbrs.len() - 1;
        lemma_contextual_entries_declared(pre, k, lbuffer, rbuffer);
        if contextual_of(abbrs).dom().contains(k) {
            let prev = if contextual_of(pre).dom().contains(k) {
                contextual_of(pre)[k]
            } else {
                Seq::empty()
            };
            assert forall|i: int| 0 <= i < contextual_of(abbrs)[k].len() implies declared_one(
                abbrs,
                k,
                #[trigger] contextual_of(abbrs)[k][i],
                lbuffer,
                rbuffer,
            ) by {
                if a.context is Some && a.keyword@ == k && i == prev.len() {
                    lemma_compiled_context(a, lbuffer, rbuffer);
                    assert(contextual_of(abbrs)[k][i] == compile_spec(a));
                    assert(stands_for_declared(
                        abbrs,
                        k,
                        contextual_of(abbrs)[k][i],
                        lbuffer,
                        rbuffer,
                        n,
                    ));
                } else {
                    assert(contextual_of(pre).dom().contains(k));
                    assert(contextual_of(abbrs)[k][i] == contextual_of(pre)[k][i]);
                    assert(declared_one(pre, k, contextual_of(pre)[k][i], lbuffer, rbuffer));
                    let j = choose|j: int|
                        stands_for_declared(pre, k, contextual_of(pre)[k][i], lbuffer, rbuffer, j);
                    assert(pre[j] == abbrs[j]);
                    assert(stands_for_declared(
                        abbrs,
                        k,
                        contextual_of(abbrs)[k][i],
                        lbuffer,
                        rbuffer,
                        j,
                    ));
                }
            }
            assert(entries_declared(abbrs, k, lbuffer, rbuffer));
        }
    } else {
        assert(!contextual_of(abbrs).dom().contains(k));
    }
}

/// `i` is the first position in `list` whose context holds.
pub open spec fn is_first_context_match(
    list: Seq<CompiledAbbr>,
    lbuffer: Seq<char>,
    rbuffer: Seq<char>,
    i: int,
) -> bool {
    &&& 0 <= i < list.len()
    &&& context_holds(list[i], lbuffer, rbuffer)
    &&& forall|j: int| 0 <= j < i ==> !context_holds(#[trigger] list[j], lbuffer, rbuffer)
}

/// The first abbreviation of `list` whose context holds.
pub open spec fn first_context_match(
    list: Seq<CompiledAbbr>,
    lbuffer: Seq<char>,
    rbuffer: Seq<char>,
) -> Option<CompiledAbbr> {
    if exists|i: int| is_first_context_match(list, lbuffer, rbuffer, i) {
        Some(list[choose|i: int| is_first_context_match(list, lbuffer, rbuffer, i)])
    } else {
        None
    }
}

/// The contextual abbreviations declared for `keyword`, in order.
pub open spec fn contextual_for(m: Matcher, keyword: Seq<char>) -> Seq<CompiledAbbr> {
    if m.contextual_view().dom().contains(keyword) {
        m.contextual_view()[keyword]
    } else {
        Seq::empty()
    }
}

/// The first contextual abbreviation for `keyword`, in order of declaration,
/// whose context holds.
pub fn find_contextual_match<'a>(
    matcher: &'a Matcher,
    keyword: &str,
    lbuffer: &str,
    rbuffer: &str,
) -> (r: Option<&'a CompiledAbbr>)
    ensures
        match r {
            Some(a) => first_context_match(contextual_for(*matcher, keyword@), lbuffer@, rbuffer@)
                == Some(*a),
            None => first_context_match(contextual_for(*matcher, keyword@), lbuffer@, rbuffer@)
                is None,
        },
{
    let list = lookup_contextual(matcher, keyword);
    let ghost l = contextual_for(*matcher, keyword@);
    assert(list@ == l);
    let n = list.len();
    let mut i: usize = 0;
    while i < n
        invariant
            0 <= i <= n == list@.len(),
            list@ == l,
            l == contextual_for(*matcher, keyword@),
            forall|j: int| 0 <= j < i ==> !context_holds(#[trigger] l[j], lbuffer@, rbuffer@),
        decreases n - i,
    {
        if matches_context(&list[i], lbuffer, rbuffer) {
            assert(is_first_context_match(l, lbuffer@, rbuffer@, i as int));
            assert forall|k: int| is_first_context_match(l, lbuffer@, rbuffer@, k) implies k
                == i by {
                if k < i {
                    assert(!context_holds(l[k], lbuffer@, rbuffer@));
                } else if k > i {
                    assert(context_holds(l[i as int], lbuffer@, rbuffer@));
                }
            }
            let a = &list[i];
            assert(*a == l[i as int]);
            return Some(a);
        }
        i = i + 1;
    }
    assert forall|k: int| !is_first_context_match(l, lbuffer@, rbuffer@, k) by {
        if 0 <= k < n {
            assert(!context_holds(l[k], lbuffer@, rbuffer@));
        }
    }
    None
}

} // verus!
