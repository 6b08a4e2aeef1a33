//! Abbreviation definitions and the matcher that looks them up by keyword.
//!
//! Regular abbreviations expand only in command position, global ones
//! anywhere, and contextual ones where their buffer patterns match. Keywords
//! are kept in `FxHashMap`s that map each keyword to a position in the
//! matcher's own vectors.

use rustc_hash::{FxBuildHasher, FxHashMap};
use vstd::prelude::*;

verus! {

#[verifier::external_type_specification]
#[verifier::external_body]
pub struct ExFxBuildHasher(FxBuildHasher);

/// The context in which a contextual abbreviation applies: regex patterns
/// that the text left and right of the cursor must match.
pub struct AbbreviationContext {
    pub lbuffer: Option<String>,
    pub rbuffer: Option<String>,
}

/// An abbreviation as the configuration declares it.
pub struct Abbreviation {
    pub keyword: String,
    pub expansion: String,
    pub global: bool,
    pub evaluate: bool,
    pub allow_conflict: bool,
    pub context: Option<AbbreviationContext>,
}

/// Where an abbreviation applies.
pub enum AbbrScope {
    /// Only as the command word.
    Regular,
    /// Anywhere on the line.
    Global,
    /// Where the optional patterns match the text around the keyword.
    Contextual { lbuffer: Option<String>, rbuffer: Option<String> },
}

/// An abbreviation ready for lookup.
pub struct CompiledAbbr {
    pub keyword: String,
    pub expansion: String,
    pub scope: AbbrScope,
    pub evaluate: bool,
}

impl Default for CompiledAbbr {
    fn default() -> (r: CompiledAbbr)
        ensures
            r.keyword@ == Seq::<char>::empty(),
            r.expansion@ == Seq::<char>::empty(),
            r.scope == AbbrScope::Regular,
            !r.evaluate,
    {
        CompiledAbbr {
            keyword: String::new(),
            expansion: String::new(),
            scope: AbbrScope::Regular,
            evaluate: false,
        }
    }
}

/// A map from keywords to positions.
pub type KeywordIndex = FxHashMap<String, usize>;

/// The contents of a keyword index: for each keyword, by its characters, the
/// position it maps to.
pub uninterp spec fn keyword_index(m: KeywordIndex) -> Map<Seq<char>, usize>;

/// An empty keyword index (`FxHashMap::default`).
#[verifier::external_body]
fn index_new() -> (m: KeywordIndex)
    ensures
        keyword_index(m) =~= Map::empty(),
{
    FxHashMap::default()
}

/// The position that `key` maps to (`HashMap::get`, the key compared by its
/// characters).
#[verifier::external_body]
fn index_get(m: &KeywordIndex, key: &str) -> (r: Option<usize>)
    ensures
        keyword_index(*m).dom().contains(key@) ==> r == Some(keyword_index(*m)[key@]),
        !keyword_index(*m).dom().contains(key@) ==> r is None,
{
    m.get(key).copied()
}

/// Maps `key` to `v`, replacing an earlier entry for the same characters
/// (`HashMap::insert`).
#[verifier::external_body]
fn index_insert(m: &mut KeywordIndex, key: String, v: usize)
    ensures
        keyword_index(*final(m)) == keyword_index(*old(m)).insert(key@, v),
{
    m.insert(key, v);
}

/// The compiled form of an abbreviation.
pub open spec fn compile_spec(a: Abbreviation) -> CompiledAbbr {
    CompiledAbbr {
        keyword: a.keyword,
        expansion: a.expansion,
        scope: match a.context {
            Some(c) => AbbrScope::Contextual { lbuffer: c.lbuffer, rbuffer: c.rbuffer },
            None => if a.global {
                AbbrScope::Global
            } else {
                AbbrScope::Regular
            },
        },
        evaluate: a.evaluate,
    }
}

/// The regular abbreviations of `abbrs` by keyword; a later one replaces an
/// earlier one with the same keyword.
pub open spec fn regular_of(abbrs: Seq<Abbreviation>) -> Map<Seq<char>, CompiledAbbr>
    decreases abbrs.len(),
{
    if abbrs.len() == 0 {
        Map::empty()
    } else {
        let a = abbrs.last();
        let m = regular_of(abbrs.drop_last());
        if a.context is None && !a.global {
            m.insert(a.keyword@, compile_spec(a))
        } else {
            m
        }
    }
}

/// The global abbreviations of `abbrs` by keyword; a later one replaces an
/// earlier one with the same keyword.
pub open spec fn global_of(abbrs: Seq<Abbreviation>) -> Map<Seq<char>, CompiledAbbr>
    decreases abbrs.len(),
{
    if abbrs.len() == 0 {
        Map::empty()
    } else {
        let a = abbrs.last();
        let m = global_of(abbrs.drop_last());
        if a.context is None && a.global {
            m.insert(a.keyword@, compile_spec(a))
        } else {
            m
        }
    }
}

/// The contextual abbreviations of `abbrs` by keyword, each list in the order
/// of declaration.
pub open spec fn contextual_of(abbrs: Seq<Abbreviation>) -> Map<Seq<char>, Seq<CompiledAbbr>>
    decreases abbrs.len(),
{
    if abbrs.len() == 0 {
        Map::empty()
    } else {
        let a = abbrs.last();
        let m = contextual_of(abbrs.drop_last());
        if a.context is Some {
            let prev = if m.dom().contains(a.keyword@) {
                m[a.keyword@]
            } else {
                Seq::empty()
            };
            m.insert(a.keyword@, prev.push(compile_spec(a)))
        } else {
            m
        }
    }
}

/// All abbreviations, indexed by keyword.
pub struct Matcher {
    regular: KeywordIndex,
    global: KeywordIndex,
    contextual: KeywordIndex,
    abbrs: Vec<CompiledAbbr>,
    groups: Vec<Vec<CompiledAbbr>>,
}

/// Every position in the indexes points into the vectors, and distinct
/// contextual keywords have distinct lists.
pub open spec fn indexes_wf(
    regular: Map<Seq<char>, usize>,
    global: Map<Seq<char>, usize>,
    contextual: Map<Seq<char>, usize>,
    n_abbrs: nat,
    n_groups: nat,
) -> bool {
    &&& forall|k: Seq<char>| #[trigger] regular.dom().contains(k) ==> regular[k] < n_abbrs
    &&& forall|k: Seq<char>| #[trigger] global.dom().contains(k) ==> global[k] < n_abbrs
    &&& forall|k: Seq<char>| #[trigger] contextual.dom().contains(k) ==> contextual[k] < n_groups
    &&& forall|k1: Seq<char>, k2: Seq<char>|
        #[trigger] contextual.dom().contains(k1) && #[trigger] contextual.dom().contains(k2)
            && k1 != k2 ==> contextual[k1] != contextual[k2]
}

/// The map from keyword to abbreviation that an index and its vector describe.
pub open spec fn resolve(index: Map<Seq<char>, usize>, abbrs: Seq<CompiledAbbr>) -> Map<
    Seq<char>,
    CompiledAbbr,
> {
    Map::new(|k: Seq<char>| index.dom().contains(k), |k: Seq<char>| abbrs[index[k] as int])
}

/// The map from keyword to list that an index and its lists describe.
pub open spec fn resolve_groups(index: Map<Seq<char>, usize>, groups: Seq<Vec<CompiledAbbr>>) -> Map<
    Seq<char>,
    Seq<CompiledAbbr>,
> {
    Map::new(|k: Seq<char>| index.dom().contains(k), |k: Seq<char>| groups[index[k] as int]@)
}

impl Matcher {
    #[verifier::type_invariant]
    spec fn wf(self) -> bool {
        indexes_wf(
            keyword_index(self.regular),
            keyword_index(self.global),
            keyword_index(self.contextual),
            self.abbrs@.len(),
            self.groups@.len(),
        )
    }

    /// The regular abbreviations, by keyword.
    pub closed spec fn regular_view(self) -> Map<Seq<char>, CompiledAbbr> {
        resolve(keyword_index(self.regular), self.abbrs@)
    }

    /// The global abbreviations, by keyword.
    pub closed spec fn global_view(self) -> Map<Seq<char>, CompiledAbbr> {
        resolve(keyword_index(self.global), self.abbrs@)
    }

    /// The contextual abbreviations, by keyword, in order of declaration.
    pub closed spec fn contextual_view(self) -> Map<Seq<char>, Seq<CompiledAbbr>> {
        resolve_groups(keyword_index(self.contextual), self.groups@)
    }

    /// A matcher without abbreviations.
    pub fn new() -> (m: Matcher)
        ensures
            m.regular_view() == Map::<Seq<char>, CompiledAbbr>::empty(),
            m.global_view() == Map::<Seq<char>, CompiledAbbr>::empty(),
            m.contextual_view() == Map::<Seq<char>, Seq<CompiledAbbr>>::empty(),
    {
        let m = Matcher {
            regular: index_new(),
            global: index_new(),
            contextual: index_new(),
            abbrs: Vec::new(),
            groups: Vec::new(),
        };
        assert(m.regular_view() =~= Map::<Seq<char>, CompiledAbbr>::empty());
        assert(m.global_view() =~= Map::<Seq<char>, CompiledAbbr>::empty());
        assert(m.contextual_view() =~= Map::<Seq<char>, Seq<CompiledAbbr>>::empty());
        m
    }
}

fn clone_opt(s: &Option<String>) -> (r: Option<String>)
    ensures
        r == *s,
{
    match s {
        Some(x) => Some(x.clone()),
        None => None,
    }
}

/// The compiled form of `a`.
pub fn compile(a: &Abbreviation) -> (c: CompiledAbbr)
    ensures
        c == compile_spec(*a),
{
    let scope = match &a.context {
        Some(ctx) => AbbrScope::Contextual {
            lbuffer: clone_opt(&ctx.lbuffer),
            rbuffer: clone_opt(&ctx.rbuffer),
        },
        None => if a.global {
            AbbrScope::Global
        } else {
            AbbrScope::Regular
        },
    };
    CompiledAbbr {
        keyword: a.keyword.clone(),
        expansion: a.expansion.clone(),
        scope,
        evaluate: a.evaluate,
    }
}

/// Builds the matcher for a list of abbreviations. Regular and global
/// abbreviations are indexed by keyword, a later one replacing an earlier one;
/// contextual abbreviations are listed by keyword in order of declaration.
pub fn build(abbrs: &[Abbreviation]) -> (m: Matcher)
    ensures
        m.regular_view() == regular_of(abbrs@),
        m.global_view() == global_of(abbrs@),
        m.contextual_view() == contextual_of(abbrs@),
{
    let mut regular = index_new();
    let mut global = index_new();
    let mut contextual = index_new();
    let mut all: Vec<CompiledAbbr> = Vec::new();
    let mut groups: Vec<Vec<CompiledAbbr>> = Vec::new();
    let n = abbrs.len();
    assert(resolve(keyword_index(regular), all@) =~= regular_of(abbrs@.take(0)));
    assert(resolve(keyword_index(global), all@) =~= global_of(abbrs@.take(0)));
    assert(resolve_groups(keyword_index(contextual), groups@) =~= contextual_of(abbrs@.take(0)));
    let mut i: usize = 0;
    while i < n
        invariant
            0 <= i <= n == abbrs@.len(),
            indexes_wf(
                keyword_index(regular),
                keyword_index(global),
                keyword_index(contextual),
                all@.len(),
                groups@.len(),
            ),
            resolve(keyword_index(regular), all@) == regular_of(abbrs@.take(i as int)),
            resolve(keyword_index(global), all@) == global_of(abbrs@.take(i as int)),
            resolve_groups(keyword_index(contextual), groups@) == contextual_of(
                abbrs@.take(i as int),
            ),
        decreases n - i,
    {
        let a = &abbrs[i];
        let c = compile(a);
        let ghost pre = abbrs@.take(i as int);
        assert(abbrs@.take(i + 1).drop_last() == pre);
        assert(abbrs@.take(i + 1).last() == *a);
        let ghost old_all = all@;
        let ghost old_groups = groups@;
        let ghost ri = keyword_index(regular);
        let ghost gi = keyword_index(global);
        let ghost ci = keyword_index(contextual);
        if a.context.is_some() {
            match index_get(&contextual, a.keyword.as_str()) {
                Some(g) => {
                    groups[g].push(c);
                    assert(resolve_groups(keyword_index(contextual), groups@) =~= contextual_of(
                        abbrs@.take(i + 1),
                    )) by {
                        assert forall|k: Seq<char>| #[trigger]
                            keyword_index(contextual).dom().contains(k) && k != a.keyword@ implies
                            groups@[keyword_index(contextual)[k] as int]@
                                == old_groups[keyword_index(contextual)[k] as int]@ by {
                            assert(ci[k] != ci[a.keyword@]);
                        }
                    }
                },
                None => {
                    let mut v: Vec<CompiledAbbr> = Vec::new();
                    v.push(c);
                    let pos = groups.len();
                    index_insert(&mut contextual, a.keyword.clone(), pos);
                    groups.push(v);
                    assert(v@ == Seq::<CompiledAbbr>::empty().push(compile_spec(*a)));
                    assert(resolve_groups(keyword_index(contextual), groups@) =~= contextual_of(
                        abbrs@.take(i + 1),
                    )) by {
                        assert forall|k: Seq<char>| #[trigger]
                            keyword_index(contextual).dom().contains(k) && k != a.keyword@ implies
                            groups@[keyword_index(contextual)[k] as int]@
                                == old_groups[keyword_index(contextual)[k] as int]@ by {
                            assert(ci.dom().contains(k));
                        }
                    }
                },
            }
            assert(resolve(keyword_index(regular), all@) =~= regular_of(abbrs@.take(i + 1)));
            assert(resolve(keyword_index(global), all@) =~= global_of(abbrs@.take(i + 1)));
        } else if a.global {
            let pos = all.len();
            index_insert(&mut global, a.keyword.clone(), pos);
            all.push(c);
            assert(resolve(keyword_index(regular), all@) =~= regular_of(abbrs@.take(i + 1))) by {
                assert forall|k: Seq<char>| #[trigger] ri.dom().contains(k) implies all@[ri[k] as int]
                    == old_all[ri[k] as int] by {}
            }
            assert(resolve(keyword_index(global), all@) =~= global_of(abbrs@.take(i + 1))) by {
                assert forall|k: Seq<char>| #[trigger] gi.dom().contains(k) implies all@[gi[k] as int]
                    == old_all[gi[k] as int] by {}
            }
            assert(resolve_groups(keyword_index(contextual), groups@) =~= contextual_of(
                abbrs@.take(i + 1),
            ));
        } else {
            let pos = all.len();
            index_insert(&mut regular, a.keyword.clone(), pos);
            all.push(c);
            assert(resolve(keyword_index(regular), all@) =~= regular_of(abbrs@.take(i + 1))) by {
                assert forall|k: Seq<char>| #[trigger] ri.dom().contains(k) implies all@[ri[k] as int]
                    == old_all[ri[k] as int] by {}
            }
            assert(resolve(keyword_index(global), all@) =~= global_of(abbrs@.take(i + 1))) by {
                assert forall|k: Seq<char>| #[trigger] gi.dom().contains(k) implies all@[gi[k] as int]
                    == old_all[gi[k] as int] by {}
            }
            assert(resolve_groups(keyword_index(contextual), groups@) =~= contextual_of(
                abbrs@.take(i + 1),
            ));
        }
        i = i + 1;
    }
    assert(abbrs@.take(n as int) == abbrs@);
    Matcher { regular, global, contextual, abbrs: all, groups }
}

/// The regular abbreviation with this keyword.
pub fn lookup_regular<'a>(m: &'a Matcher, keyword: &str) -> (r: Option<&'a CompiledAbbr>)
    ensures
        match r {
            Some(a) => m.regular_view().dom().contains(keyword@) && *a == m.regular_view()[keyword@],
            None => !m.regular_view().dom().contains(keyword@),
        },
{
    proof {
        use_type_invariant(m);
    }
    match index_get(&m.regular, keyword) {
        Some(p) => Some(&m.abbrs[p]),
        None => None,
    }
}

/// The global abbreviation with this keyword.
pub fn lookup_global<'a>(m: &'a Matcher, keyword: &str) -> (r: Option<&'a CompiledAbbr>)
    ensures
        match r {
            Some(a) => m.global_view().dom().contains(keyword@) && *a == m.global_view()[keyword@],
            None => !m.global_view().dom().contains(keyword@),
        },
{
    proof {
        use_type_invariant(m);
    }
    match index_get(&m.global, keyword) {
        Some(p) => Some(&m.abbrs[p]),
        None => None,
    }
}

/// The contextual abbreviations with this keyword, in order of declaration.
pub fn lookup_contextual<'a>(m: &'a Matcher, keyword: &str) -> (r: &'a [CompiledAbbr])
    ensures
        m.contextual_view().dom().contains(keyword@) ==> r@ == m.contextual_view()[keyword@],
        !m.contextual_view().dom().contains(keyword@) ==> r@.len() == 0,
{
    proof {
        use_type_invariant(m);
    }
    match index_get(&m.contextual, keyword) {
        Some(p) => m.groups[p].as_slice(),
        None => &[],
    }
}

/// `i` is the last position of `abbrs` holding an abbreviation of the kind
/// `kind` with the keyword `k`.
pub open spec fn is_last_declared(
    abbrs: Seq<Abbreviation>,
    global: bool,
    k: Seq<char>,
    i: int,
) -> bool {
    &&& 0 <= i < abbrs.len()
    &&& abbrs[i].context is None && abbrs[i].global == global && abbrs[i].keyword@ == k
    &&& forall|j: int|
        i < j < abbrs.len() ==> !((#[trigger] abbrs[j]).context is None && abbrs[j].global == global
            && abbrs[j].keyword@ == k)
}

/// The keyword index of plain (regular or global) abbreviations of `abbrs`.
pub open spec fn plain_of(abbrs: Seq<Abbreviation>, global: bool) -> Map<Seq<char>, CompiledAbbr> {
    if global {
        global_of(abbrs)
    } else {
        regular_of(abbrs)
    }
}

/// A regular or global abbreviation can be looked up by its keyword exactly
/// when one was declared with that keyword, and the lookup gives the last one
/// declared.
pub proof fn lemma_plain_lookup_is_last_declared(abbrs: Seq<Abbreviation>, global: bool, k: Seq<char>)
    ensures
        plain_of(abbrs, global).dom().contains(k) <==> exists|i: int|
            is_last_declared(abbrs, global, k, i),
        forall|i: int|
            is_last_declared(abbrs, global, k, i) ==> plain_of(abbrs, global)[k] == compile_spec(
                #[trigger] abbrs[i],
            ),
    decreases abbrs.len(),
{
    if abbrs.len() > 0 {
        let pre = abbrs.drop_last();
        let a = abbrs.last();
        let n = abbrs.len() - 1;
        lemma_plain_lookup_is_last_declared(pre, global, k);
        if a.context is None && a.global == global && a.keyword@ == k {
            assert(is_last_declared(abbrs, global, k, n));
            assert forall|i: int| is_last_declared(abbrs, global, k, i) implies i == n by {
                if i < n {
                    assert(!(abbrs[n].context is None && abbrs[n].global == global
                        && abbrs[n].keyword@ == k));
                }
            }
        } else {
            assert forall|i: int| is_last_declared(abbrs, global, k, i) implies is_last_declared(
                pre,
                global,
                k,
                i,
            ) by {
                if i == n {
                    assert(abbrs[n] == a);
                }
                assert forall|j: int| i < j < pre.len() implies !((#[trigger] pre[j]).context is None
                    && pre[j].global == global && pre[j].keyword@ == k) by {
                    assert(pre[j] == abbrs[j]);
                }
                assert(pre[i] == abbrs[i]);
            }
            assert forall|i: int| is_last_declared(pre, global, k, i) implies is_last_declared(
                abbrs,
                global,
                k,
                i,
            ) by {
                assert forall|j: int| i < j < abbrs.len() implies !((#[trigger] abbrs[j]).context
                    is None && abbrs[j].global == global && abbrs[j].keyword@ == k) by {
                    if j < n {
                        assert(pre[j] == abbrs[j]);
                    }
                }
                assert(pre[i] == abbrs[i]);
            }
        }
    }
}

/// The contextual abbreviations of `abbrs` with keyword `k`, compiled, in
/// order of declaration.
pub open spec fn contextual_declared(abbrs: Seq<Abbreviation>, k: Seq<char>) -> Seq<CompiledAbbr>
    decreases abbrs.len(),
{
    if abbrs.len() == 0 {
        Seq::empty()
    } else {
        let prev = contextual_declared(abbrs.drop_last(), k);
        let a = abbrs.last();
        if a.context is Some && a.keyword@ == k {
            prev.push(compile_spec(a))
        } else {
            prev
        }
    }
}

/// The contextual list of a keyword holds exactly the contextual
/// abbreviations declared with it, in order of declaration; a keyword without
/// any has no list.
pub proof fn lemma_contextual_lookup_is_declared(abbrs: Seq<Abbreviation>, k: Seq<char>)
    ensures
        contextual_of(abbrs).dom().contains(k) <==> contextual_declared(abbrs, k).len() > 0,
        contextual_of(abbrs).dom().contains(k) ==> contextual_of(abbrs)[k] == contextual_declared(
            abbrs,
            k,
        ),
    decreases abbrs.len(),
{
    if abbrs.len() > 0 {
        lemma_contextual_lookup_is_declared(abbrs.drop_last(), k);
    }
}

/// Whether an abbreviation with this keyword is declared in `abbrs`.
pub fn keyword_declared(abbrs: &[Abbreviation], keyword: &str) -> (r: bool)
    ensures
        r == exists|i: int| 0 <= i < abbrs@.len() && (#[trigger] abbrs@[i]).keyword@ == keyword@,
{
    let n = abbrs.len();
    let k = crate::text::to_owned_string(keyword);
    let mut i: usize = 0;
    while i < n
        invariant
            0 <= i <= n == abbrs@.len(),
            k@ == keyword@,
            forall|j: int| 0 <= j < i ==> (#[trigger] abbrs@[j]).keyword@ != keyword@,
        decreases n - i,
    {
        if abbrs[i].keyword == k {
            return true;
        }
        i = i + 1;
    }
    false
}

} // verus!
