//! Per-file analysis: query caching, capture tallying, and the
//! resolve-compile-parse-count pipeline for one file's content.

use vstd::prelude::*;
use crate::counts::{count_of, CaptureCounts};
use crate::errors::AnalyzeError;
use crate::language::{spec_resolve, Capabilities, Language};
use crate::ts;

verus! {

/// How many entries of a capture-index list equal `v`.
pub open spec fn spec_count_eq(s: Seq<u32>, v: int) -> nat
    decreases s.len(),
{
    if s.len() == 0 {
        0
    } else {
        spec_count_eq(s.drop_last(), v) + (if s.last() as int == v {
            1nat
        } else {
            0nat
        })
    }
}

/// The sum of a tally list.
pub open spec fn spec_tally_sum(s: Seq<usize>) -> nat
    decreases s.len(),
{
    if s.len() == 0 {
        0
    } else {
        spec_tally_sum(s.drop_last()) + s.last() as nat
    }
}

/// The capture-count mapping that a list of capture names and their tallies
/// denotes: each name's count is the sum of the tallies at its positions, and
/// a name whose tallies are all zero is absent, never a zero entry.
pub open spec fn spec_counts_from(names: Seq<Seq<char>>, tallies: Seq<usize>) -> Map<
    Seq<char>,
    nat,
>
    decreases names.len(),
{
    if names.len() == 0 || tallies.len() != names.len() {
        Map::empty()
    } else {
        let m = spec_counts_from(names.drop_last(), tallies.drop_last());
        if tallies.last() == 0 {
            m
        } else {
            m.insert(names.last(), count_of(m, names.last()) + tallies.last() as nat)
        }
    }
}

/// The dense tally list a capture-index list denotes: one slot per capture
/// index, slot `c` holding how often `c` occurs.
pub open spec fn spec_tallies(idxs: Seq<u32>, n: nat) -> Seq<usize> {
    Seq::new(n, |c: int| spec_count_eq(idxs, c) as usize)
}

/// The compiled query that a language's fixed grammar and query source yield.
pub open spec fn spec_query_of(lang: Language) -> Option<tree_sitter::Query> {
    ts::compiled_query(ts::grammar_of(lang), lang.spec_query_source())
}

proof fn lemma_counts_from_entries(names: Seq<Seq<char>>, tallies: Seq<usize>, k: Seq<char>)
    requires
        names.len() == tallies.len(),
        spec_counts_from(names, tallies).contains_key(k),
    ensures
        spec_counts_from(names, tallies)[k] >= 1,
        names.contains(k),
    decreases names.len(),
{
    if names.len() == 0 {
    } else if tallies.last() != 0 && k == names.last() {
        assert(names[names.len() - 1] == k);
    } else {
        lemma_counts_from_entries(names.drop_last(), tallies.drop_last(), k);
        let i = choose|i: int| 0 <= i < names.drop_last().len() && names.drop_last()[i] == k;
        assert(names[i] == k);
    }
}

proof fn lemma_tally_sum_update(s: Seq<usize>, i: int, v: usize)
    requires
        0 <= i < s.len(),
    ensures
        spec_tally_sum(s.update(i, v)) == spec_tally_sum(s) - s[i] + v,
    decreases s.len(),
{
    let t = s.update(i, v);
    if i == s.len() - 1 {
        assert(t.drop_last() =~= s.drop_last());
    } else {
        assert(t.drop_last() =~= s.drop_last().update(i, v));
        lemma_tally_sum_update(s.drop_last(), i, v);
        assert(t.last() == s.last());
    }
}

proof fn lemma_counts_from_bound(names: Seq<Seq<char>>, tallies: Seq<usize>, k: Seq<char>)
    requires
        names.len() == tallies.len(),
    ensures
        count_of(spec_counts_from(names, tallies), k) <= spec_tally_sum(tallies),
    decreases names.len(),
{
    if names.len() > 0 {
        lemma_counts_from_bound(names.drop_last(), tallies.drop_last(), k);
    }
}

proof fn lemma_counts_from_prefix(names: Seq<Seq<char>>, tallies: Seq<usize>, j: int, k: Seq<char>)
    requires
        names.len() == tallies.len(),
        0 <= j <= names.len(),
    ensures
        count_of(
            spec_counts_from(names.subrange(0, j), tallies.subrange(0, j)),
            k,
        ) <= count_of(spec_counts_from(names, tallies), k),
    decreases names.len(),
{
    if j == names.len() {
        assert(names.subrange(0, j) =~= names);
        assert(tallies.subrange(0, j) =~= tallies);
    } else {
        assert(names.subrange(0, j) =~= names.drop_last().subrange(0, j));
        assert(tallies.subrange(0, j) =~= tallies.drop_last().subrange(0, j));
        lemma_counts_from_prefix(names.drop_last(), tallies.drop_last(), j, k);
    }
}

/// Tally how many capture occurrences each capture index received. The result
/// has one slot per capture index; slot `c` is the number of times `c` occurs
/// in `indices`.
pub fn capture_counts(indices: &Vec<u32>, num_captures: usize) -> (r: Vec<usize>)
    requires
        forall|i: int| 0 <= i < indices@.len() ==> (indices@[i] as int) < num_captures,
    ensures
        r@.len() == num_captures as int,
        forall|c: int| 0 <= c < num_captures ==> r@[c] as nat == spec_count_eq(indices@, c),
        spec_tally_sum(r@) == indices@.len(),
{
    let mut r: Vec<usize> = Vec::new();
    let mut z: usize = 0;
    while z < num_captures
        invariant
            z <= num_captures,
            r@.len() == z as int,
            forall|c: int| 0 <= c < z ==> r@[c] == 0,
            spec_tally_sum(r@) == 0,
        decreases num_captures - z,
    {
        proof {
            assert(r@.push(0usize).drop_last() =~= r@);
        }
        r.push(0);
        z = z + 1;
    }
    proof {
        assert(indices@.subrange(0, 0) =~= Seq::<u32>::empty());
    }
    let n = indices.len();
    let mut i: usize = 0;
    while i < n
        invariant
            i <= n,
            n == indices@.len(),
            r@.len() == num_captures as int,
            forall|j: int| 0 <= j < n ==> (indices@[j] as int) < num_captures,
            forall|c: int|
                0 <= c < num_captures ==> r@[c] as nat == spec_count_eq(
                    indices@.subrange(0, i as int),
                    c,
                ),
            forall|c: int| 0 <= c < num_captures ==> r@[c] <= i,
            spec_tally_sum(r@) == i as nat,
        decreases n - i,
    {
        let idx = indices[i] as usize;
        let v = r[idx];
        proof {
            lemma_tally_sum_update(r@, idx as int, (v + 1) as usize);
            assert(indices@.subrange(0, i + 1).drop_last() =~= indices@.subrange(0, i as int));
        }
        r.set(idx, v + 1);
        i = i + 1;
    }
    proof {
        assert(indices@.subrange(0, n as int) =~= indices@);
    }
    r
}

/// Build a capture-count mapping from capture names and their tallies. A name
/// with a zero tally contributes nothing; tallies of a repeated name sum.
pub fn counts_from_names(names: &Vec<String>, tallies: &Vec<usize>) -> (r: CaptureCounts)
    requires
        names@.len() == tallies@.len(),
        forall|k: Seq<char>|
            #[trigger] count_of(spec_counts_from(names.deep_view(), tallies@), k) <= usize::MAX,
    ensures
        r.wf(),
        r@ == spec_counts_from(names.deep_view(), tallies@),
{
    let mut acc = CaptureCounts::new();
    let n = names.len();
    let mut i: usize = 0;
    proof {
        assert(names.deep_view().subrange(0, 0) =~= Seq::<Seq<char>>::empty());
        assert(tallies@.subrange(0, 0) =~= Seq::<usize>::empty());
    }
    while i < n
        invariant
            i <= n,
            n == names@.len(),
            names@.len() == tallies@.len(),
            names.deep_view().len() == names@.len(),
            acc.wf(),
            acc@ == spec_counts_from(
                names.deep_view().subrange(0, i as int),
                tallies@.subrange(0, i as int),
            ),
            forall|k: Seq<char>|
                #[trigger] count_of(spec_counts_from(names.deep_view(), tallies@), k)
                    <= usize::MAX,
        decreases n - i,
    {
        let ghost dn = names.deep_view();
        let ghost dt = tallies@;
        proof {
            assert(dn.subrange(0, i + 1).drop_last() =~= dn.subrange(0, i as int));
            assert(dt.subrange(0, i + 1).drop_last() =~= dt.subrange(0, i as int));
            assert(dn[i as int] == names@[i as int]@);
        }
        let t = tallies[i];
        if t > 0 {
            let name = names[i].clone();
            proof {
                lemma_counts_from_prefix(dn, dt, i + 1, name@);
                assert(spec_counts_from(dn.subrange(0, i + 1), dt.subrange(0, i + 1))
                    == acc@.insert(name@, count_of(acc@, name@) + t as nat));
                assert(count_of(acc@.insert(name@, count_of(acc@, name@) + t as nat), name@)
                    == count_of(acc@, name@) + t as nat);
            }
            acc.add(name, t);
        }
        i = i + 1;
    }
    proof {
        assert(names.deep_view().subrange(0, n as int) =~= names.deep_view());
        assert(tallies@.subrange(0, n as int) =~= tallies@);
    }
    acc
}

/// The process-wide cache of compiled queries: one slot per language, each
/// built at most once and read-only thereafter. Concurrent use goes through
/// whatever synchronization the caller wraps the cache in; the build-at-most-
/// once bookkeeping itself is here.
pub struct QueryCache {
    python: Option<tree_sitter::Query>,
    rust: Option<tree_sitter::Query>,
}

impl QueryCache {
    /// The entry stored for a language, if one was built.
    pub closed spec fn spec_entry(self, lang: Language) -> Option<tree_sitter::Query> {
        match lang {
            Language::Python => self.python,
            Language::Rust => self.rust,
        }
    }

    /// Whether the language's query has been built.
    pub open spec fn spec_has(self, lang: Language) -> bool {
        self.spec_entry(lang) is Some
    }

    /// The compiled query stored for a language.
    pub open spec fn spec_query(self, lang: Language) -> tree_sitter::Query
        recommends
            self.spec_has(lang),
    {
        self.spec_entry(lang)->Some_0
    }

    /// Every entry the cache holds is its own language's compiled query.
    pub open spec fn wf(self) -> bool {
        forall|l: Language|
            #[trigger] self.spec_has(l) ==> Some(self.spec_query(l)) == spec_query_of(l)
    }

    /// A cold cache, with no query built yet.
    pub fn new() -> (r: QueryCache)
        ensures
            forall|l: Language| !r.spec_has(l),
            r.wf(),
    {
        QueryCache { python: None, rust: None }
    }

    pub fn has(&self, lang: Language) -> (r: bool)
        ensures
            r == self.spec_has(lang),
    {
        match lang {
            Language::Python => self.python.is_some(),
            Language::Rust => self.rust.is_some(),
        }
    }

    /// Make sure the language's query is built, building it at most once:
    /// a cache that already holds the entry is left exactly as it was, so a
    /// second request can never rebuild or replace a compiled query. Other
    /// languages' entries are never touched. Fails only when the capability
    /// set lacks the language or the query source does not compile.
    pub fn get_or_build(&mut self, lang: Language, caps: &Capabilities) -> (r: Result<
        (),
        AnalyzeError,
    >)
        requires
            old(self).wf(),
        ensures
            final(self).wf(),
            old(self).spec_has(lang) ==> (r is Ok && *final(self) == *old(self)),
            r is Ok ==> final(self).spec_has(lang),
            r is Ok ==> Some(final(self).spec_query(lang)) == spec_query_of(lang),
            r is Err ==> *final(self) == *old(self),
            forall|l: Language|
                l != lang ==> #[trigger] final(self).spec_entry(l) == old(self).spec_entry(l),
            !old(self).spec_has(lang) && !caps.spec_has(lang) ==> r == Err::<(), AnalyzeError>(
                AnalyzeError::CapabilityMissing(lang),
            ),
            !old(self).spec_has(lang) && caps.spec_has(lang) ==> (r is Ok <==> spec_query_of(
                lang,
            ) is Some),
            caps.spec_has(lang) ==> (r is Ok || r == Err::<(), AnalyzeError>(
                AnalyzeError::QueryBuild(lang),
            )),
    {
        if self.has(lang) {
            return Ok(());
        }
        let grammar = match lang.tree_sitter_language(caps) {
            Ok(g) => g,
            Err(e) => { return Err(e) },
        };
        let source = match lang.queries(caps) {
            Ok(s) => s,
            Err(e) => { return Err(e) },
        };
        match ts::compile_query(grammar, source) {
            Some(q) => {
                let ghost gq = q;
                match lang {
                    Language::Python => {
                        self.python = Some(q);
                    },
                    Language::Rust => {
                        self.rust = Some(q);
                    },
                }
                proof {
                    assert(self.spec_entry(lang) == Some(gq));
                    assert(Some(gq) == spec_query_of(lang));
                    assert forall|l: Language| #[trigger] self.spec_has(l) implies Some(
                        self.spec_query(l),
                    ) == spec_query_of(l) by {
                        if l != lang {
                            assert(self.spec_entry(l) == old(self).spec_entry(l));
                            assert(old(self).spec_has(l));
                        } else {
                            assert(self.spec_query(l) == gq);
                        }
                    }
                }
                Ok(())
            },
            None => Err(AnalyzeError::QueryBuild(lang)),
        }
    }

    /// Borrow the compiled query stored for a language.
    pub fn get(&self, lang: Language) -> (r: &tree_sitter::Query)
        requires
            self.spec_has(lang),
        ensures
            *r == self.spec_query(lang),
    {
        match lang {
            Language::Python => match &self.python {
                Some(q) => q,
                None => unreached(),
            },
            Language::Rust => match &self.rust {
                Some(q) => q,
                None => unreached(),
            },
        }
    }
}

/// Analyze one file's content: resolve the language from the path, check the
/// capability set, fetch or build the compiled query, parse the content, run
/// the query and tally occurrences per capture name. Every failure is a typed,
/// file-level error. The result is a function of the content and the
/// language's fixed query alone, and is pinned to the named outside results;
/// the cache's only possible change is gaining the resolved language's entry,
/// and an entry it already holds is never rebuilt or replaced.
pub fn parse_file(path: &str, code: &str, caps: &Capabilities, cache: &mut QueryCache) -> (r:
    Result<CaptureCounts, AnalyzeError>)
    requires
        old(cache).wf(),
    ensures
        final(cache).wf(),
        spec_resolve(path@) matches Err(e) ==> r == Err::<CaptureCounts, AnalyzeError>(e),
        spec_resolve(path@) matches Ok(l) ==> (!caps.spec_has(l) ==> r == Err::<
            CaptureCounts,
            AnalyzeError,
        >(AnalyzeError::CapabilityMissing(l))),
        spec_resolve(path@) matches Ok(l) ==> (caps.spec_has(l) ==> (r is Ok || r == Err::<
            CaptureCounts,
            AnalyzeError,
        >(AnalyzeError::QueryBuild(l)) || r == Err::<CaptureCounts, AnalyzeError>(
            AnalyzeError::Parse,
        ))),
        spec_resolve(path@) matches Ok(l) ==> (caps.spec_has(l) ==> ((spec_query_of(l) is None
            ==> r == Err::<CaptureCounts, AnalyzeError>(AnalyzeError::QueryBuild(l)))
            && (spec_query_of(l) matches Some(q) ==> ((ts::match_indices(
            ts::grammar_of(l),
            q,
            code@,
        ) is None ==> r == Err::<CaptureCounts, AnalyzeError>(AnalyzeError::Parse))
            && (ts::match_indices(ts::grammar_of(l), q, code@) matches Some(idxs) ==> (r is Ok
            && r->Ok_0@ == spec_counts_from(
            ts::query_capture_labels(q),
            spec_tallies(idxs, ts::query_capture_labels(q).len()),
        ))))))),
        r is Ok ==> spec_resolve(path@) is Ok && caps.spec_has(spec_resolve(path@)->Ok_0)
            && final(cache).spec_has(spec_resolve(path@)->Ok_0),
        r matches Ok(c) ==> c.wf(),
        r matches Ok(c) ==> forall|k: Seq<char>| #[trigger] c@.contains_key(k) ==> c@[k] >= 1,
        r matches Ok(c) ==> forall|k: Seq<char>|
            #[trigger] c@.contains_key(k) ==> ts::query_capture_labels(
                spec_query_of(spec_resolve(path@)->Ok_0)->Some_0,
            ).contains(k),
        forall|l: Language|
            old(cache).spec_has(l) ==> #[trigger] final(cache).spec_entry(l)
                == old(cache).spec_entry(l),
        forall|l: Language|
            spec_resolve(path@) != Ok::<Language, AnalyzeError>(l)
                ==> #[trigger] final(cache).spec_entry(l) == old(cache).spec_entry(l),
{
    let lang = match Language::resolve(path) {
        Ok(l) => l,
        Err(e) => { return Err(e) },
    };
    if !caps.has(lang) {
        return Err(AnalyzeError::CapabilityMissing(lang));
    }
    match cache.get_or_build(lang, caps) {
        Ok(u) => u,
        Err(e) => { return Err(e) },
    };
    let grammar = match lang.tree_sitter_language(caps) {
        Ok(g) => g,
        Err(e) => { return Err(e) },
    };
    let q = cache.get(lang);
    proof {
        assert(Some(*q) == spec_query_of(lang));
    }
    let names = ts::capture_names(q);
    let idxs = match ts::run_query(grammar, q, code) {
        Some(v) => v,
        None => { return Err(AnalyzeError::Parse) },
    };
    let num = names.len();
    proof {
        assert(names.deep_view().len() == names@.len());
        assert(forall|i: int| 0 <= i < idxs@.len() ==> (idxs@[i] as int) < num as int);
    }
    let tallies = capture_counts(&idxs, num);
    let ilen = idxs.len();
    proof {
        assert(spec_tally_sum(tallies@) == ilen as nat);
        assert forall|k: Seq<char>|
            #[trigger] count_of(spec_counts_from(names.deep_view(), tallies@), k)
                <= usize::MAX by {
            lemma_counts_from_bound(names.deep_view(), tallies@, k);
        }
        // The exec tallies are exactly the named match result's dense tallies.
        assert forall|c: int| 0 <= c < num as int implies tallies@[c] == spec_tallies(
            idxs@,
            ts::query_capture_labels(*q).len(),
        )[c] by {
            assert(tallies@[c] as nat == spec_count_eq(idxs@, c));
        }
        assert(tallies@ =~= spec_tallies(idxs@, ts::query_capture_labels(*q).len()));
    }
    let counts = counts_from_names(&names, &tallies);
    proof {
        assert(counts@ == spec_counts_from(
            ts::query_capture_labels(*q),
            spec_tallies(idxs@, ts::query_capture_labels(*q).len()),
        ));
        assert forall|k: Seq<char>| #[trigger] counts@.contains_key(k) implies counts@[k] >= 1
            && ts::query_capture_labels(*q).contains(k) by {
            lemma_counts_from_entries(names.deep_view(), tallies@, k);
        }
    }
    Ok(counts)
}

} // verus!
