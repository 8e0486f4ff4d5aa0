//! Capture-count mappings and their order-independent aggregation.

use vstd::prelude::*;
use crate::errors::RunError;

verus! {

/// The count a mapping holds for a key, an absent key counting as zero.
pub open spec fn count_of(m: Map<Seq<char>, nat>, k: Seq<char>) -> nat {
    if m.contains_key(k) {
        m[k]
    } else {
        0
    }
}

/// The merge of two capture-count mappings: every key present in either side,
/// each key's count the sum of its counts in the two sides.
pub open spec fn merge_map(a: Map<Seq<char>, nat>, b: Map<Seq<char>, nat>) -> Map<
    Seq<char>,
    nat,
> {
    Map::new(
        |k: Seq<char>| a.contains_key(k) || b.contains_key(k),
        |k: Seq<char>| count_of(a, k) + count_of(b, k),
    )
}

/// Law: merging capture counts is commutative.
pub proof fn lemma_merge_comm(a: Map<Seq<char>, nat>, b: Map<Seq<char>, nat>)
    ensures
        merge_map(a, b) == merge_map(b, a),
{
    assert(merge_map(a, b) =~= merge_map(b, a));
}

/// Law: merging capture counts is associative and commutative, so an
/// aggregate's totals do not depend on the order in which per-file counts are
/// merged, nor on the shape of the reduction tree.
pub proof fn lemma_merge_order_independent(
    a: Map<Seq<char>, nat>,
    b: Map<Seq<char>, nat>,
    c: Map<Seq<char>, nat>,
)
    ensures
        merge_map(merge_map(a, b), c) == merge_map(a, merge_map(b, c)),
        merge_map(merge_map(a, b), c) == merge_map(merge_map(a, c), b),
{
    assert(merge_map(merge_map(a, b), c) =~= merge_map(a, merge_map(b, c)));
    assert(merge_map(merge_map(a, b), c) =~= merge_map(merge_map(a, c), b));
}

/// The mapping an association list denotes.
pub closed spec fn as_map(s: Seq<(String, usize)>) -> Map<Seq<char>, nat>
    decreases s.len(),
{
    if s.len() == 0 {
        Map::empty()
    } else {
        as_map(s.drop_last()).insert(s.last().0@, s.last().1 as nat)
    }
}

/// A capture-count mapping: capture name to a non-negative tally.
#[derive(Debug)]
pub struct CaptureCounts {
    entries: Vec<(String, usize)>,
}

impl View for CaptureCounts {
    type V = Map<Seq<char>, nat>;

    closed spec fn view(&self) -> Map<Seq<char>, nat> {
        as_map(self.entries@)
    }
}

proof fn lemma_as_map_contains(s: Seq<(String, usize)>, k: Seq<char>)
    ensures
        as_map(s).contains_key(k) <==> exists|i: int| 0 <= i < s.len() && s[i].0@ == k,
    decreases s.len(),
{
    if s.len() > 0 {
        lemma_as_map_contains(s.drop_last(), k);
        if s.last().0@ == k {
            assert(s[s.len() - 1].0@ == k);
        } else if as_map(s).contains_key(k) {
            let i = choose|i: int| 0 <= i < s.len() - 1 && s.drop_last()[i].0@ == k;
            assert(s[i].0@ == k);
        } else {
            assert(forall|i: int| 0 <= i < s.len() - 1 ==> s.drop_last()[i].0@ == s[i].0@);
        }
    }
}

proof fn lemma_as_map_lookup(s: Seq<(String, usize)>, i: int, k: Seq<char>)
    requires
        forall|p: int, q: int| 0 <= p < q < s.len() ==> s[p].0@ != s[q].0@,
        0 <= i < s.len(),
        s[i].0@ == k,
    ensures
        as_map(s).contains_key(k),
        as_map(s)[k] == s[i].1 as nat,
    decreases s.len(),
{
    if i == s.len() - 1 {
    } else {
        assert(s.last().0@ != k);
        lemma_as_map_lookup(s.drop_last(), i, k);
    }
}

proof fn lemma_as_map_update(s: Seq<(String, usize)>, i: int, p: (String, usize))
    requires
        forall|x: int, y: int| 0 <= x < y < s.len() ==> s[x].0@ != s[y].0@,
        0 <= i < s.len(),
        p.0@ == s[i].0@,
    ensures
        as_map(s.update(i, p)) == as_map(s).insert(p.0@, p.1 as nat),
    decreases s.len(),
{
    let t = s.update(i, p);
    if i == s.len() - 1 {
        assert(t.drop_last() =~= s.drop_last());
        assert(as_map(s).insert(p.0@, p.1 as nat) =~= as_map(s.drop_last()).insert(
            p.0@,
            p.1 as nat,
        ));
    } else {
        assert(t.drop_last() =~= s.drop_last().update(i, p));
        lemma_as_map_update(s.drop_last(), i, p);
        assert(t.last() == s.last());
        assert(s.last().0@ != p.0@);
        assert(as_map(s.drop_last()).insert(p.0@, p.1 as nat).insert(
            s.last().0@,
            s.last().1 as nat,
        ) =~= as_map(s.drop_last()).insert(s.last().0@, s.last().1 as nat).insert(
            p.0@,
            p.1 as nat,
        ));
    }
}

impl CaptureCounts {
    /// Keys are pairwise distinct, so the association list denotes its mapping
    /// unambiguously.
    pub closed spec fn wf(self) -> bool {
        forall|i: int, j: int|
            0 <= i < j < self.entries@.len() ==> self.entries@[i].0@ != self.entries@[j].0@
    }

    /// An empty mapping.
    pub fn new() -> (r: CaptureCounts)
        ensures
            r.wf(),
            r@ == Map::<Seq<char>, nat>::empty(),
    {
        CaptureCounts { entries: Vec::new() }
    }

    /// How many capture names hold a count.
    pub fn len(&self) -> (r: usize)
        requires
            self.wf(),
        ensures
            r as nat == self@.dom().len(),
    {
        proof {
            lemma_as_map_dom_len(self.entries@);
        }
        self.entries.len()
    }

    /// The count stored for a name, if any.
    pub fn get(&self, name: &String) -> (r: Option<usize>)
        requires
            self.wf(),
        ensures
            match r {
                Some(v) => self@.contains_key(name@) && self@[name@] == v as nat,
                None => !self@.contains_key(name@),
            },
    {
        let len = self.entries.len();
        let mut i: usize = 0;
        while i < len
            invariant
                0 <= i <= len,
                len == self.entries@.len(),
                self.wf(),
                forall|j: int| 0 <= j < i ==> self.entries@[j].0@ != name@,
            decreases len - i,
        {
            if self.entries[i].0 == *name {
                let v = self.entries[i].1;
                proof {
                    lemma_as_map_lookup(self.entries@, i as int, name@);
                }
                return Some(v);
            }
            i = i + 1;
        }
        proof {
            lemma_as_map_contains(self.entries@, name@);
        }
        None
    }

    /// Add `n` occurrences of `name`, summing with any count already held.
    pub fn add(&mut self, name: String, n: usize)
        requires
            old(self).wf(),
            count_of(old(self)@, name@) + n <= usize::MAX,
        ensures
            final(self).wf(),
            final(self)@ == old(self)@.insert(name@, (count_of(old(self)@, name@) + n) as nat),
    {
        let len = self.entries.len();
        let mut i: usize = 0;
        while i < len
            invariant
                0 <= i <= len,
                len == self.entries@.len(),
                *self == *old(self),
                self.wf(),
                count_of(old(self)@, name@) + n <= usize::MAX,
                forall|j: int| 0 <= j < i ==> self.entries@[j].0@ != name@,
            decreases len - i,
        {
            if self.entries[i].0 == name {
                let v = self.entries[i].1;
                proof {
                    lemma_as_map_lookup(self.entries@, i as int, name@);
                    assert(old(self)@.contains_key(name@));
                    assert(count_of(old(self)@, name@) == v as nat);
                }
                let total = v + n;
                proof {
                    lemma_as_map_update(self.entries@, i as int, (name, total));
                }
                self.entries.set(i, (name, total));
                return ;
            }
            i = i + 1;
        }
        proof {
            lemma_as_map_contains(self.entries@, name@);
            assert(self.entries@.push((name, n)).drop_last() =~= self.entries@);
        }
        self.entries.push((name, n));
    }

    /// The keys in storage order, one per entry.
    pub closed spec fn spec_key_seq(self) -> Seq<Seq<char>> {
        Seq::new(self.entries@.len(), |i: int| self.entries@[i].0@)
    }

    /// The keys in storage order are pairwise distinct and are exactly the
    /// mapping's domain.
    pub proof fn lemma_keys(&self)
        requires
            self.wf(),
        ensures
            self.spec_key_seq().len() == self@.dom().len(),
            forall|i: int, j: int|
                0 <= i < j < self.spec_key_seq().len() ==> self.spec_key_seq()[i]
                    != self.spec_key_seq()[j],
            forall|i: int|
                0 <= i < self.spec_key_seq().len() ==> self@.contains_key(
                    #[trigger] self.spec_key_seq()[i],
                ),
            forall|k: Seq<char>|
                #[trigger] self@.contains_key(k) ==> exists|i: int|
                    0 <= i < self.spec_key_seq().len() && self.spec_key_seq()[i] == k,
    {
        lemma_as_map_dom_len(self.entries@);
        assert forall|i: int|
            0 <= i < self.spec_key_seq().len() implies self@.contains_key(
            #[trigger] self.spec_key_seq()[i],
        ) by {
            lemma_as_map_contains(self.entries@, self.spec_key_seq()[i]);
        }
        assert forall|k: Seq<char>| #[trigger]
            self@.contains_key(k) implies exists|i: int|
            0 <= i < self.spec_key_seq().len() && self.spec_key_seq()[i] == k by {
            lemma_as_map_contains(self.entries@, k);
            let i = choose|i: int| 0 <= i < self.entries@.len() && self.entries@[i].0@ == k;
            assert(self.spec_key_seq()[i] == k);
        }
    }

    /// The entries as (name, count) pairs, in the mapping's storage order.
    pub fn entry_at(&self, i: usize) -> (r: (&String, usize))
        requires
            self.wf(),
            i < self@.dom().len(),
        ensures
            r.0@ == self.spec_key_seq()[i as int],
            self@.contains_key(r.0@),
            self@[r.0@] == r.1 as nat,
    {
        proof {
            lemma_as_map_dom_len(self.entries@);
            lemma_as_map_lookup(self.entries@, i as int, self.entries@[i as int].0@);
        }
        (&self.entries[i].0, self.entries[i].1)
    }
}

proof fn lemma_as_map_dom_len(s: Seq<(String, usize)>)
    requires
        forall|p: int, q: int| 0 <= p < q < s.len() ==> s[p].0@ != s[q].0@,
    ensures
        as_map(s).dom().len() == s.len(),
        as_map(s).dom().finite(),
    decreases s.len(),
{
    if s.len() > 0 {
        lemma_as_map_dom_len(s.drop_last());
        lemma_as_map_contains(s.drop_last(), s.last().0@);
        assert(!as_map(s.drop_last()).contains_key(s.last().0@));
        assert(as_map(s).dom() =~= as_map(s.drop_last()).dom().insert(s.last().0@));
    }
}

/// Merge two capture-count mappings: for every key in either input the result
/// holds the sum of that key's counts, an absent key counting as zero.
pub fn combine_counts(counts: CaptureCounts, new_counts: CaptureCounts) -> (r: CaptureCounts)
    requires
        counts.wf(),
        new_counts.wf(),
        forall|k: Seq<char>|
            #![trigger new_counts@.contains_key(k)]
            new_counts@.contains_key(k) ==> count_of(counts@, k) + count_of(new_counts@, k)
                <= usize::MAX,
    ensures
        r.wf(),
        r@ == merge_map(counts@, new_counts@),
{
    let mut acc = counts;
    let len = new_counts.entries.len();
    let ghost b = new_counts.entries@;
    let mut j: usize = 0;
    proof {
        assert(b.subrange(0, 0) =~= Seq::<(String, usize)>::empty());
        assert(merge_map(counts@, as_map(b.subrange(0, 0))) =~= counts@);
    }
    while j < len
        invariant
            0 <= j <= len,
            len == b.len(),
            b == new_counts.entries@,
            new_counts.wf(),
            acc.wf(),
            acc@ == merge_map(counts@, as_map(b.subrange(0, j as int))),
            forall|k: Seq<char>|
                #![trigger new_counts@.contains_key(k)]
                new_counts@.contains_key(k) ==> count_of(counts@, k) + count_of(new_counts@, k)
                    <= usize::MAX,
        decreases len - j,
    {
        let name = new_counts.entries[j].0.clone();
        let n = new_counts.entries[j].1;
        proof {
            lemma_as_map_lookup(b, j as int, name@);
            lemma_as_map_contains(b.subrange(0, j as int), name@);
            assert(!as_map(b.subrange(0, j as int)).contains_key(name@));
            assert(count_of(acc@, name@) == count_of(counts@, name@));
            assert(new_counts@.contains_key(name@) && new_counts@[name@] == n as nat);
        }
        let ghost acc_before = acc@;
        acc.add(name, n);
        proof {
            assert(b.subrange(0, j + 1).drop_last() =~= b.subrange(0, j as int));
            assert(as_map(b.subrange(0, j + 1)) == as_map(b.subrange(0, j as int)).insert(
                b[j as int].0@,
                b[j as int].1 as nat,
            ));
            assert(acc@ =~= merge_map(counts@, as_map(b.subrange(0, j + 1))));
        }
        j = j + 1;
    }
    proof {
        assert(b.subrange(0, len as int) =~= b);
    }
    acc
}

/// The cumulative aggregate of a directory run. It has no defined value until
/// at least one file's counts have been merged in; finishing an aggregate that
/// absorbed nothing is the distinct "no files to analyze" error, never an
/// empty table.
pub struct Aggregate {
    inner: Option<CaptureCounts>,
}

impl Aggregate {
    /// Whether at least one file's counts have been merged in.
    pub closed spec fn spec_started(self) -> bool {
        self.inner is Some
    }

    pub closed spec fn wf(self) -> bool {
        match self.inner {
            Some(c) => c.wf(),
            None => true,
        }
    }

    /// The mapping accumulated so far, if any file contributed.
    pub closed spec fn spec_counts(self) -> Map<Seq<char>, nat>
        recommends
            self.spec_started(),
    {
        self.inner->Some_0@
    }

    /// An aggregate that no file has contributed to.
    pub fn new() -> (r: Aggregate)
        ensures
            r.wf(),
            !r.spec_started(),
    {
        Aggregate { inner: None }
    }

    /// Merge one successfully analyzed file's counts into the aggregate.
    pub fn absorb(&mut self, c: CaptureCounts)
        requires
            old(self).wf(),
            c.wf(),
            old(self).spec_started() ==> forall|k: Seq<char>|
                #![trigger c@.contains_key(k)]
                c@.contains_key(k) ==> count_of(old(self).spec_counts(), k) + count_of(c@, k)
                    <= usize::MAX,
        ensures
            final(self).wf(),
            final(self).spec_started(),
            old(self).spec_started() ==> final(self).spec_counts() == merge_map(
                old(self).spec_counts(),
                c@,
            ),
            !old(self).spec_started() ==> final(self).spec_counts() == c@,
    {
        let prev = self.inner.take();
        match prev {
            Some(acc) => {
                self.inner = Some(combine_counts(acc, c));
            },
            None => {
                self.inner = Some(c);
            },
        }
    }

    /// Hand the aggregate over for reporting: the accumulated counts when at
    /// least one file contributed, the "no files" error otherwise.
    pub fn finish(self) -> (r: Result<CaptureCounts, RunError>)
        requires
            self.wf(),
        ensures
            self.spec_started() ==> (r matches Ok(c) && c.wf() && c@ == self.spec_counts()),
            !self.spec_started() ==> r == Err::<CaptureCounts, RunError>(RunError::NoFiles),
    {
        match self.inner {
            Some(c) => Ok(c),
            None => Err(RunError::NoFiles),
        }
    }
}

} // verus!
