use vstd::prelude::*;
use crate::error::{AdapterError, ValidError};
use crate::metric::JsonMetric;
use crate::name::{NonEmpty, spec_trimmed};

verus! {

/// Entry `i` of a raw pair sequence has a name that is blank after trimming.
pub open spec fn entry_blank(ps: Seq<(Seq<char>, JsonMetric)>, i: int) -> bool {
    spec_trimmed(ps[i].0).len() == 0
}

/// Entry `i` resolves to the same canonical name as an earlier entry.
pub open spec fn entry_dup(ps: Seq<(Seq<char>, JsonMetric)>, i: int) -> bool {
    exists|j: int| 0 <= j < i && spec_trimmed(#[trigger] ps[j].0) == spec_trimmed(ps[i].0)
}

/// The first `n` entries all pass validation and are pairwise distinct.
pub open spec fn clean_prefix(ps: Seq<(Seq<char>, JsonMetric)>, n: int) -> bool {
    forall|i: int| #![trigger ps[i]] 0 <= i < n ==> !entry_blank(ps, i) && !entry_dup(ps, i)
}

/// The collection a fully valid pair sequence builds: each name trimmed,
/// records and order kept.
pub open spec fn built_seq(ps: Seq<(Seq<char>, JsonMetric)>) -> Seq<(Seq<char>, JsonMetric)> {
    ps.map(|i: int, p: (Seq<char>, JsonMetric)| (spec_trimmed(p.0), p.1))
}

/// `e` is the error owed for the violation at entry `i`: blank names are
/// reported before duplicates, and the error carries the offending name.
pub open spec fn violation_at(
    ps: Seq<(Seq<char>, JsonMetric)>,
    i: int,
    e: AdapterError,
) -> bool {
    if entry_blank(ps, i) {
        e matches AdapterError::Validation(v) && (v matches ValidError::NonEmpty(s) && s@
            == ps[i].0)
    } else {
        entry_dup(ps, i) && (e matches AdapterError::DuplicateBenchmarkName(s) && s@
            == spec_trimmed(ps[i].0))
    }
}

/// Full behaviour of bulk construction: success exactly when every entry is
/// clean, and otherwise the error of the first violating entry (fail-fast,
/// never a partial collection).
pub open spec fn from_pairs_post(
    ps: Seq<(Seq<char>, JsonMetric)>,
    r: Result<AdapterResults, AdapterError>,
) -> bool {
    match r {
        Ok(c) => clean_prefix(ps, ps.len() as int) && c.wf() && c@ == built_seq(ps),
        Err(e) => exists|i: int|
            #![auto]
            0 <= i < ps.len() && clean_prefix(ps, i) && violation_at(ps, i, e),
    }
}

proof fn lemma_clean_prefix_extend(ps: Seq<(Seq<char>, JsonMetric)>, n: int)
    requires
        0 <= n,
        clean_prefix(ps, n),
        !entry_blank(ps, n),
        !entry_dup(ps, n),
    ensures
        clean_prefix(ps, n + 1),
{
    assert forall|k: int| #![trigger ps[k]] 0 <= k < n + 1 implies !entry_blank(ps, k)
        && !entry_dup(ps, k) by {
        if k < n {
            assert(!entry_blank(ps, k) && !entry_dup(ps, k));
        }
    }
}

/// An ordered mapping from canonical benchmark name to metric record, in
/// insertion order; names are unique.
#[derive(Debug, Clone, PartialEq, Eq)]
pub struct AdapterResults {
    pub inner: Vec<(NonEmpty, JsonMetric)>,
}

impl View for AdapterResults {
    type V = Seq<(Seq<char>, JsonMetric)>;

    open spec fn view(&self) -> Seq<(Seq<char>, JsonMetric)> {
        self.inner@.map(|i: int, p: (NonEmpty, JsonMetric)| (p.0@, p.1))
    }
}

impl AdapterResults {
    /// Names are valid and pairwise distinct, records well-formed.
    pub open spec fn wf(self) -> bool {
        &&& forall|i: int|
            0 <= i < self.inner@.len() ==> (#[trigger] self.inner@[i]).0.wf()
                && self.inner@[i].1.wf()
        &&& forall|i: int, j: int|
            0 <= i < j < self@.len() ==> (#[trigger] self@[i]).0 != (#[trigger] self@[j]).0
    }

    /// An empty collection.
    pub fn empty() -> (r: AdapterResults)
        ensures
            r@ =~= Seq::<(Seq<char>, JsonMetric)>::empty(),
            r.wf(),
    {
        AdapterResults { inner: Vec::new() }
    }

    /// Number of benchmark entries.
    pub fn len(&self) -> (r: usize)
        ensures
            r == self@.len(),
    {
        self.inner.len()
    }

    fn contains_name(&self, name: &NonEmpty) -> (r: bool)
        ensures
            r == exists|i: int| 0 <= i < self@.len() && (#[trigger] self@[i]).0 == name@,
    {
        let n: usize = self.inner.len();
        let mut i: usize = 0;
        while i < n
            invariant
                n == self.inner@.len(),
                0 <= i <= n,
                forall|k: int| 0 <= k < i ==> (#[trigger] self@[k]).0 != name@,
            decreases n - i,
        {
            if self.inner[i].0.eq_name(name) {
                assert(self@[i as int].0 == name@);
                return true;
            }
            i = i + 1;
        }
        false
    }

    /// Adds one entry; a duplicate canonical name is rejected and leaves the
    /// collection unchanged.
    pub fn insert(&mut self, name: NonEmpty, metric: JsonMetric) -> (r: Result<(), AdapterError>)
        requires
            old(self).wf(),
            name.wf(),
            metric.wf(),
        ensures
            match r {
                Ok(()) => {
                    &&& final(self)@ == old(self)@.push((name@, metric))
                    &&& final(self).wf()
                    &&& !(exists|i: int|
                        0 <= i < old(self)@.len() && (#[trigger] old(self)@[i]).0 == name@)
                },
                Err(e) => {
                    &&& *final(self) == *old(self)
                    &&& exists|i: int|
                        0 <= i < old(self)@.len() && (#[trigger] old(self)@[i]).0 == name@
                    &&& e matches AdapterError::DuplicateBenchmarkName(s) && s@ == name@
                },
            },
    {
        if self.contains_name(&name) {
            return Err(AdapterError::DuplicateBenchmarkName(String::from_str(name.as_str())));
        }
        let ghost pre = self.inner@;
        self.inner.push((name, metric));
        proof {
            assert(self@ =~= pre.map(|i: int, p: (NonEmpty, JsonMetric)| (p.0@, p.1)).push(
                (name@, metric),
            ));
        }
        Ok(())
    }

    /// Looks a record up by canonical name.
    pub fn get(&self, name: &str) -> (r: Option<&JsonMetric>)
        ensures
            match r {
                Some(m) => exists|i: int|
                    0 <= i < self@.len() && (#[trigger] self@[i]).0 == name@ && self@[i].1 == *m,
                None => forall|i: int| 0 <= i < self@.len() ==> (#[trigger] self@[i]).0 != name@,
            },
    {
        let n: usize = self.inner.len();
        let mut i: usize = 0;
        while i < n
            invariant
                n == self.inner@.len(),
                0 <= i <= n,
                forall|k: int| 0 <= k < i ==> (#[trigger] self@[k]).0 != name@,
            decreases n - i,
        {
            if self.inner[i].0.matches_str(name) {
                assert(self@[i as int].0 == name@);
                return Some(&self.inner[i].1);
            }
            i = i + 1;
        }
        None
    }

    /// Bulk constructor: validates every name, converts nothing, and inherits
    /// the duplicate-rejection rule, failing the whole construction on the
    /// first violation.
    pub fn from_pairs(pairs: Vec<(String, JsonMetric)>) -> (r: Result<
        AdapterResults,
        AdapterError,
    >)
        requires
            forall|i: int| 0 <= i < pairs@.len() ==> (#[trigger] pairs@[i]).1.wf(),
        ensures
            from_pairs_post(pairs@.map(|i: int, p: (String, JsonMetric)| (p.0@, p.1)), r),
    {
        let ghost ps: Seq<(Seq<char>, JsonMetric)> = pairs@.map(
            |i: int, p: (String, JsonMetric)| (p.0@, p.1),
        );
        let n: usize = pairs.len();
        let mut c = AdapterResults::empty();
        let mut i: usize = 0;
        while i < n
            invariant
                n == pairs@.len(),
                ps == pairs@.map(|k: int, p: (String, JsonMetric)| (p.0@, p.1)),
                forall|k: int| 0 <= k < pairs@.len() ==> (#[trigger] pairs@[k]).1.wf(),
                0 <= i <= n,
                clean_prefix(ps, i as int),
                c.wf(),
                c@ == built_seq(ps.take(i as int)),
            decreases n - i,
        {
            assert(ps[i as int] == (pairs@[i as int].0@, pairs@[i as int].1));
            match NonEmpty::from_raw(pairs[i].0.as_str()) {
                Err(v) => {
                    proof {
                        assert(entry_blank(ps, i as int));
                        assert(violation_at(ps, i as int, AdapterError::Validation(v)));
                    }
                    return Err(AdapterError::Validation(v));
                },
                Ok(name) => {
                    let metric = pairs[i].1;
                    match c.insert(name, metric) {
                        Err(e) => {
                            proof {
                                let w = choose|w: int|
                                    0 <= w < built_seq(ps.take(i as int)).len() && (
                                    #[trigger] built_seq(ps.take(i as int))[w]).0 == name@;
                                assert(built_seq(ps.take(i as int))[w].0 == spec_trimmed(
                                    ps[w].0,
                                ));
                                assert(entry_dup(ps, i as int));
                                assert(!entry_blank(ps, i as int));
                                assert(violation_at(ps, i as int, e));
                            }
                            return Err(e);
                        },
                        Ok(()) => {
                            proof {
                                assert forall|j: int| 0 <= j < i implies spec_trimmed(
                                    #[trigger] ps[j].0,
                                ) != spec_trimmed(ps[i as int].0) by {
                                    assert(built_seq(ps.take(i as int))[j].0 == spec_trimmed(
                                        ps[j].0,
                                    ));
                                }
                                assert(!entry_dup(ps, i as int));
                                assert(!entry_blank(ps, i as int));
                                assert(c@ =~= built_seq(ps.take(i + 1)));
                                lemma_clean_prefix_extend(ps, i as int);
                                assert(clean_prefix(ps, i + 1));
                            }
                        },
                    }
                },
            }
            i = i + 1;
        }
        proof {
            assert(ps.take(n as int) =~= ps);
        }
        Ok(c)
    }
}

/// Duplicate rejection: a pair sequence whose second entry resolves to the
/// same canonical name as its first is rejected with the duplicate error,
/// whatever the two records hold.
pub proof fn lemma_duplicate_rejected(
    ps: Seq<(Seq<char>, JsonMetric)>,
    r: Result<AdapterResults, AdapterError>,
)
    requires
        ps.len() == 2,
        spec_trimmed(ps[0].0).len() > 0,
        spec_trimmed(ps[1].0) == spec_trimmed(ps[0].0),
        from_pairs_post(ps, r),
    ensures
        r matches Err(e) && (e matches AdapterError::DuplicateBenchmarkName(s) && s@
            == spec_trimmed(ps[0].0)),
{
    assert(entry_dup(ps, 1));
    match r {
        Ok(_) => {
            assert(!entry_dup(ps, 1));
        },
        Err(e) => {
            let i = choose|i: int|
                #![auto]
                0 <= i < ps.len() && clean_prefix(ps, i) && violation_at(ps, i, e);
            assert(!entry_blank(ps, 0) && !entry_dup(ps, 0));
            assert(i == 1);
        },
    }
}

/// Fail-fast ordering: when a valid entry is followed by one whose name is
/// blank, construction fails with the validation error for the blank entry;
/// no partial collection carrying the first entry is returned.
pub proof fn lemma_fail_fast_on_blank(
    ps: Seq<(Seq<char>, JsonMetric)>,
    r: Result<AdapterResults, AdapterError>,
)
    requires
        ps.len() == 2,
        spec_trimmed(ps[0].0).len() > 0,
        spec_trimmed(ps[1].0).len() == 0,
        from_pairs_post(ps, r),
    ensures
        r matches Err(e) && (e matches AdapterError::Validation(v) && (v
            matches ValidError::NonEmpty(s) && s@ == ps[1].0)),
{
    assert(entry_blank(ps, 1));
    match r {
        Ok(_) => {
            assert(clean_prefix(ps, 2));
            assert(!entry_dup(ps, 1));
            assert(!entry_blank(ps, 1));
        },
        Err(e) => {
            let i = choose|i: int|
                #![auto]
                0 <= i < ps.len() && clean_prefix(ps, i) && violation_at(ps, i, e);
            assert(!entry_blank(ps, 0) && !entry_dup(ps, 0));
            assert(i == 1);
        },
    }
}

} // verus!
