use vstd::prelude::*;

verus! {

/// A project row, as far as listing it requires.
#[derive(Debug, PartialEq, Eq)]
pub struct QueryProject {
    pub id: i32,
    pub uuid: String,
    pub organization_id: i32,
    pub name: String,
    pub slug: String,
    pub public: bool,
}

impl Clone for QueryProject {
    fn clone(&self) -> (r: QueryProject)
        ensures
            r == *self,
    {
        QueryProject {
            id: self.id,
            uuid: self.uuid.clone(),
            organization_id: self.organization_id,
            name: self.name.clone(),
            slug: self.slug.clone(),
            public: self.public,
        }
    }
}

/// Who asks for a listing: nobody authenticated, or a user with an admin
/// flag and the list of project ids a policy check has granted.
#[derive(Debug, Clone, PartialEq, Eq)]
pub enum Viewer {
    Anonymous,
    User { admin: bool, permitted: Vec<i32> },
}

/// The listing rule: administrators see everything, an authenticated user
/// sees granted and public projects, and anybody else sees public ones.
pub open spec fn spec_visible(viewer: Viewer, p: QueryProject) -> bool {
    match viewer {
        Viewer::Anonymous => p.public,
        Viewer::User { admin, permitted } => admin || permitted@.contains(p.id) || p.public,
    }
}

/// Lexicographic order on character sequences.
pub open spec fn lex_le(a: Seq<char>, b: Seq<char>) -> bool
    decreases a.len(),
{
    if a.len() == 0 {
        true
    } else if b.len() == 0 {
        false
    } else if (a[0] as int) < (b[0] as int) {
        true
    } else if (a[0] as int) > (b[0] as int) {
        false
    } else {
        lex_le(a.subrange(1, a.len() as int), b.subrange(1, b.len() as int))
    }
}

/// The listing order: by name, then by slug.
pub open spec fn row_le(a: QueryProject, b: QueryProject) -> bool {
    if a.name@ == b.name@ {
        lex_le(a.slug@, b.slug@)
    } else {
        lex_le(a.name@, b.name@)
    }
}

/// Every pair of rows stands in listing order.
pub open spec fn listing_sorted(s: Seq<QueryProject>) -> bool {
    forall|i: int, j: int|
        0 <= i < j < s.len() ==> row_le(#[trigger] s[i], #[trigger] s[j])
}

proof fn lemma_filter_below(
    s: Seq<QueryProject>,
    pred: spec_fn(QueryProject) -> bool,
    x: QueryProject,
)
    requires
        forall|k: int| 0 <= k < s.len() ==> row_le(#[trigger] s[k], x),
    ensures
        forall|k: int|
            0 <= k < s.filter(pred).len() ==> row_le(#[trigger] s.filter(pred)[k], x),
    decreases s.len(),
{
    reveal(Seq::filter);
    if s.len() > 0 {
        let t = s.drop_last();
        assert(forall|k: int| 0 <= k < t.len() ==> row_le(#[trigger] t[k], x));
        lemma_filter_below(t, pred, x);
        assert(row_le(s.last(), x));
        if pred(s.last()) {
            assert(s.filter(pred) == t.filter(pred).push(s.last()));
            assert forall|k: int| 0 <= k < s.filter(pred).len() implies row_le(
                #[trigger] s.filter(pred)[k],
                x,
            ) by {
                if k < t.filter(pred).len() {
                    assert(s.filter(pred)[k] == t.filter(pred)[k]);
                } else {
                    assert(s.filter(pred)[k] == s.last());
                }
            }
        } else {
            assert(s.filter(pred) == t.filter(pred));
        }
    }
}

/// Keeping a subsequence keeps the listing order.
proof fn lemma_filter_keeps_sorted(s: Seq<QueryProject>, pred: spec_fn(QueryProject) -> bool)
    requires
        listing_sorted(s),
    ensures
        listing_sorted(s.filter(pred)),
    decreases s.len(),
{
    reveal(Seq::filter);
    if s.len() > 0 {
        let t = s.drop_last();
        assert(listing_sorted(t));
        lemma_filter_keeps_sorted(t, pred);
        assert(forall|k: int| 0 <= k < t.len() ==> row_le(#[trigger] t[k], s.last()));
        lemma_filter_below(t, pred, s.last());
        if pred(s.last()) {
            assert(s.filter(pred) == t.filter(pred).push(s.last()));
            assert forall|i: int, j: int| 0 <= i < j < s.filter(pred).len() implies row_le(
                #[trigger] s.filter(pred)[i],
                #[trigger] s.filter(pred)[j],
            ) by {
                if j < t.filter(pred).len() {
                    assert(s.filter(pred)[i] == t.filter(pred)[i]);
                    assert(s.filter(pred)[j] == t.filter(pred)[j]);
                    assert(row_le(t.filter(pred)[i], t.filter(pred)[j]));
                } else {
                    assert(s.filter(pred)[i] == t.filter(pred)[i]);
                    assert(s.filter(pred)[j] == s.last());
                    assert(row_le(t.filter(pred)[i], s.last()));
                }
            }
        } else {
            assert(s.filter(pred) == t.filter(pred));
        }
    }
}

fn ids_contain(ids: &Vec<i32>, id: i32) -> (r: bool)
    ensures
        r == ids@.contains(id),
{
    let n: usize = ids.len();
    let mut i: usize = 0;
    while i < n
        invariant
            n == ids@.len(),
            0 <= i <= n,
            forall|k: int| 0 <= k < i ==> ids@[k] != id,
        decreases n - i,
    {
        if ids[i] == id {
            assert(ids@[i as int] == id);
            return true;
        }
        i = i + 1;
    }
    assert(!ids@.contains(id));
    false
}

fn is_visible(viewer: &Viewer, p: &QueryProject) -> (r: bool)
    ensures
        r == spec_visible(*viewer, *p),
{
    match viewer {
        Viewer::Anonymous => p.public,
        Viewer::User { admin, permitted } => {
            if *admin {
                true
            } else if ids_contain(permitted, p.id) {
                true
            } else {
                p.public
            }
        },
    }
}

/// Lists the projects the viewer may see, in the stored order: no row is
/// fabricated and none out of order; rows handed over sorted by name and
/// slug come back sorted the same way.
pub fn visible_projects(rows: Vec<QueryProject>, viewer: &Viewer) -> (r: Vec<QueryProject>)
    ensures
        r@ == rows@.filter(|p: QueryProject| spec_visible(*viewer, p)),
        listing_sorted(rows@) ==> listing_sorted(r@),
{
    proof {
        if listing_sorted(rows@) {
            lemma_filter_keeps_sorted(rows@, |p: QueryProject| spec_visible(*viewer, p));
        }
    }
    let ghost pred = |p: QueryProject| spec_visible(*viewer, p);
    let n: usize = rows.len();
    let mut out: Vec<QueryProject> = Vec::new();
    let mut i: usize = 0;
    proof {
        reveal(Seq::filter);
        assert(rows@.take(0).filter(pred) =~= Seq::<QueryProject>::empty());
    }
    while i < n
        invariant
            n == rows@.len(),
            0 <= i <= n,
            pred == (|p: QueryProject| spec_visible(*viewer, p)),
            out@ == rows@.take(i as int).filter(pred),
        decreases n - i,
    {
        let keep = is_visible(viewer, &rows[i]);
        proof {
            reveal(Seq::filter);
            assert(rows@.take(i + 1).drop_last() =~= rows@.take(i as int));
            assert(rows@.take(i + 1).last() == rows@[i as int]);
        }
        if keep {
            out.push(rows[i].clone());
        }
        i = i + 1;
    }
    proof {
        assert(rows@.take(n as int) =~= rows@);
    }
    out
}

} // verus!
