//! The tri-state posting set and its algebra.
//!
//! A set is empty, full, or an explicit ascending id list that is read either
//! as the members or, when negated, as the only non-members. Negated lists are
//! combined by their complements' laws, so the corpus is never enumerated.

use vstd::prelude::*;
use crate::merge;
use crate::merge::strictly_ascending;

verus! {

/// What a posting set denotes: its state, and for a sparse set the ids listed.
pub enum PostingModel {
    Empty,
    Full,
    Sparse(Set<u16>, bool),
}

impl PostingModel {
    /// Whether document `doc` is matched.
    pub open spec fn holds(self, doc: u16) -> bool {
        match self {
            PostingModel::Empty => false,
            PostingModel::Full => true,
            PostingModel::Sparse(ids, negated) => ids.contains(doc) != negated,
        }
    }

    /// The documents of `corpus` that are matched; a plain id list is taken as it is.
    pub open spec fn members(self, corpus: Set<u16>) -> Set<u16> {
        match self {
            PostingModel::Empty => Set::empty(),
            PostingModel::Full => corpus,
            PostingModel::Sparse(ids, false) => ids,
            PostingModel::Sparse(ids, true) => corpus.difference(ids),
        }
    }

    /// Every listed id is a document of `corpus`.
    pub open spec fn listed_within(self, corpus: Set<u16>) -> bool {
        match self {
            PostingModel::Sparse(ids, _) => ids.subset_of(corpus),
            _ => true,
        }
    }

    /// The complement: empty and full trade places, a sparse set flips its flag.
    pub open spec fn negate(self) -> PostingModel {
        match self {
            PostingModel::Empty => PostingModel::Full,
            PostingModel::Full => PostingModel::Empty,
            PostingModel::Sparse(ids, negated) => PostingModel::Sparse(ids, !negated),
        }
    }

    /// Documents matched by both operands.
    pub open spec fn intersection(self, other: PostingModel) -> PostingModel {
        match (self, other) {
            (PostingModel::Empty, _) => PostingModel::Empty,
            (_, PostingModel::Empty) => PostingModel::Empty,
            (PostingModel::Full, _) => other,
            (_, PostingModel::Full) => self,
            (PostingModel::Sparse(d1, false), PostingModel::Sparse(d2, false)) => PostingModel::Sparse(
                d1.intersect(d2),
                false,
            ),
            (PostingModel::Sparse(d1, false), PostingModel::Sparse(d2, true)) => PostingModel::Sparse(
                d1.difference(d2),
                false,
            ),
            (PostingModel::Sparse(d1, true), PostingModel::Sparse(d2, false)) => PostingModel::Sparse(
                d2.difference(d1),
                false,
            ),
            (PostingModel::Sparse(d1, true), PostingModel::Sparse(d2, true)) => PostingModel::Sparse(
                d1.union(d2),
                true,
            ),
        }
    }

    /// Documents matched by at least one operand.
    pub open spec fn union(self, other: PostingModel) -> PostingModel {
        match (self, other) {
            (PostingModel::Full, _) => PostingModel::Full,
            (_, PostingModel::Full) => PostingModel::Full,
            (PostingModel::Empty, _) => other,
            (_, PostingModel::Empty) => self,
            (PostingModel::Sparse(d1, false), PostingModel::Sparse(d2, false)) => PostingModel::Sparse(
                d1.union(d2),
                false,
            ),
            (PostingModel::Sparse(d1, false), PostingModel::Sparse(d2, true)) => PostingModel::Sparse(
                d2.difference(d1),
                true,
            ),
            (PostingModel::Sparse(d1, true), PostingModel::Sparse(d2, false)) => PostingModel::Sparse(
                d1.difference(d2),
                true,
            ),
            (PostingModel::Sparse(d1, true), PostingModel::Sparse(d2, true)) => PostingModel::Sparse(
                d1.intersect(d2),
                true,
            ),
        }
    }

    /// Documents matched by `self` and not by `other`.
    pub open spec fn exclusion(self, other: PostingModel) -> PostingModel {
        match (self, other) {
            (PostingModel::Empty, _) => PostingModel::Empty,
            (_, PostingModel::Full) => PostingModel::Empty,
            (_, PostingModel::Empty) => self,
            (PostingModel::Full, _) => other.negate(),
            (PostingModel::Sparse(d1, false), PostingModel::Sparse(d2, false)) => PostingModel::Sparse(
                d1.difference(d2),
                false,
            ),
            (PostingModel::Sparse(d1, false), PostingModel::Sparse(d2, true)) => PostingModel::Sparse(
                d1.intersect(d2),
                false,
            ),
            (PostingModel::Sparse(d1, true), PostingModel::Sparse(d2, false)) => PostingModel::Sparse(
                d1.union(d2),
                true,
            ),
            (PostingModel::Sparse(d1, true), PostingModel::Sparse(d2, true)) => PostingModel::Sparse(
                d2.difference(d1),
                false,
            ),
        }
    }
}

/// A set of documents of one chunk.
#[derive(Debug, Clone, PartialEq, Eq)]
pub enum PostingSet {
    /// No document.
    Empty,
    /// Every document of the corpus, unlisted.
    Full,
    /// The listed ids, or with the flag set every document but the listed ids.
    Sparse(Vec<u16>, bool),
}

impl View for PostingSet {
    type V = PostingModel;

    open spec fn view(&self) -> PostingModel {
        match *self {
            PostingSet::Empty => PostingModel::Empty,
            PostingSet::Full => PostingModel::Full,
            PostingSet::Sparse(ids, negated) => PostingModel::Sparse(ids@.to_set(), negated),
        }
    }
}

impl PostingSet {
    /// A sparse set lists its ids in strictly ascending order.
    pub open spec fn wf(&self) -> bool {
        match *self {
            PostingSet::Sparse(ids, _) => strictly_ascending(ids@),
            _ => true,
        }
    }

    /// The state and the id list as written, for comparing two values place by place.
    pub open spec fn layout(&self) -> (int, Seq<u16>, bool) {
        match *self {
            PostingSet::Empty => (0, Seq::empty(), false),
            PostingSet::Full => (1, Seq::empty(), false),
            PostingSet::Sparse(ids, negated) => (2, ids@, negated),
        }
    }

    /// Tells whether the id list, if there is one, is strictly ascending.
    pub fn is_well_formed(&self) -> (ok: bool)
        ensures
            ok == self.wf(),
    {
        match self {
            PostingSet::Sparse(ids, _) => {
                let mut k: usize = 1;
                while k < ids.len()
                    invariant
                        1 <= k,
                        self.wf() == strictly_ascending(ids@),
                        forall|m: int| 0 <= m && m + 1 < k && m + 1 < ids.len() ==> #[trigger] ids[m] < ids[m + 1],
                    decreases ids.len() - k,
                {
                    if ids[k - 1] >= ids[k] {
                        assert(!strictly_ascending(ids@)) by {
                            if strictly_ascending(ids@) {
                                assert(ids@[k - 1] < ids@[k as int]);
                            }
                        }
                        return false;
                    }
                    k += 1;
                }
                proof {
                    merge::lemma_adjacent_ascending(ids@);
                }
                true
            },
            _ => true,
        }
    }

    /// The complement, made without touching the id list.
    pub fn negate(self) -> (out: PostingSet)
        requires
            self.wf(),
        ensures
            out.wf(),
            out@ == self@.negate(),
            out.layout().1 == self.layout().1,
    {
        match self {
            PostingSet::Empty => PostingSet::Full,
            PostingSet::Full => PostingSet::Empty,
            PostingSet::Sparse(ids, negated) => PostingSet::Sparse(ids, !negated),
        }
    }

    /// Documents matched by both operands.
    pub fn intersection(self, other: PostingSet) -> (out: PostingSet)
        requires
            self.wf(),
            other.wf(),
        ensures
            out.wf(),
            out@ == self@.intersection(other@),
    {
        match self {
            PostingSet::Empty => PostingSet::Empty,
            PostingSet::Full => other,
            PostingSet::Sparse(data, false) => match other {
                PostingSet::Empty => PostingSet::Empty,
                PostingSet::Full => PostingSet::Sparse(data, false),
                PostingSet::Sparse(other_data, false) => PostingSet::Sparse(
                    merge::intersection(&data, &other_data),
                    false,
                ),
                PostingSet::Sparse(other_data, true) => PostingSet::Sparse(
                    merge::exclusion(&data, &other_data),
                    false,
                ),
            },
            PostingSet::Sparse(data, true) => match other {
                PostingSet::Empty => PostingSet::Empty,
                PostingSet::Full => PostingSet::Sparse(data, true),
                PostingSet::Sparse(other_data, false) => PostingSet::Sparse(
                    merge::exclusion(&other_data, &data),
                    false,
                ),
                PostingSet::Sparse(other_data, true) => PostingSet::Sparse(
                    merge::union(&data, &other_data),
                    true,
                ),
            },
        }
    }

    /// Documents matched by at least one operand.
    pub fn union(self, other: PostingSet) -> (out: PostingSet)
        requires
            self.wf(),
            other.wf(),
        ensures
            out.wf(),
            out@ == self@.union(other@),
    {
        match self {
            PostingSet::Empty => other,
            PostingSet::Full => PostingSet::Full,
            PostingSet::Sparse(data, false) => match other {
                PostingSet::Empty => PostingSet::Sparse(data, false),
                PostingSet::Full => PostingSet::Full,
                PostingSet::Sparse(other_data, false) => PostingSet::Sparse(
                    merge::union(&data, &other_data),
                    false,
                ),
                PostingSet::Sparse(other_data, true) => PostingSet::Sparse(
                    merge::exclusion(&other_data, &data),
                    true,
                ),
            },
            PostingSet::Sparse(data, true) => match other {
                PostingSet::Empty => PostingSet::Sparse(data, true),
                PostingSet::Full => PostingSet::Full,
                PostingSet::Sparse(other_data, false) => PostingSet::Sparse(
                    merge::exclusion(&data, &other_data),
                    true,
                ),
                PostingSet::Sparse(other_data, true) => PostingSet::Sparse(
                    merge::intersection(&data, &other_data),
                    true,
                ),
            },
        }
    }

    /// Documents matched by `self` and not by `other`.
    pub fn exclusion(self, other: PostingSet) -> (out: PostingSet)
        requires
            self.wf(),
            other.wf(),
        ensures
            out.wf(),
            out@ == self@.exclusion(other@),
    {
        match self {
            PostingSet::Empty => PostingSet::Empty,
            PostingSet::Full => match other {
                PostingSet::Empty => PostingSet::Full,
                PostingSet::Full => PostingSet::Empty,
                PostingSet::Sparse(other_data, negated) => PostingSet::Sparse(other_data, !negated),
            },
            PostingSet::Sparse(data, false) => match other {
                PostingSet::Empty => PostingSet::Sparse(data, false),
                PostingSet::Full => PostingSet::Empty,
                PostingSet::Sparse(other_data, false) => PostingSet::Sparse(
                    merge::exclusion(&data, &other_data),
                    false,
                ),
                PostingSet::Sparse(other_data, true) => PostingSet::Sparse(
                    merge::intersection(&data, &other_data),
                    false,
                ),
            },
            PostingSet::Sparse(data, true) => match other {
                PostingSet::Empty => PostingSet::Sparse(data, true),
                PostingSet::Full => PostingSet::Empty,
                PostingSet::Sparse(other_data, false) => PostingSet::Sparse(
                    merge::union(&data, &other_data),
                    true,
                ),
                PostingSet::Sparse(other_data, true) => PostingSet::Sparse(
                    merge::exclusion(&other_data, &data),
                    false,
                ),
            },
        }
    }
}

/// Two well-formed sets that denote the same are written the same.
pub proof fn lemma_same_view_same_layout(a: PostingSet, b: PostingSet)
    requires
        a.wf(),
        b.wf(),
        a@ == b@,
    ensures
        a.layout() == b.layout(),
{
    match (a, b) {
        (PostingSet::Sparse(x, _), PostingSet::Sparse(y, _)) => {
            merge::lemma_ascending_unique(x@, y@);
        },
        _ => {},
    }
}

/// Union and intersection do not depend on the order of their operands.
pub proof fn lemma_commutative(a: PostingModel, b: PostingModel)
    ensures
        a.union(b) == b.union(a),
        a.intersection(b) == b.intersection(a),
{
    match (a, b) {
        (PostingModel::Sparse(d1, n1), PostingModel::Sparse(d2, n2)) => {
            assert(d1.union(d2) =~= d2.union(d1));
            assert(d1.intersect(d2) =~= d2.intersect(d1));
        },
        _ => {},
    }
}

/// Combining a set with itself gives the set back.
pub proof fn lemma_idempotent(a: PostingModel)
    ensures
        a.union(a) == a,
        a.intersection(a) == a,
{
    match a {
        PostingModel::Sparse(d, n) => {
            assert(d.union(d) =~= d);
            assert(d.intersect(d) =~= d);
        },
        _ => {},
    }
}

/// The complement of a union is the intersection of the complements, and the
/// complement of an intersection is the union of the complements.
pub proof fn lemma_de_morgan(a: PostingModel, b: PostingModel)
    ensures
        a.union(b).negate() == a.negate().intersection(b.negate()),
        a.intersection(b).negate() == a.negate().union(b.negate()),
{
}

/// Excluding `b` is intersecting with the complement of `b`.
pub proof fn lemma_exclusion_as_intersection(a: PostingModel, b: PostingModel)
    ensures
        a.exclusion(b) == a.intersection(b.negate()),
{
}

/// Taking the complement twice changes nothing.
pub proof fn lemma_negate_involution(a: PostingModel)
    ensures
        a.negate().negate() == a,
{
}

/// Document by document, the operators are "or", "and", "and not" and "not".
pub proof fn lemma_pointwise(a: PostingModel, b: PostingModel, doc: u16)
    ensures
        a.union(b).holds(doc) == (a.holds(doc) || b.holds(doc)),
        a.intersection(b).holds(doc) == (a.holds(doc) && b.holds(doc)),
        a.exclusion(b).holds(doc) == (a.holds(doc) && !b.holds(doc)),
        a.negate().holds(doc) == !a.holds(doc),
{
}

/// Over a corpus that holds every listed id, the operators agree with the plain
/// set operations on the members, and the complement with the rest of the corpus.
pub proof fn lemma_members(a: PostingModel, b: PostingModel, corpus: Set<u16>)
    requires
        a.listed_within(corpus),
        b.listed_within(corpus),
    ensures
        a.union(b).members(corpus) == a.members(corpus).union(b.members(corpus)),
        a.intersection(b).members(corpus) == a.members(corpus).intersect(b.members(corpus)),
        a.exclusion(b).members(corpus) == a.members(corpus).difference(b.members(corpus)),
        a.negate().members(corpus) == corpus.difference(a.members(corpus)),
{
    assert(a.union(b).members(corpus) =~= a.members(corpus).union(b.members(corpus)));
    assert(a.intersection(b).members(corpus) =~= a.members(corpus).intersect(b.members(corpus)));
    assert(a.exclusion(b).members(corpus) =~= a.members(corpus).difference(b.members(corpus)));
    assert(a.negate().members(corpus) =~= corpus.difference(a.members(corpus)));
}

} // verus!
