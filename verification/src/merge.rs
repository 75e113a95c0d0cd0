//! Merge passes over strictly ascending document-id sequences.

use vstd::prelude::*;

verus! {

/// Every id is smaller than each id that follows it.
pub open spec fn strictly_ascending(s: Seq<u16>) -> bool {
    forall|i: int, j: int| 0 <= i < j < s.len() ==> s[i] < s[j]
}

/// Appending an id adds exactly that id to the set of ids held.
pub proof fn lemma_push_to_set(s: Seq<u16>, x: u16)
    ensures
        s.push(x).to_set() == s.to_set().insert(x),
{
    let t = s.push(x);
    assert forall|y: u16| t.to_set().contains(y) == s.to_set().insert(x).contains(y) by {
        if t.contains(y) {
            let k = choose|k: int| 0 <= k < t.len() && t[k] == y;
            if k < s.len() {
                assert(s[k] == y);
            }
        }
        if s.contains(y) {
            let k = choose|k: int| 0 <= k < s.len() && s[k] == y;
            assert(t[k] == y);
        }
        if y == x {
            assert(t[s.len() as int] == y);
        }
    }
    assert(t.to_set() =~= s.to_set().insert(x));
}

/// The ids of a prefix grow by one id when the prefix grows by one place.
pub proof fn lemma_take_next(s: Seq<u16>, i: int)
    requires
        0 <= i < s.len(),
    ensures
        s.take(i + 1).to_set() == s.take(i).to_set().insert(s[i]),
{
    assert(s.take(i + 1) =~= s.take(i).push(s[i]));
    lemma_push_to_set(s.take(i), s[i]);
}

/// Neighbours in ascending order put the whole sequence in ascending order.
pub proof fn lemma_adjacent_ascending(s: Seq<u16>)
    requires
        forall|m: int| 0 <= m && m + 1 < s.len() ==> #[trigger] s[m] < s[m + 1],
    ensures
        strictly_ascending(s),
    decreases s.len(),
{
    if s.len() > 1 {
        let p = s.drop_last();
        assert forall|m: int| 0 <= m && m + 1 < p.len() implies #[trigger] p[m] < p[m + 1] by {
            assert(s[m] < s[m + 1]);
        }
        lemma_adjacent_ascending(p);
        assert forall|i: int, j: int| 0 <= i < j < s.len() implies s[i] < s[j] by {
            if j == s.len() - 1 {
                assert(s[j - 1] < s[j - 1 + 1]);
                if i < j - 1 {
                    assert(p[i] < p[j - 1]);
                }
            } else {
                assert(p[i] < p[j]);
            }
        }
    }
}

/// A strictly ascending sequence is determined by the set of its ids.
pub proof fn lemma_ascending_unique(s: Seq<u16>, t: Seq<u16>)
    requires
        strictly_ascending(s),
        strictly_ascending(t),
        s.to_set() == t.to_set(),
    ensures
        s == t,
    decreases s.len(),
{
    if s.len() == 0 {
        if t.len() > 0 {
            assert(t.contains(t[0]));
            assert(t.to_set().contains(t[0]));
            assert(s.contains(t[0]));
        }
        assert(s =~= t);
    } else {
        let m = s.last();
        assert(s.contains(m));
        assert(t.to_set().contains(m));
        assert(t.contains(m));
        let n = t.last();
        assert(t.contains(n));
        assert(s.to_set().contains(n));
        assert(s.contains(n));
        let km = choose|k: int| 0 <= k < t.len() && t[k] == m;
        let kn = choose|k: int| 0 <= k < s.len() && s[k] == n;
        assert(m == n);
        let s0 = s.drop_last();
        let t0 = t.drop_last();
        assert forall|y: u16| s0.to_set().contains(y) == t0.to_set().contains(y) by {
            if s0.contains(y) {
                let k = choose|k: int| 0 <= k < s0.len() && s0[k] == y;
                assert(s[k] == y);
                assert(s.contains(y));
                assert(t.to_set().contains(y));
                let j = choose|j: int| 0 <= j < t.len() && t[j] == y;
                assert(j < t.len() - 1);
                assert(t0[j] == y);
            }
            if t0.contains(y) {
                let k = choose|k: int| 0 <= k < t0.len() && t0[k] == y;
                assert(t[k] == y);
                assert(t.contains(y));
                assert(s.to_set().contains(y));
                let j = choose|j: int| 0 <= j < s.len() && s[j] == y;
                assert(j < s.len() - 1);
                assert(s0[j] == y);
            }
        }
        assert(s0.to_set() =~= t0.to_set());
        lemma_ascending_unique(s0, t0);
        assert(s =~= s0.push(m));
        assert(t =~= t0.push(n));
    }
}

/// The ids that occur in `a`, in `b` or in both, each once, in ascending order.
pub fn union(a: &Vec<u16>, b: &Vec<u16>) -> (out: Vec<u16>)
    requires
        strictly_ascending(a@),
        strictly_ascending(b@),
    ensures
        strictly_ascending(out@),
        out@.to_set() == a@.to_set().union(b@.to_set()),
{
    let mut out: Vec<u16> = Vec::new();
    let mut i: usize = 0;
    let mut j: usize = 0;
    assert(out@.to_set() =~= a@.take(0).to_set().union(b@.take(0).to_set()));
    while i < a.len() || j < b.len()
        invariant
            i <= a.len(),
            j <= b.len(),
            strictly_ascending(a@),
            strictly_ascending(b@),
            strictly_ascending(out@),
            out@.to_set() == a@.take(i as int).to_set().union(b@.take(j as int).to_set()),
            forall|k: int| 0 <= k < out.len() ==> (i < a.len() ==> out[k] < a[i as int]),
            forall|k: int| 0 <= k < out.len() ==> (j < b.len() ==> out[k] < b[j as int]),
        decreases a.len() - i + (b.len() - j),
    {
        let ghost prev = out@;
        let take_a: bool = j >= b.len() || (i < a.len() && a[i] <= b[j]);
        let take_b: bool = i >= a.len() || (j < b.len() && b[j] <= a[i]);
        let doc: u16 = if take_a { a[i] } else { b[j] };
        out.push(doc);
        proof {
            lemma_push_to_set(prev, doc);
            if take_a {
                lemma_take_next(a@, i as int);
            }
            if take_b {
                lemma_take_next(b@, j as int);
            }
        }
        if take_a {
            i += 1;
        }
        if take_b {
            j += 1;
        }
        assert(out@.to_set() =~= a@.take(i as int).to_set().union(b@.take(j as int).to_set()));
    }
    assert(a@.take(i as int) =~= a@);
    assert(b@.take(j as int) =~= b@);
    out
}

/// The ids that occur in both `a` and `b`, in ascending order.
pub fn intersection(a: &Vec<u16>, b: &Vec<u16>) -> (out: Vec<u16>)
    requires
        strictly_ascending(a@),
        strictly_ascending(b@),
    ensures
        strictly_ascending(out@),
        out@.to_set() == a@.to_set().intersect(b@.to_set()),
{
    let mut out: Vec<u16> = Vec::new();
    let mut i: usize = 0;
    let mut j: usize = 0;
    while i < a.len() && j < b.len()
        invariant
            i <= a.len(),
            j <= b.len(),
            strictly_ascending(a@),
            strictly_ascending(b@),
            strictly_ascending(out@),
            forall|k: int| 0 <= k < out.len() ==> a@.contains(#[trigger] out[k]) && b@.contains(out[k]),
            forall|ka: int, kb: int|
                0 <= ka < a.len() && 0 <= kb < b.len() && a[ka] == b[kb] ==> out@.to_set().contains(
                    a[ka],
                ) || (ka >= i && kb >= j),
            forall|k: int| 0 <= k < out.len() ==> (i < a.len() ==> out[k] < a[i as int]),
            forall|k: int| 0 <= k < out.len() ==> (j < b.len() ==> out[k] < b[j as int]),
        decreases a.len() - i + (b.len() - j),
    {
        let a_doc: u16 = a[i];
        let b_doc: u16 = b[j];
        if a_doc == b_doc {
            let ghost prev = out@;
            out.push(a_doc);
            proof {
                lemma_push_to_set(prev, a_doc);
                assert(forall|k: int| 0 <= k < prev.len() ==> out[k] == prev[k]);
            }
            i += 1;
            j += 1;
        } else if a_doc > b_doc {
            j += 1;
        } else {
            i += 1;
        }
    }
    proof {
        assert forall|y: u16|
            out@.to_set().contains(y) == a@.to_set().intersect(b@.to_set()).contains(y) by {
            if out@.contains(y) {
                let k = choose|k: int| 0 <= k < out@.len() && out@[k] == y;
                assert(a@.contains(out[k]));
            }
            if a@.contains(y) && b@.contains(y) {
                let ka = choose|k: int| 0 <= k < a@.len() && a@[k] == y;
                let kb = choose|k: int| 0 <= k < b@.len() && b@[k] == y;
                assert(a[ka] == b[kb]);
            }
        }
        assert(out@.to_set() =~= a@.to_set().intersect(b@.to_set()));
    }
    out
}

/// The ids of `a` that do not occur in `b`, in ascending order.
pub fn exclusion(a: &Vec<u16>, b: &Vec<u16>) -> (out: Vec<u16>)
    requires
        strictly_ascending(a@),
        strictly_ascending(b@),
    ensures
        strictly_ascending(out@),
        out@.to_set() == a@.to_set().difference(b@.to_set()),
{
    let mut out: Vec<u16> = Vec::new();
    let mut i: usize = 0;
    let mut j: usize = 0;
    while i < a.len()
        invariant
            i <= a.len(),
            j <= b.len(),
            strictly_ascending(a@),
            strictly_ascending(b@),
            strictly_ascending(out@),
            forall|k: int| 0 <= k < out.len() ==> a@.contains(#[trigger] out[k]) && !b@.contains(out[k]),
            forall|ka: int| 0 <= ka < i ==> b@.contains(#[trigger] a[ka]) || out@.to_set().contains(a[ka]),
            forall|kb: int| 0 <= kb < j ==> (i < a.len() ==> #[trigger] b[kb] < a[i as int]),
            forall|k: int| 0 <= k < out.len() ==> (i < a.len() ==> out[k] < a[i as int]),
        decreases a.len() - i + (b.len() - j),
    {
        let a_doc: u16 = a[i];
        if j < b.len() && a_doc == b[j] {
            assert(b@.contains(a[i as int]));
            i += 1;
            j += 1;
        } else if j < b.len() && a_doc > b[j] {
            j += 1;
        } else {
            let ghost prev = out@;
            proof {
                if b@.contains(a_doc) {
                    let kb = choose|k: int| 0 <= k < b@.len() && b@[k] == a_doc;
                    if kb < j {
                        assert(b[kb] < a[i as int]);
                    } else {
                        assert(j < b.len());
                        assert(b[j as int] <= b[kb]);
                    }
                }
                assert(a@.contains(a[i as int]));
            }
            out.push(a_doc);
            proof {
                lemma_push_to_set(prev, a_doc);
                assert(forall|k: int| 0 <= k < prev.len() ==> out[k] == prev[k]);
            }
            i += 1;
        }
    }
    proof {
        assert forall|y: u16|
            out@.to_set().contains(y) == a@.to_set().difference(b@.to_set()).contains(y) by {
            if out@.contains(y) {
                let k = choose|k: int| 0 <= k < out@.len() && out@[k] == y;
                assert(a@.contains(out[k]));
            }
            if a@.contains(y) && !b@.contains(y) {
                let ka = choose|k: int| 0 <= k < a@.len() && a@[k] == y;
                assert(b@.contains(a[ka]) || out@.to_set().contains(a[ka]));
            }
        }
        assert(out@.to_set() =~= a@.to_set().difference(b@.to_set()));
    }
    out
}

} // verus!
