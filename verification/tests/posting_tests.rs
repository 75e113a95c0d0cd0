use posting_engine::posting::PostingSet;

fn sparse(ids: &[u16], negated: bool) -> PostingSet {
    PostingSet::Sparse(ids.to_vec(), negated)
}

fn samples() -> Vec<PostingSet> {
    vec![
        PostingSet::Empty,
        PostingSet::Full,
        sparse(&[1, 3, 5], false),
        sparse(&[3, 4], false),
        sparse(&[], false),
        sparse(&[1, 3, 5], true),
        sparse(&[3, 4], true),
        sparse(&[0, 1, 2, 3, 4, 5, 6, 7], true),
    ]
}

fn holds(set: &PostingSet, doc: u16) -> bool {
    match set {
        PostingSet::Empty => false,
        PostingSet::Full => true,
        PostingSet::Sparse(ids, negated) => ids.contains(&doc) != *negated,
    }
}

fn materialize(set: &PostingSet) -> Vec<u16> {
    (0..8u16).filter(|d| holds(set, *d)).collect()
}

#[test]
fn intersection_table() {
    let d1 = [1u16, 3, 5];
    let d2 = [3u16, 4];
    assert_eq!(PostingSet::Empty.intersection(PostingSet::Full), PostingSet::Empty);
    assert_eq!(PostingSet::Empty.intersection(sparse(&d2, true)), PostingSet::Empty);
    assert_eq!(PostingSet::Full.intersection(PostingSet::Empty), PostingSet::Empty);
    assert_eq!(PostingSet::Full.intersection(PostingSet::Full), PostingSet::Full);
    assert_eq!(PostingSet::Full.intersection(sparse(&d2, false)), sparse(&d2, false));
    assert_eq!(PostingSet::Full.intersection(sparse(&d2, true)), sparse(&d2, true));
    assert_eq!(sparse(&d1, false).intersection(PostingSet::Empty), PostingSet::Empty);
    assert_eq!(sparse(&d1, false).intersection(PostingSet::Full), sparse(&d1, false));
    assert_eq!(sparse(&d1, false).intersection(sparse(&d2, false)), sparse(&[3], false));
    assert_eq!(sparse(&d1, false).intersection(sparse(&d2, true)), sparse(&[1, 5], false));
    assert_eq!(sparse(&d1, true).intersection(PostingSet::Empty), PostingSet::Empty);
    assert_eq!(sparse(&d1, true).intersection(PostingSet::Full), sparse(&d1, true));
    assert_eq!(sparse(&d1, true).intersection(sparse(&d2, false)), sparse(&[4], false));
    assert_eq!(sparse(&d1, true).intersection(sparse(&d2, true)), sparse(&[1, 3, 4, 5], true));
}

#[test]
fn union_table() {
    let d1 = [1u16, 3, 5];
    let d2 = [3u16, 4];
    assert_eq!(PostingSet::Empty.union(PostingSet::Empty), PostingSet::Empty);
    assert_eq!(PostingSet::Empty.union(sparse(&d2, true)), sparse(&d2, true));
    assert_eq!(PostingSet::Full.union(sparse(&d2, false)), PostingSet::Full);
    assert_eq!(sparse(&d1, false).union(PostingSet::Empty), sparse(&d1, false));
    assert_eq!(sparse(&d1, false).union(PostingSet::Full), PostingSet::Full);
    assert_eq!(sparse(&d1, false).union(sparse(&d2, false)), sparse(&[1, 3, 4, 5], false));
    assert_eq!(sparse(&d1, false).union(sparse(&d2, true)), sparse(&[4], true));
    assert_eq!(sparse(&d1, true).union(PostingSet::Empty), sparse(&d1, true));
    assert_eq!(sparse(&d1, true).union(PostingSet::Full), PostingSet::Full);
    assert_eq!(sparse(&d1, true).union(sparse(&d2, false)), sparse(&[1, 5], true));
    assert_eq!(sparse(&d1, true).union(sparse(&d2, true)), sparse(&[3], true));
}

#[test]
fn exclusion_table() {
    let d1 = [1u16, 3, 5];
    let d2 = [3u16, 4];
    assert_eq!(PostingSet::Empty.exclusion(sparse(&d2, true)), PostingSet::Empty);
    assert_eq!(PostingSet::Full.exclusion(PostingSet::Empty), PostingSet::Full);
    assert_eq!(PostingSet::Full.exclusion(PostingSet::Full), PostingSet::Empty);
    assert_eq!(PostingSet::Full.exclusion(sparse(&d2, false)), sparse(&d2, true));
    assert_eq!(PostingSet::Full.exclusion(sparse(&d2, true)), sparse(&d2, false));
    assert_eq!(sparse(&d1, false).exclusion(PostingSet::Empty), sparse(&d1, false));
    assert_eq!(sparse(&d1, false).exclusion(PostingSet::Full), PostingSet::Empty);
    assert_eq!(sparse(&d1, false).exclusion(sparse(&d2, false)), sparse(&[1, 5], false));
    assert_eq!(sparse(&d1, false).exclusion(sparse(&d2, true)), sparse(&[3], false));
    assert_eq!(sparse(&d1, true).exclusion(PostingSet::Empty), sparse(&d1, true));
    assert_eq!(sparse(&d1, true).exclusion(PostingSet::Full), PostingSet::Empty);
    assert_eq!(sparse(&d1, true).exclusion(sparse(&d2, false)), sparse(&[1, 3, 4, 5], true));
    assert_eq!(sparse(&d1, true).exclusion(sparse(&d2, true)), sparse(&[4], false));
}

#[test]
fn exclusion_is_not_commutative() {
    let a = sparse(&[1, 3, 5], false);
    let b = sparse(&[3, 4], false);
    assert_eq!(a.clone().exclusion(b.clone()), sparse(&[1, 5], false));
    assert_eq!(b.exclusion(a), sparse(&[4], false));
}

#[test]
fn negate_flips_without_listing() {
    assert_eq!(PostingSet::Empty.negate(), PostingSet::Full);
    assert_eq!(PostingSet::Full.negate(), PostingSet::Empty);
    assert_eq!(sparse(&[2, 6], false).negate(), sparse(&[2, 6], true));
    assert_eq!(sparse(&[2, 6], true).negate(), sparse(&[2, 6], false));
}

#[test]
fn union_and_intersection_commute() {
    for a in samples() {
        for b in samples() {
            assert_eq!(a.clone().union(b.clone()), b.clone().union(a.clone()));
            assert_eq!(a.clone().intersection(b.clone()), b.clone().intersection(a.clone()));
        }
    }
}

#[test]
fn union_and_intersection_are_idempotent() {
    for a in samples() {
        assert_eq!(a.clone().union(a.clone()), a);
        assert_eq!(a.clone().intersection(a.clone()), a);
    }
}

#[test]
fn de_morgan_holds_on_every_state_pair() {
    for a in samples() {
        for b in samples() {
            assert_eq!(
                a.clone().union(b.clone()).negate(),
                a.clone().negate().intersection(b.clone().negate())
            );
            assert_eq!(
                a.clone().intersection(b.clone()).negate(),
                a.clone().negate().union(b.clone().negate())
            );
        }
    }
}

#[test]
fn operators_agree_with_materialized_sets() {
    for a in samples() {
        for b in samples() {
            let (ma, mb) = (materialize(&a), materialize(&b));
            let either: Vec<u16> = (0..8u16).filter(|d| ma.contains(d) || mb.contains(d)).collect();
            let both: Vec<u16> = (0..8u16).filter(|d| ma.contains(d) && mb.contains(d)).collect();
            let only: Vec<u16> = (0..8u16).filter(|d| ma.contains(d) && !mb.contains(d)).collect();
            let rest: Vec<u16> = (0..8u16).filter(|d| !ma.contains(d)).collect();
            assert_eq!(materialize(&a.clone().union(b.clone())), either);
            assert_eq!(materialize(&a.clone().intersection(b.clone())), both);
            assert_eq!(materialize(&a.clone().exclusion(b.clone())), only);
            assert_eq!(materialize(&a.clone().negate()), rest);
        }
    }
}

#[test]
fn exclusion_is_intersection_with_the_complement() {
    for a in samples() {
        for b in samples() {
            assert_eq!(a.clone().exclusion(b.clone()), a.clone().intersection(b.clone().negate()));
        }
    }
}

#[test]
fn well_formedness_is_strict_ascent() {
    assert!(PostingSet::Empty.is_well_formed());
    assert!(PostingSet::Full.is_well_formed());
    assert!(sparse(&[], true).is_well_formed());
    assert!(sparse(&[7], false).is_well_formed());
    assert!(sparse(&[1, 2, 9], true).is_well_formed());
    assert!(!sparse(&[1, 1], false).is_well_formed());
    assert!(!sparse(&[1, 5, 4], false).is_well_formed());
}
