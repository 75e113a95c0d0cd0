use posting_engine::merge::{exclusion, intersection, union};

#[test]
fn union_merges_and_emits_ties_once() {
    assert_eq!(union(&vec![1, 3, 5], &vec![3, 4]), vec![1, 3, 4, 5]);
    assert_eq!(union(&vec![3, 4], &vec![1, 3, 5]), vec![1, 3, 4, 5]);
}

#[test]
fn union_emits_the_smaller_id_first() {
    assert_eq!(union(&vec![10], &vec![2, 7]), vec![2, 7, 10]);
    assert_eq!(union(&vec![2, 7], &vec![10]), vec![2, 7, 10]);
}

#[test]
fn union_with_empty_operand() {
    assert_eq!(union(&vec![], &vec![2, 9]), vec![2, 9]);
    assert_eq!(union(&vec![2, 9], &vec![]), vec![2, 9]);
    assert_eq!(union(&vec![], &vec![]), Vec::<u16>::new());
}

#[test]
fn intersection_keeps_only_common_ids() {
    assert_eq!(intersection(&vec![1, 3, 5], &vec![3, 4]), vec![3]);
    assert_eq!(intersection(&vec![1, 2, 3, 4], &vec![2, 4, 6]), vec![2, 4]);
    assert_eq!(intersection(&vec![1, 2], &vec![3, 4]), Vec::<u16>::new());
}

#[test]
fn intersection_with_empty_operand() {
    assert_eq!(intersection(&vec![], &vec![1]), Vec::<u16>::new());
    assert_eq!(intersection(&vec![1], &vec![]), Vec::<u16>::new());
}

#[test]
fn exclusion_is_directional() {
    assert_eq!(exclusion(&vec![1, 3, 5], &vec![3, 4]), vec![1, 5]);
    assert_eq!(exclusion(&vec![3, 4], &vec![1, 3, 5]), vec![4]);
}

#[test]
fn exclusion_keeps_the_tail_once_the_other_is_exhausted() {
    assert_eq!(exclusion(&vec![1, 2, 8, 9], &vec![2]), vec![1, 8, 9]);
    assert_eq!(exclusion(&vec![1, 2], &vec![]), vec![1, 2]);
    assert_eq!(exclusion(&vec![], &vec![1, 2]), Vec::<u16>::new());
}

#[test]
fn merges_handle_the_largest_id() {
    assert_eq!(union(&vec![0, 65535], &vec![65535]), vec![0, 65535]);
    assert_eq!(intersection(&vec![0, 65535], &vec![65535]), vec![65535]);
    assert_eq!(exclusion(&vec![0, 65535], &vec![65535]), vec![0]);
}

fn naive(op: u8, a: &Vec<u16>, b: &Vec<u16>) -> Vec<u16> {
    let mut out = Vec::new();
    for d in 0..16u16 {
        let (x, y) = (a.contains(&d), b.contains(&d));
        let keep = match op {
            0 => x || y,
            1 => x && y,
            _ => x && !y,
        };
        if keep {
            out.push(d);
        }
    }
    out
}

fn subset(mask: u32) -> Vec<u16> {
    (0..16u16).filter(|d| mask & (1 << d) != 0).collect()
}

#[test]
fn merges_agree_with_naive_set_operations() {
    let masks = [0u32, 1, 0b1010, 0b0110, 0xffff, 0x8001, 0x0ff0, 0x1234, 0xaaaa, 0x5555];
    for &ma in masks.iter() {
        for &mb in masks.iter() {
            let (a, b) = (subset(ma), subset(mb));
            assert_eq!(union(&a, &b), naive(0, &a, &b));
            assert_eq!(intersection(&a, &b), naive(1, &a, &b));
            assert_eq!(exclusion(&a, &b), naive(2, &a, &b));
        }
    }
}
