use free_range::spaces::{Box, Discrete, Sample, Space};
use std::collections::HashSet;

fn key(s: &Sample) -> String {
    format!("{:?}", s)
}

fn nested_space() -> Space {
    Space::new_tuple(vec![
        Space::new_discrete(4, -2),
        Space::new_one_of(vec![Space::new_discrete(0, 3), Space::new_box(vec![0, 5], vec![3, 9])]),
        Space::new_dict(vec![
            ("speed".to_string(), Space::new_discrete(3, 1)),
            ("turn".to_string(), Space::new_box(vec![-1], vec![1])),
        ]),
        Space::new_vector(vec![Space::new_discrete(2, 0), Space::new_discrete(7, 100)]),
    ])
}

#[test]
fn seeded_sampling_repeats_on_nested_spaces() {
    let space = nested_space();
    for seed in [0u64, 1, 42, 7777, u64::MAX] {
        let a = space.sample_with_seed(seed).unwrap();
        let b = space.sample_with_seed(seed).unwrap();
        assert_eq!(key(&a), key(&b));
    }
}

#[test]
fn seeded_discrete_draws_vary_with_the_seed() {
    let space = Discrete { n: 5, start: 10 };
    let mut seen = HashSet::new();
    for seed in 0..64u64 {
        let v = space.sample_with_seed(seed).unwrap().as_discrete().unwrap().0;
        assert!((10..15).contains(&v));
        seen.insert(v);
    }
    assert!(seen.len() > 1);
}

#[test]
fn seeded_oneof_choices_vary_with_the_seed() {
    let space = Space::new_one_of(vec![Space::new_discrete(1, 0), Space::new_discrete(1, 1)]);
    let mut branches = HashSet::new();
    for seed in 0..64u64 {
        let s = space.sample_with_seed(seed).unwrap();
        branches.insert(s.as_one_of().unwrap().0);
    }
    assert_eq!(branches.len(), 2);
}

#[test]
fn seeded_children_use_offset_seeds() {
    let tuple = Space::new_tuple(vec![Space::new_discrete(100, 0), Space::new_discrete(100, 0)]);
    let child = Discrete { n: 100, start: 0 };
    let s = tuple.sample_with_seed(9).unwrap();
    let parts = s.as_tuple().unwrap();
    let first = child.sample_with_seed(9).unwrap().as_discrete().unwrap().0;
    let second = child.sample_with_seed(10).unwrap().as_discrete().unwrap().0;
    assert_eq!(parts[0].as_discrete().unwrap().0, first);
    assert_eq!(parts[1].as_discrete().unwrap().0, second);
}

#[test]
fn enumerate_discrete_five_from_ten() {
    let all = Discrete { n: 5, start: 10 }.enumerate().unwrap();
    let vals: Vec<i32> = all.iter().map(|s| s.as_discrete().unwrap().0).collect();
    assert_eq!(vals, vec![10, 11, 12, 13, 14]);
}

#[test]
fn enumerate_box_is_row_major_without_duplicates() {
    let all = Box { low: vec![0, 0], high: vec![1, 2] }.enumerate().unwrap();
    let vals: Vec<Vec<i32>> = all.iter().map(|s| s.as_box().unwrap().0.clone()).collect();
    assert_eq!(
        vals,
        vec![vec![0, 0], vec![0, 1], vec![0, 2], vec![1, 0], vec![1, 1], vec![1, 2]]
    );
}

#[test]
fn enumerate_oneof_is_a_sum() {
    let space = Space::new_one_of(vec![Space::new_discrete(2, 5), Space::new_discrete(3, 10)]);
    let all = space.enumerate().unwrap();
    let pairs: Vec<(usize, i32)> = all
        .iter()
        .map(|s| {
            let o = s.as_one_of().unwrap();
            (o.0, o.1.as_discrete().unwrap().0)
        })
        .collect();
    assert_eq!(pairs, vec![(0, 5), (0, 6), (1, 10), (1, 11), (1, 12)]);
}

#[test]
fn enumerate_tuple_is_a_product() {
    let space = Space::new_tuple(vec![Space::new_discrete(2, 1), Space::new_discrete(2, 10)]);
    let all = space.enumerate().unwrap();
    let pairs: Vec<(i32, i32)> = all
        .iter()
        .map(|s| {
            let t = s.as_tuple().unwrap();
            (t[0].as_discrete().unwrap().0, t[1].as_discrete().unwrap().0)
        })
        .collect();
    assert_eq!(pairs, vec![(1, 10), (1, 11), (2, 10), (2, 11)]);
}

#[test]
fn enumerate_dict_follows_declared_order() {
    let space = Space::new_dict(vec![
        ("b".to_string(), Space::new_discrete(2, 0)),
        ("a".to_string(), Space::new_discrete(2, 5)),
    ]);
    let all = space.enumerate().unwrap();
    assert_eq!(all.len(), 4);
    let first = all[1].as_dict().unwrap();
    assert_eq!(first.0[0].0, "b");
    assert_eq!(first.get(&"b".to_string()).unwrap().as_discrete().unwrap().0, 0);
    assert_eq!(first.get(&"a".to_string()).unwrap().as_discrete().unwrap().0, 6);
}

#[test]
fn sampled_values_stay_in_range() {
    let d = Discrete { n: 3, start: -7 };
    let b = Box { low: vec![-3, 4, 0], high: vec![-1, 4, 9] };
    for seed in 0..32u64 {
        let v = d.sample_with_seed(seed).unwrap().as_discrete().unwrap().0;
        assert!((-7..-4).contains(&v));
        let fresh = d.sample().unwrap().as_discrete().unwrap().0;
        assert!((-7..-4).contains(&fresh));
        for s in [b.sample_with_seed(seed).unwrap(), b.sample().unwrap()] {
            let v = &s.as_box().unwrap().0;
            for i in 0..3 {
                assert!(b.low[i] <= v[i] && v[i] <= b.high[i]);
            }
        }
    }
}

#[test]
fn empty_discrete_gives_nothing() {
    let d = Discrete { n: 0, start: 3 };
    assert!(d.sample().is_none());
    assert!(d.sample_with_seed(1).is_none());
    assert!(d.enumerate().is_none());
    let s = Space::new_discrete(0, 3);
    assert!(s.sample().is_none());
    assert!(s.enumerate().is_none());
}

#[test]
fn malformed_box_gives_nothing() {
    let mismatched = Box { low: vec![0, 0], high: vec![1] };
    assert!(mismatched.sample().is_none());
    assert!(mismatched.sample_with_seed(3).is_none());
    assert!(mismatched.enumerate().is_none());
    let empty = Box { low: vec![], high: vec![] };
    assert!(empty.sample().is_none());
    assert!(empty.enumerate().is_none());
}

#[test]
fn oneof_skips_empty_discrete_branches() {
    let space = Space::new_one_of(vec![Space::new_discrete(0, 0), Space::new_discrete(1, 9)]);
    for seed in 0..16u64 {
        let s = space.sample_with_seed(seed).unwrap();
        let o = s.as_one_of().unwrap();
        assert_eq!(o.0, 1);
        assert_eq!(o.1.as_discrete().unwrap().0, 9);
    }
    let none = Space::new_one_of(vec![Space::new_discrete(0, 0)]);
    assert!(none.sample().is_none());
    assert!(none.sample_with_seed(5).is_none());
    assert!(none.enumerate().is_none());
}

#[test]
fn tuple_with_empty_part_gives_nothing() {
    let space = Space::new_tuple(vec![Space::new_discrete(2, 0), Space::new_discrete(0, 0)]);
    assert!(space.sample().is_none());
    assert!(space.sample_with_seed(0).is_none());
    assert!(space.enumerate().is_none());
}

#[test]
fn structural_sizes() {
    assert_eq!(Space::new_discrete(-4, 0).len(), 0);
    assert!(Space::new_discrete(0, 0).is_empty());
    assert_eq!(nested_space().len(), 4);
    assert_eq!(Space::new_box(vec![1, 2, 3], vec![4, 5, 6]).len(), 3);
}

#[test]
fn seeded_choice_picks_among_eligible_branches() {
    let o = free_range::spaces::OneOf {
        spaces: vec![Space::new_discrete(0, 0), Space::new_discrete(1, 7), Space::new_discrete(1, 9)],
    };
    let first = o.sample_choice_with_seed(0, 5).unwrap();
    let first = first.as_one_of().unwrap();
    assert_eq!(first.0, 1);
    assert_eq!(first.1.as_discrete().unwrap().0, 7);
    let second = o.sample_choice_with_seed(1, 5).unwrap();
    let second = second.as_one_of().unwrap();
    assert_eq!(second.0, 2);
    assert_eq!(second.1.as_discrete().unwrap().0, 9);
    assert!(o.sample_choice_with_seed(2, 5).is_none());
}
