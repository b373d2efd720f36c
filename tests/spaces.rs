use free_range::spaces::{
    Box, DictSample, DictSpace, Discrete, DiscreteSample, OneOf, Sample, Space, TupleSample,
    TupleSpace, VectorSample, VectorSpace,
};
use std::collections::HashSet;

fn discrete_value(s: &Sample) -> i32 {
    s.as_discrete().expect("Sample is not of type Sample::Discrete").0
}

fn key(s: &Sample) -> String {
    format!("{:?}", s)
}

#[test]
fn test_discrete_len() {
    let space = Discrete { n: 5, start: 10 };

    assert_eq!(space.len(), 5);
}

#[test]
fn test_discrete_sample() {
    let space = Discrete { n: 5, start: 10 };

    let sample = space.sample().unwrap();
    let val = sample.as_discrete().unwrap().0;

    assert!((10..15).contains(&val));
}

#[test]
fn test_discrete_sample_with_seed() {
    let space = Discrete { n: 5, start: 10 };
    let seed = 42;

    let sample_with_seed = space.sample_with_seed(seed).unwrap();
    let val2 = sample_with_seed.as_discrete().unwrap().0;
    let repeated = space.sample_with_seed(seed).unwrap();
    let val3 = repeated.as_discrete().unwrap().0;

    assert!((10..15).contains(&val2));
    assert_eq!(val2, val3);
}

#[test]
fn test_discrete_enumerate() {
    let space = Discrete { n: 5, start: 10 };

    let all = space.enumerate().unwrap();
    let vals: Vec<i32> = all.iter().map(|s| s.as_discrete().unwrap().0).collect();

    assert_eq!(vals, vec![10, 11, 12, 13, 14]);
}

#[test]
fn test_boxspace_len() {
    let space = Box { low: vec![0, 0], high: vec![1, 2] };

    let len = space.len();

    assert_eq!(len, 2);
}

#[test]
fn test_boxspace_sample() {
    let space = Box { low: vec![0, 0], high: vec![1, 2] };

    let sample = space.sample().unwrap();
    let vals = &sample.as_box().unwrap().0;

    assert_eq!(vals.len(), 2);
    assert!(vals[0] >= 0 && vals[0] <= 1);
    assert!(vals[1] >= 0 && vals[1] <= 2);
}

#[test]
fn test_boxspace_enumerate() {
    let space = Box { low: vec![0, 0], high: vec![1, 2] };
    let mut seen = HashSet::new();

    for s in space.enumerate().unwrap() {
        let v = &s.as_box().unwrap().0;
        assert!(v[0] >= 0 && v[0] <= 1);
        assert!(v[1] >= 0 && v[1] <= 2);
        assert!(seen.insert((v[0], v[1])));
    }

    assert_eq!(seen.len(), 6);
}

fn two_discretes() -> Vec<Space> {
    vec![Space::new_discrete(2, 5), Space::new_discrete(3, 10)]
}

#[test]
fn test_oneof_len() {
    let space = OneOf { spaces: two_discretes() };

    assert_eq!(space.len(), 2);
}

#[test]
fn test_oneof_sample() {
    let space = OneOf { spaces: two_discretes() };

    let sample = space.sample().unwrap();
    let o = sample.as_one_of().unwrap();
    let (idx, inner) = (&o.0, &o.1);

    assert!(*idx == 0 || *idx == 1);
    let _ = inner.as_discrete().unwrap();
}

#[test]
fn test_oneof_enumerate() {
    let space = OneOf { spaces: two_discretes() };

    let mut seen = HashSet::new();
    for s in space.enumerate().unwrap() {
        let o = s.as_one_of().unwrap();
        let idx = o.0;
        let val = o.1.as_discrete().unwrap().0;

        seen.insert((idx, val));
    }

    assert_eq!(seen.len(), 5);
}

fn pair_of_discretes() -> Vec<Space> {
    vec![Space::new_discrete(2, 1), Space::new_discrete(2, 10)]
}

#[test]
fn test_tuple_len() {
    let space = TupleSpace { spaces: pair_of_discretes() };

    assert_eq!(space.len(), 2);
}

#[test]
fn test_tuple_sample() {
    let space = TupleSpace { spaces: pair_of_discretes() };

    let sample = space.sample().unwrap();
    let vals = sample.as_tuple().unwrap();

    assert_eq!(vals.len(), 2);
    assert!(vals[0].as_tuple().is_none());
    assert!(vals[0].as_dict().is_none());
    assert!(vals[0].as_vector().is_none());
    let _ = vals[0].as_discrete().unwrap();
    let _ = vals[1].as_discrete().unwrap();
}

#[test]
fn test_tuple_enumerate() {
    let space = TupleSpace { spaces: pair_of_discretes() };

    let mut seen = HashSet::new();
    for s in space.enumerate().unwrap() {
        let v = s.as_tuple().unwrap();
        let a = v[0].as_discrete().unwrap().0;
        let b = v[1].as_discrete().unwrap().0;

        seen.insert((a, b));
    }

    assert_eq!(seen.len(), 4);
}

fn named_pair() -> Vec<(String, Space)> {
    vec![
        ("a".to_string(), Space::new_discrete(2, 1)),
        ("b".to_string(), Space::new_discrete(2, 10)),
    ]
}

#[test]
fn test_dict_len() {
    let space = DictSpace { spaces: named_pair() };

    assert_eq!(space.len(), 2);
}

#[test]
fn test_dict_sample() {
    let space = DictSpace { spaces: named_pair() };

    let sample = space.sample().unwrap();
    let vals = sample.as_dict().unwrap();

    assert_eq!(vals.len(), 2);
    let _ = vals.get(&"a".to_string()).unwrap().as_discrete().unwrap();
    let _ = vals.get(&"b".to_string()).unwrap().as_discrete().unwrap();
}

#[test]
fn test_dict_enumerate() {
    let space = DictSpace { spaces: named_pair() };

    let mut seen = HashSet::new();
    for s in space.enumerate().unwrap() {
        let m = s.as_dict().unwrap();
        let a = m.get(&"a".to_string()).unwrap().as_discrete().unwrap().0;
        let b = m.get(&"b".to_string()).unwrap().as_discrete().unwrap().0;

        seen.insert((a, b));
    }

    assert_eq!(seen.len(), 4);
}

#[test]
fn test_vector_len() {
    let space = VectorSpace { spaces: pair_of_discretes() };

    assert_eq!(space.len(), 2);
}

#[test]
fn test_vector_sample() {
    let space = VectorSpace { spaces: pair_of_discretes() };

    let sample = space.sample().unwrap();
    let vals = sample.as_vector().unwrap();

    assert_eq!(vals.len(), 2);
    let _ = vals[0].as_discrete().unwrap();
    let _ = vals[1].as_discrete().unwrap();
}

#[test]
fn test_as_tuple() {
    let tuple = Sample::Tuple(TupleSample::from_concrete(vec![DiscreteSample(1), DiscreteSample(2)]));
    let dict = Sample::Dict(DictSample(vec![]));
    let vector = Sample::Vector(VectorSample(vec![]));
    let discrete = Sample::Discrete(DiscreteSample(7));

    assert!(tuple.as_tuple().is_some());
    assert_eq!(tuple.as_tuple().unwrap().len(), 2);
    assert!(dict.as_tuple().is_none());
    assert!(vector.as_tuple().is_none());
    assert!(discrete.as_tuple().is_none());
}

#[test]
fn test_as_dict() {
    let dict = Sample::Dict(DictSample::from_concrete(vec![
        ("a".to_string(), DiscreteSample(3)),
        ("b".to_string(), DiscreteSample(4)),
    ]));
    let tuple = Sample::Tuple(TupleSample(vec![]));
    let vector = Sample::Vector(VectorSample(vec![]));
    let discrete = Sample::Discrete(DiscreteSample(7));

    assert!(dict.as_dict().is_some());
    assert_eq!(dict.as_dict().unwrap().len(), 2);
    assert!(tuple.as_dict().is_none());
    assert!(vector.as_dict().is_none());
    assert!(discrete.as_dict().is_none());
}

#[test]
fn test_as_vector() {
    let vector =
        Sample::Vector(VectorSample::from_concrete(vec![DiscreteSample(5), DiscreteSample(6)]));
    let tuple = Sample::Tuple(TupleSample(vec![]));
    let dict = Sample::Dict(DictSample(vec![]));
    let discrete = Sample::Discrete(DiscreteSample(7));

    assert!(vector.as_vector().is_some());
    assert_eq!(vector.as_vector().unwrap().len(), 2);
    assert!(tuple.as_vector().is_none());
    assert!(dict.as_vector().is_none());
    assert!(discrete.as_vector().is_none());
}

// A vector space enumerates each slot on its own: one list per slot, not a
// cartesian product across slots.
#[test]
fn test_vector_enumerate() {
    let space = VectorSpace { spaces: pair_of_discretes() };
    let mut seen = HashSet::new();

    let all = space.enumerate().unwrap();
    assert_eq!(all.len(), 2);
    for (slot, s) in all.iter().enumerate() {
        let v = s.as_vector().unwrap();
        for x in v {
            seen.insert((slot, x.as_discrete().unwrap().0));
        }
    }

    assert_eq!(seen.len(), 4);
    assert_eq!(all[0].as_vector().unwrap().iter().map(discrete_value).collect::<Vec<_>>(), vec![1, 2]);
    assert_eq!(all[1].as_vector().unwrap().iter().map(discrete_value).collect::<Vec<_>>(), vec![10, 11]);
}

#[test]
fn test_discrete_space_sample() {
    let space = Space::new_discrete(5, 10);

    let Some(Sample::Discrete(DiscreteSample(sample))) = space.sample() else {
        panic!("Sample is not of type Sample::Discrete");
    };
    assert!(sample >= 10 && sample < 15);

    let seed = 42;
    let Some(Sample::Discrete(DiscreteSample(sample_with_seed))) = space.sample_with_seed(seed) else {
        panic!("Sample is not of type Sample::Discrete");
    };
    assert!(sample_with_seed >= 10 && sample_with_seed < 15);

    let Some(Sample::Discrete(DiscreteSample(repeated_sample))) = space.sample_with_seed(seed) else {
        panic!("Sample is not of type Sample::Discrete");
    };
    assert_eq!(sample_with_seed, repeated_sample);
}

#[test]
fn test_box_space_sample() {
    let space = Space::new_box(vec![0, 0, 0, 0], vec![1, 2, 3, 4]);

    let Some(Sample::Box(sample)) = space.sample() else {
        panic!("Sample is not of type Sample::Box");
    };
    let sample = sample.0;
    assert!(sample[0] > 0 || sample[0] <= 1);
    assert!(sample[1] > 0 || sample[1] <= 2);
    assert!(sample[2] > 0 || sample[2] <= 3);
    assert!(sample[3] > 0 || sample[3] <= 4);

    let seed = 42;
    let Some(Sample::Box(sample_with_seed)) = space.sample_with_seed(seed) else {
        panic!("Sample is not of type Sample::Box");
    };
    let sample_with_seed = sample_with_seed.0;
    assert!(sample_with_seed[0] > 0 || sample_with_seed[0] <= 1);
    assert!(sample_with_seed[1] > 0 || sample_with_seed[1] <= 2);
    assert!(sample_with_seed[2] > 0 || sample_with_seed[2] <= 3);
    assert!(sample_with_seed[3] > 0 || sample_with_seed[3] <= 4);

    let Some(Sample::Box(repeated_sample)) = space.sample_with_seed(seed) else {
        panic!("Sample is not of type Sample::Box");
    };
    assert_eq!(sample_with_seed, repeated_sample.0);
}

#[test]
fn test_oneof_space_sample() {
    let space = Space::new_one_of(vec![Space::new_discrete(3, 5), Space::new_discrete(2, 10)]);

    let Some(Sample::OneOf(o)) = space.sample() else {
        panic!("Sample is not of type Sample::OneOf");
    };
    let index = o.0;
    let Sample::Discrete(DiscreteSample(sample)) = *o.1 else {
        panic!("Inner sample is not of type Sample::Discrete");
    };
    assert!((index == 0 && sample >= 5 && sample < 8) || (index == 1 && sample >= 10 && sample < 12));

    let seed = 42;
    let Some(Sample::OneOf(o)) = space.sample_with_seed(seed) else {
        panic!("Sample is not of type Sample::OneOf");
    };
    let index = o.0;
    let Sample::Discrete(DiscreteSample(sample_with_seed)) = *o.1 else {
        panic!("Inner sample is not of type Sample::Discrete");
    };
    println!("index: {}, sample: {}", index, sample_with_seed);

    assert!(
        (index == 0 && sample_with_seed >= 5 && sample_with_seed < 8)
            || (index == 1 && sample_with_seed >= 10 && sample_with_seed < 12)
    );

    let Some(Sample::OneOf(o)) = space.sample_with_seed(seed) else {
        panic!("Sample is not of type Sample::OneOf");
    };
    let repeated_index = o.0;
    let Sample::Discrete(DiscreteSample(repeated_sample)) = *o.1 else {
        panic!("Inner sample is not of type Sample::Discrete");
    };
    println!("index: {}, sample: {}", repeated_index, repeated_sample);

    assert_eq!(index, repeated_index);
    assert_eq!(sample_with_seed, repeated_sample);
}

#[test]
fn test_vector_space_sample_nested() {
    let space = Space::new_vector(vec![Space::new_discrete(5, 10), Space::new_discrete(2, 20)]);

    let nested_sample = space.sample_nested().unwrap();
    assert_eq!(nested_sample.len(), 2);

    let Sample::Discrete(DiscreteSample(first_sample)) = nested_sample[0] else {
        panic!("First sample is not of type Sample::Discrete");
    };
    let Sample::Discrete(DiscreteSample(second_sample)) = nested_sample[1] else {
        panic!("Second sample is not of type Sample::Discrete");
    };
    assert!(first_sample >= 10 && first_sample < 15);
    assert!(second_sample >= 20 && second_sample < 22);

    let seed = 42;
    let nested_sample_with_seed = space.sample_nested_with_seed(seed).unwrap();
    assert_eq!(nested_sample_with_seed.len(), 2);

    let samples: Vec<i32> = nested_sample_with_seed
        .iter()
        .map(|sample| match sample {
            Sample::Discrete(DiscreteSample(i)) => *i,
            _ => panic!("Sample is not of type Sample::Discrete"),
        })
        .collect();
    assert!(samples[0] >= 10 && samples[0] < 15);
    assert!(samples[1] >= 20 && samples[1] < 22);

    let repeated_nested_sample = space.sample_nested_with_seed(seed).unwrap();
    let repeat_sample: Vec<i32> = repeated_nested_sample
        .iter()
        .map(|sample| match sample {
            Sample::Discrete(DiscreteSample(i)) => *i,
            _ => panic!("Sample is not of type Sample::Discrete"),
        })
        .collect();
    assert_eq!(samples, repeat_sample);
}

// Asking a non-vector space for per-slot samples is no error: there is no value.
#[test]
fn test_oneof_throws_with_nested_sample() {
    let space = Space::new_one_of(vec![Space::new_discrete(3, 5), Space::new_discrete(2, 10)]);
    assert!(space.sample_nested().is_none());
}

#[test]
fn test_discrete_throws_with_nested_sample() {
    let space = Space::new_discrete(5, 10);
    assert!(space.sample_nested().is_none());
}

#[test]
fn test_box_throws_with_nested_sample() {
    let space = Space::new_box(vec![0, 0], vec![1, 1]);
    assert!(space.sample_nested().is_none());
}

// A vector space samples one value per slot.
#[test]
fn test_vector_throws_with_sample() {
    let space = Space::new_vector(vec![
        Space::new_one_of(vec![Space::new_discrete(3, 5), Space::new_discrete(2, 10)]),
        Space::new_discrete(5, 15),
    ]);
    let s = space.sample().unwrap();
    let slots = s.as_vector().unwrap();
    assert_eq!(slots.len(), 2);
    assert!(slots[0].as_one_of().is_some());
    let v = slots[1].as_discrete().unwrap().0;
    assert!(v >= 15 && v < 20);
}

#[test]
fn test_discrete_space_enumerate() {
    let space = Space::new_discrete(5, 10);
    let enumerated = space.enumerate().unwrap();

    assert_eq!(enumerated.len(), 5);

    for (i, sample) in enumerated.iter().enumerate() {
        assert_eq!(discrete_value(sample), i as i32 + 10);
    }
}

#[test]
fn test_box_space_enumerate() {
    let space = Space::new_box(vec![0, 0, 0], vec![1, 2, 3]);

    let result = space.enumerate().unwrap();

    assert_eq!(result.len(), 24);

    let mut seen = HashSet::new();
    for sample in result.iter() {
        let Sample::Box(sample) = sample else {
            panic!("Sample is not of type Sample::Box")
        };
        let sample = &sample.0;

        assert!(sample[0] >= 0 && sample[0] <= 1);
        assert!(sample[1] >= 0 && sample[1] <= 2);
        assert!(sample[2] >= 0 && sample[2] <= 3);

        assert!(seen.insert(sample.clone()), "Duplicate enumeration found: {:?}", sample)
    }
}

#[test]
fn test_oneof_space_enumerate() {
    let space = Space::new_one_of(vec![Space::new_discrete(3, 5), Space::new_discrete(2, 10)]);

    let result = space.enumerate().unwrap();

    assert_eq!(result.len(), 5);

    let mut seen = HashSet::new();
    for sample in result.iter() {
        assert!(seen.insert(key(sample)), "Duplicate enumeration found: {:?}", sample)
    }
}

#[test]
fn test_vector_space_nested_enumerate() {
    let space = Space::new_vector(vec![Space::new_discrete(5, 10), Space::new_discrete(2, 20)]);

    let result = space.enumerate_nested().unwrap();

    assert_eq!(result.len(), 2);

    let expected_first_space: Vec<i32> = (10..15).collect();
    let expected_second_space: Vec<i32> = (20..22).collect();

    assert_eq!(result[0].iter().map(discrete_value).collect::<Vec<_>>(), expected_first_space);
    assert_eq!(result[1].iter().map(discrete_value).collect::<Vec<_>>(), expected_second_space);
}

#[test]
fn test_discrete_throws_with_nested_enumerate() {
    let space = Space::new_discrete(5, 10);
    assert!(space.enumerate_nested().is_none());
}

#[test]
fn test_box_throws_with_nested_enumerate() {
    let space = Space::new_box(vec![0, 0, 0], vec![1, 2, 3]);
    assert!(space.enumerate_nested().is_none());
}

#[test]
fn test_oneof_throws_with_nested_enumerate() {
    let space = Space::new_one_of(vec![Space::new_discrete(3, 5), Space::new_discrete(2, 10)]);
    assert!(space.enumerate_nested().is_none());
}

// A vector space enumerates as one list per slot.
#[test]
fn test_vector_throws_with_enumerate() {
    let space = Space::new_vector(vec![
        Space::new_one_of(vec![Space::new_discrete(3, 5), Space::new_discrete(2, 10)]),
        Space::new_discrete(5, 15),
    ]);
    let all = space.enumerate().unwrap();
    assert_eq!(all.len(), 2);
    assert_eq!(all[0].as_vector().unwrap().len(), 5);
    assert_eq!(all[1].as_vector().unwrap().len(), 5);
}
