use haar_bands::sampling::{DownSampler, UpSampler};

#[test]
fn test_upsampling() {
    let vec = vec![1, 2, 3];
    let mut sampler = UpSampler::with_zero(2);
    let mut iter = sampler.iter(vec);
    assert_eq!(Some(1), iter.next(&mut sampler));
    assert_eq!(Some(0), iter.next(&mut sampler));
    assert_eq!(Some(2), iter.next(&mut sampler));
    assert_eq!(Some(0), iter.next(&mut sampler));
    assert_eq!(Some(3), iter.next(&mut sampler));

    let vec = vec![4, 5, 6];
    let mut iter = sampler.iter(vec);
    assert_eq!(Some(0), iter.next(&mut sampler));
    assert_eq!(Some(4), iter.next(&mut sampler));
    assert_eq!(Some(0), iter.next(&mut sampler));
    assert_eq!(Some(5), iter.next(&mut sampler));
    assert_eq!(Some(0), iter.next(&mut sampler));
    assert_eq!(Some(6), iter.next(&mut sampler));
    assert_eq!(Some(0), iter.next(&mut sampler));
    assert_eq!(None, iter.next(&mut sampler));
}

#[test]
fn test_downsampling() {
    let vec = vec![1, 2, 3];
    let mut sampler = DownSampler::new(2);
    let mut iter = sampler.iter(vec);
    assert_eq!(Some(1), iter.next(&mut sampler));
    assert_eq!(Some(3), iter.next(&mut sampler));
    assert_eq!(None, iter.next(&mut sampler));

    let vec = vec![4, 5, 6];
    let mut iter = sampler.iter(vec);
    assert_eq!(Some(5), iter.next(&mut sampler));
    assert_eq!(None, iter.next(&mut sampler));
}

#[test]
fn down_sample_keeps_phase_across_chunks() {
    let mut sampler = DownSampler::new(2);
    assert_eq!(sampler.down_sample(&vec![1, 2, 3]), vec![1, 3]);
    assert_eq!(sampler.down_sample(&vec![4, 5, 6]), vec![5]);
    assert_eq!(sampler.down_sample(&vec![7, 8]), vec![7]);
}

#[test]
fn down_sample_by_three() {
    let mut sampler = DownSampler::new(3);
    assert_eq!(sampler.down_sample(&vec![10, 11, 12, 13]), vec![10, 13]);
    assert_eq!(sampler.down_sample(&vec![14, 15, 16, 17]), vec![16]);
}

#[test]
fn down_sample_empty_and_zero_scale() {
    let mut sampler = DownSampler::new(2);
    assert_eq!(sampler.down_sample(&Vec::<i32>::new()), Vec::<i32>::new());
    let mut none = DownSampler::new(0);
    assert_eq!(none.down_sample(&vec![1, 2, 3]), Vec::<i32>::new());
    let mut iter = none.iter(vec![1, 2, 3]);
    assert_eq!(None, iter.next(&mut none));
}

#[test]
fn up_sample_whole_chunks() {
    let mut sampler = UpSampler::new(2, 0);
    assert_eq!(sampler.up_sample(&vec![1, 2, 3]), vec![1, 0, 2, 0, 3, 0]);
    assert_eq!(sampler.up_sample(&vec![4]), vec![4, 0]);
    assert_eq!(sampler.up_sample(&Vec::new()), Vec::<i32>::new());
}

#[test]
fn up_sample_finishes_group_already_begun() {
    let mut sampler = UpSampler::new(3, 9);
    let mut iter = sampler.iter(vec![1]);
    assert_eq!(Some(1), iter.next(&mut sampler));
    assert_eq!(sampler.up_sample(&vec![2, 3]), vec![9, 9, 2, 9, 9, 3, 9, 9]);
}

#[test]
fn up_sampling_phase_holds_on_exhaustion() {
    let mut sampler = UpSampler::new(2, 7);
    let mut iter = sampler.iter(Vec::new());
    assert_eq!(None, iter.next(&mut sampler));
    assert_eq!(None, iter.next(&mut sampler));
    let mut iter = sampler.iter(vec![5]);
    assert_eq!(Some(5), iter.next(&mut sampler));
    assert_eq!(Some(7), iter.next(&mut sampler));
    assert_eq!(None, iter.next(&mut sampler));
}

#[test]
fn with_zero_fills_with_zero() {
    let mut sampler: UpSampler<i64> = UpSampler::with_zero(3);
    assert_eq!(sampler.up_sample(&vec![-4, 8]), vec![-4, 0, 0, 8, 0, 0]);
}

#[test]
fn whole_groups_round_trip_length() {
    let xs: Vec<i32> = (1..=8).collect();
    let mut down = DownSampler::new(2);
    let mut up = UpSampler::new(2, 0);
    let kept = down.down_sample(&xs);
    assert_eq!(kept, vec![1, 3, 5, 7]);
    let back = up.up_sample(&kept);
    assert_eq!(back, vec![1, 0, 3, 0, 5, 0, 7, 0]);
    assert_eq!(back.len(), xs.len());
    // both phases are back at zero: the next chunk starts a fresh group
    assert_eq!(down.down_sample(&vec![9, 10]), vec![9]);
    assert_eq!(up.up_sample(&vec![9]), vec![9, 0]);
}
