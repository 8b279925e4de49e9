use lyagushka::{
    density_difference, Anomaly, Factor, Fraction, Lyagushka, SearchError, ZScore, MAX_VALUES,
};

fn found(values: Vec<i32>, numerator: u32, denominator: u32, min_cluster_size: usize) -> Vec<Anomaly> {
    let factor = Factor::new(numerator, denominator).unwrap();
    let mut zhaba = Lyagushka::new(values);
    assert_eq!(zhaba.search(factor, min_cluster_size), Ok(()));
    zhaba.anomalies().clone()
}

fn found_with_scale(values: Vec<i32>, gap_scale: u32) -> Vec<Anomaly> {
    let factor = Factor::new(1, 1).unwrap();
    let mut zhaba = Lyagushka::new(values).with_gap_scale(gap_scale);
    assert_eq!(zhaba.search(factor, 2), Ok(()));
    zhaba.anomalies().clone()
}

fn as_float(z: Option<ZScore>) -> f64 {
    match z.unwrap() {
        ZScore::Exact { numerator, radicand } => numerator as f64 / (radicand as f64).sqrt(),
        ZScore::Density => panic!("scored by density"),
    }
}

fn scores_by_density(a: &[Anomaly]) -> Vec<f64> {
    let densities: Vec<f64> = a
        .iter()
        .filter(|x| x.z_score() == Some(ZScore::Density))
        .map(|x| x.num_elements() as f64 / x.span_length() as f64)
        .collect();
    let count = densities.len() as f64;
    let mean = densities.iter().sum::<f64>() / count;
    let variance = densities.iter().map(|d| (d - mean) * (d - mean)).sum::<f64>() / count;
    densities.iter().map(|d| (d - mean) / variance.sqrt()).collect()
}

fn position(c: Fraction) -> f64 {
    c.numerator as f64 / c.denominator as f64
}

#[test]
fn two_clusters_and_two_gaps() {
    let a = found(vec![1, 2, 3, 50, 51, 52, 100], 1, 1, 2);
    assert_eq!(a.len(), 4);

    assert!(!a[0].is_gap());
    assert_eq!(a[0].elements(), &vec![1, 2, 3]);
    assert_eq!((a[0].start(), a[0].end()), (1, 3));
    assert_eq!(a[0].span_length(), 2);
    assert_eq!(a[0].num_elements(), 3);
    assert_eq!(position(a[0].centroid()), 2.0);

    assert!(a[1].is_gap());
    assert!(a[1].elements().is_empty());
    assert_eq!((a[1].start(), a[1].end()), (3, 50));
    assert_eq!(a[1].span_length(), 47);
    assert_eq!(a[1].num_elements(), 0);
    assert_eq!(position(a[1].centroid()), 26.5);

    assert!(!a[2].is_gap());
    assert_eq!(a[2].elements(), &vec![50, 51, 52]);
    assert_eq!(a[2].num_elements(), 3);
    assert_eq!(position(a[2].centroid()), 51.0);

    assert!(a[3].is_gap());
    assert_eq!((a[3].start(), a[3].end()), (52, 100));
    assert_eq!(a[3].span_length(), 48);
    assert_eq!(position(a[3].centroid()), 76.0);

    for segment in a.iter() {
        let z = as_float(segment.z_score());
        assert!(z.is_finite());
    }
    assert!(as_float(a[1].z_score()) > 0.0);
    assert!(as_float(a[3].z_score()) > as_float(a[1].z_score()));
}

#[test]
fn scores_of_the_two_gaps_are_exact() {
    let a = found(vec![1, 2, 3, 50, 51, 52, 100], 1, 1, 2);
    assert_eq!(a[0].z_score(), Some(ZScore::Exact { numerator: 0, radicand: 1 }));
    assert_eq!(a[1].z_score(), Some(ZScore::Exact { numerator: 89, radicand: 8283 }));
    assert_eq!(a[2].z_score(), Some(ZScore::Exact { numerator: 0, radicand: 1 }));
    assert_eq!(a[3].z_score(), Some(ZScore::Exact { numerator: 93, radicand: 8283 }));
    let mean = 24.75_f64;
    let deviation = (4521.0_f64 / 4.0 - mean * mean).sqrt();
    assert!((as_float(a[1].z_score()) - (47.0 - mean) / deviation).abs() < 1e-12);
    assert!((as_float(a[3].z_score()) - (48.0 - mean) / deviation).abs() < 1e-12);
}

#[test]
fn centroids_are_exact_fractions() {
    let a = found(vec![1, 2, 3, 50, 51, 52, 100], 1, 1, 2);
    assert_eq!(a[0].centroid(), Fraction { numerator: 6, denominator: 3 });
    assert_eq!(a[1].centroid(), Fraction { numerator: 53, denominator: 2 });
    assert_eq!(a[2].centroid(), Fraction { numerator: 153, denominator: 3 });
    assert_eq!(a[3].centroid(), Fraction { numerator: 152, denominator: 2 });
}

#[test]
fn the_dataset_is_sorted_first() {
    let factor = Factor::new(1, 1).unwrap();
    let mut zhaba = Lyagushka::new(vec![100, 3, 52, 1, 51, 2, 50]);
    assert_eq!(zhaba.dataset(), &vec![100, 3, 52, 1, 51, 2, 50]);
    assert_eq!(zhaba.search(factor, 2), Ok(()));
    assert_eq!(zhaba.dataset(), &vec![1, 2, 3, 50, 51, 52, 100]);
    assert_eq!(zhaba.anomalies(), &found(vec![1, 2, 3, 50, 51, 52, 100], 1, 1, 2));
    assert_eq!(zhaba.anomalies()[0].elements(), &vec![1, 2, 3]);
}

#[test]
fn fewer_than_two_observations_give_nothing() {
    assert!(found(vec![], 1, 1, 1).is_empty());
    assert!(found(vec![7], 1, 1, 1).is_empty());
    assert!(found(vec![7], 3, 2, 0).is_empty());
}

#[test]
fn even_spacing_is_one_cluster_at_factor_one() {
    let a = found(vec![0, 10, 20, 30], 1, 1, 2);
    assert_eq!(a.len(), 1);
    assert!(!a[0].is_gap());
    assert_eq!(a[0].elements(), &vec![0, 10, 20, 30]);
    assert_eq!(a[0].span_length(), 30);
    assert_eq!(position(a[0].centroid()), 15.0);
    assert_eq!(a[0].z_score(), Some(ZScore::Exact { numerator: 0, radicand: 1 }));
}

#[test]
fn even_spacing_has_no_gap_at_larger_factors() {
    assert!(found(vec![0, 10, 20, 30], 2, 1, 2).is_empty());
    assert!(found(vec![0, 10, 20, 30], 3, 2, 1).is_empty());
    assert!(found(vec![-5, 0, 5, 10, 15], 100, 1, 2).iter().all(|x| !x.is_gap()));
}

#[test]
fn even_spacing_below_the_minimum_size_is_dropped() {
    assert!(found(vec![0, 10, 20, 30], 1, 1, 5).is_empty());
    assert_eq!(found(vec![0, 10, 20, 30], 1, 1, 4).len(), 1);
}

#[test]
fn equal_observations_form_a_cluster_without_a_score() {
    let a = found(vec![5, 5, 5], 1, 1, 2);
    assert_eq!(a.len(), 1);
    assert!(!a[0].is_gap());
    assert_eq!(a[0].elements(), &vec![5, 5, 5]);
    assert_eq!(a[0].span_length(), 0);
    assert_eq!(a[0].num_elements(), 3);
    assert_eq!(position(a[0].centroid()), 5.0);
    assert_eq!(a[0].z_score(), None);
}

#[test]
fn searching_twice_gives_the_same() {
    let factor = Factor::new(1, 1).unwrap();
    let mut zhaba = Lyagushka::new(vec![9, 1, 2, 300, 301, 4, 100, 104, 3, 102]);
    assert_eq!(zhaba.search(factor, 2), Ok(()));
    let first = zhaba.anomalies().clone();
    assert_eq!(zhaba.search(factor, 2), Ok(()));
    assert_eq!(zhaba.anomalies(), &first);
    let mut other = Lyagushka::new(vec![9, 1, 2, 300, 301, 4, 100, 104, 3, 102]);
    assert_eq!(other.search(factor, 2), Ok(()));
    assert_eq!(other.anomalies(), &first);
}

#[test]
fn segments_come_in_the_order_of_the_data() {
    let a = found(vec![1, 2, 3, 4, 100, 102, 104, 300, 301], 1, 1, 2);
    assert_eq!(a.len(), 5);
    for pair in a.windows(2) {
        assert!(pair[0].start() < pair[1].start());
        assert!(pair[0].end() <= pair[1].start());
    }
    let starts: Vec<i32> = a.iter().map(|x| x.start()).collect();
    assert_eq!(starts, vec![1, 4, 100, 104, 300]);
}

#[test]
fn clusters_of_different_density_are_scored_by_density() {
    let a = found(vec![1, 2, 3, 4, 100, 102, 104, 300, 301], 1, 1, 2);
    assert_eq!(a[0].z_score(), Some(ZScore::Density));
    assert_eq!(a[1].z_score(), Some(ZScore::Exact { numerator: 180, radicand: 148290 }));
    assert_eq!(a[2].z_score(), Some(ZScore::Density));
    assert_eq!(a[3].z_score(), Some(ZScore::Exact { numerator: 680, radicand: 148290 }));
    assert_eq!(a[4].z_score(), Some(ZScore::Density));
    assert_eq!((a[0].num_elements(), a[0].span_length()), (4, 3));
    assert_eq!((a[2].num_elements(), a[2].span_length()), (3, 4));
    assert_eq!((a[4].num_elements(), a[4].span_length()), (2, 1));
    assert_eq!(density_difference(&a[0], &a[2]), Fraction { numerator: 7, denominator: 12 });
    assert_eq!(density_difference(&a[2], &a[4]), Fraction { numerator: -5, denominator: 4 });
    assert_eq!(density_difference(&a[4], &a[4]), Fraction { numerator: 0, denominator: 1 });
    let z = scores_by_density(&a);
    assert_eq!(z.len(), 3);
    assert!((z[0] - -0.054393).abs() < 1e-6);
    assert!((z[1] - -1.196642).abs() < 1e-6);
    assert!((z[2] - 1.251035).abs() < 1e-6);
    assert!(z.iter().sum::<f64>().abs() < 1e-12);
    assert!((z.iter().map(|x| x * x).sum::<f64>() / 3.0 - 1.0).abs() < 1e-12);
}

#[test]
fn small_densities_that_differ_are_not_scored_zero() {
    let a = found(vec![0, 1200000, 1000000000, 1001500000], 1, 1, 2);
    assert_eq!(a.len(), 3);
    assert_eq!(a[0].elements(), &vec![0, 1200000]);
    assert_eq!(a[0].z_score(), Some(ZScore::Density));
    assert!(a[1].is_gap());
    assert_eq!(
        a[1].z_score(),
        Some(ZScore::Exact { numerator: 1994900000, radicand: 1989813140000000000 })
    );
    assert_eq!(a[2].elements(), &vec![1000000000, 1001500000]);
    assert_eq!(a[2].z_score(), Some(ZScore::Density));
    assert_eq!(
        density_difference(&a[0], &a[2]),
        Fraction { numerator: 600000, denominator: 1800000000000 }
    );
    let z = scores_by_density(&a);
    assert!((z[0] - 1.0).abs() < 1e-9);
    assert!((z[1] + 1.0).abs() < 1e-9);
}

#[test]
fn scaling_the_data_keeps_the_rules_of_the_scores() {
    let small = found(vec![0, 12, 10000, 10015], 1, 1, 2);
    let large = found(vec![0, 1200000, 1000000000, 1001500000], 1, 1, 2);
    assert_eq!(small.len(), large.len());
    assert_eq!(small[0].z_score(), large[0].z_score());
    assert_eq!(small[2].z_score(), large[2].z_score());
    let (z_small, z_large) = (scores_by_density(&small), scores_by_density(&large));
    assert!((z_small[0] - z_large[0]).abs() < 1e-9);
    assert!((as_float(small[1].z_score()) - as_float(large[1].z_score())).abs() < 1e-9);
}

#[test]
fn clusters_of_equal_density_are_scored_zero_whatever_their_size() {
    let a = found(vec![0, 1, 2, 4, 100, 102, 104, 106, 108, 110, 112, 116, 400], 1, 1, 2);
    let clusters: Vec<&Anomaly> = a.iter().filter(|x| !x.is_gap()).collect();
    assert_eq!(clusters.len(), 2);
    assert_eq!((clusters[0].num_elements(), clusters[0].span_length()), (4, 4));
    assert_eq!((clusters[1].num_elements(), clusters[1].span_length()), (8, 16));
    assert!(clusters.iter().all(|x| x.z_score() == Some(ZScore::Density)));
    let b = found(vec![0, 1, 2, 4, 100, 101, 102, 103, 104, 105, 106, 108, 400], 1, 1, 2);
    let clusters: Vec<&Anomaly> = b.iter().filter(|x| !x.is_gap()).collect();
    assert_eq!(clusters.len(), 2);
    assert_eq!((clusters[0].num_elements(), clusters[0].span_length()), (4, 4));
    assert_eq!((clusters[1].num_elements(), clusters[1].span_length()), (8, 8));
    assert!(clusters
        .iter()
        .all(|x| x.z_score() == Some(ZScore::Exact { numerator: 0, radicand: 1 })));
    assert_eq!(density_difference(clusters[0], clusters[1]).numerator, 0);
}

#[test]
fn a_minimum_of_one_keeps_every_run() {
    let a = found(vec![1, 2, 50, 51, 52, 100], 1, 1, 1);
    assert_eq!(a.len(), 4);
    assert_eq!(a[0].elements(), &vec![1, 2]);
    assert!(a[1].is_gap());
    assert_eq!(a[2].elements(), &vec![50, 51, 52]);
    assert!(a[3].is_gap());
    assert_eq!(a[0].z_score(), Some(ZScore::Density));
    assert_eq!(a[2].z_score(), Some(ZScore::Density));
    assert_eq!(scores_by_density(&a), vec![1.0, -1.0]);
    assert_eq!(found(vec![1, 2, 50, 51, 52, 100], 1, 1, 0), a);
    assert_eq!(found(vec![1, 2, 50, 51, 52, 100], 1, 1, 2), a);
}

#[test]
fn a_run_below_the_minimum_is_dropped_without_a_trace() {
    let a = found(vec![1, 2, 50, 51, 52, 100], 1, 1, 3);
    assert_eq!(a.len(), 3);
    assert!(a[0].is_gap());
    assert_eq!((a[0].start(), a[0].end()), (2, 50));
    assert_eq!(a[1].elements(), &vec![50, 51, 52]);
    assert!(a[2].is_gap());
    assert_eq!(a[0].z_score(), Some(ZScore::Exact { numerator: 46, radicand: 4232 }));
}

#[test]
fn a_larger_factor_narrows_clusters_and_raises_the_gap_threshold() {
    let a = found(vec![1, 2, 3, 50, 51, 52, 100], 3, 2, 2);
    assert_eq!(a.len(), 2);
    assert!(a.iter().all(|x| !x.is_gap()));
    let b = found(vec![1, 2, 3, 50, 51, 52, 100], 1, 2, 2);
    assert_eq!(b.len(), 4);
}

#[test]
fn the_gap_scale_moves_the_gap_threshold() {
    let values = vec![0, 1, 2, 30, 31, 32, 70];
    assert_eq!(found_with_scale(values.clone(), 1).len(), 4);
    assert_eq!(found_with_scale(values.clone(), 2).len(), 4);
    let a = found_with_scale(values.clone(), 3);
    assert_eq!(a.len(), 3);
    assert!(!a[0].is_gap() && !a[1].is_gap() && a[2].is_gap());
    assert_eq!((a[2].start(), a[2].end()), (32, 70));
    assert_eq!(a[2].z_score(), Some(ZScore::Exact { numerator: 72, radicand: 2592 }));
    assert_eq!(found(values, 1, 1, 2), found_with_scale(vec![0, 1, 2, 30, 31, 32, 70], 2));
}

#[test]
fn the_default_gap_scale_is_two() {
    let zhaba = Lyagushka::new(vec![1, 2]);
    assert_eq!(zhaba.gap_scale(), 2);
    assert_eq!(lyagushka::DEFAULT_GAP_SCALE, 2);
    assert_eq!(zhaba.with_gap_scale(7).gap_scale(), 7);
}

#[test]
fn the_whole_range_of_observations_is_handled() {
    let a = found(vec![i32::MIN, i32::MAX], 1, 1, 1);
    assert_eq!(a.len(), 1);
    assert_eq!(a[0].span_length(), 4294967295);
    assert_eq!(a[0].centroid(), Fraction { numerator: -1, denominator: 2 });
    let b = found(vec![i32::MAX, i32::MIN, i32::MAX, i32::MIN], 1, 1, 1);
    assert_eq!(b.len(), 3);
    assert_eq!(b[0].z_score(), None);
    assert_eq!(
        b[1].z_score(),
        Some(ZScore::Exact { numerator: 8589934590, radicand: 36893488130239234050 })
    );
    assert_eq!(b[2].centroid(), Fraction { numerator: 4294967294, denominator: 2 });
}

#[test]
fn a_factor_must_be_positive() {
    assert!(Factor::new(0, 1).is_none());
    assert!(Factor::new(1, 0).is_none());
    assert!(Factor::new(0, 0).is_none());
    let factor = Factor::new(3, 2).unwrap();
    assert_eq!((factor.numerator(), factor.denominator()), (3, 2));
}

#[test]
fn a_new_lyagushka_has_found_nothing() {
    let zhaba = Lyagushka::new(vec![3, 1, 2]);
    assert_eq!(zhaba.dataset(), &vec![3, 1, 2]);
    assert!(zhaba.anomalies().is_empty());
}

#[test]
fn too_many_values_are_refused() {
    let factor = Factor::new(1, 1).unwrap();
    let mut zhaba = Lyagushka::new(vec![0; MAX_VALUES + 1]);
    assert_eq!(zhaba.search(factor, 2), Err(SearchError::TooManyValues));
    assert!(zhaba.anomalies().is_empty());
    assert_eq!(zhaba.dataset().len(), MAX_VALUES + 1);
}

#[test]
fn negative_observations_are_handled() {
    let a = found(vec![0, -9, -10, -98, -99, -100], 1, 1, 2);
    assert_eq!(a.len(), 3);
    assert_eq!(a[0].elements(), &vec![-100, -99, -98]);
    assert_eq!(a[0].centroid(), Fraction { numerator: -297, denominator: 3 });
    assert_eq!(position(a[0].centroid()), -99.0);
    assert_eq!(a[0].z_score(), Some(ZScore::Density));
    assert_eq!((a[1].start(), a[1].end()), (-98, -10));
    assert_eq!(a[1].centroid(), Fraction { numerator: -108, denominator: 2 });
    assert_eq!(a[1].z_score(), Some(ZScore::Exact { numerator: 164, radicand: 13544 }));
    assert_eq!(a[2].elements(), &vec![-10, -9, 0]);
    assert_eq!(a[2].z_score(), Some(ZScore::Density));
    assert_eq!(density_difference(&a[0], &a[2]), Fraction { numerator: 24, denominator: 20 });
    let z = scores_by_density(&a);
    assert!((z[0] - 1.0).abs() < 1e-12 && (z[1] + 1.0).abs() < 1e-12);
}

#[test]
fn a_cluster_of_equal_observations_starts_where_the_next_gap_starts() {
    let a = found(vec![7, 7, 7, 7, 20, 20, 20, 40], 1, 1, 2);
    assert_eq!(a.len(), 4);
    assert_eq!(a[0].elements(), &vec![7, 7, 7, 7]);
    assert_eq!(a[0].z_score(), None);
    assert_eq!((a[1].start(), a[1].end()), (7, 20));
    assert_eq!(a[1].z_score(), Some(ZScore::Exact { numerator: 19, radicand: 1187 }));
    assert_eq!(a[2].elements(), &vec![20, 20, 20]);
    assert_eq!(a[2].z_score(), None);
    assert_eq!((a[3].start(), a[3].end()), (20, 40));
    assert_eq!(a[3].z_score(), Some(ZScore::Exact { numerator: 47, radicand: 1187 }));
    for pair in a.windows(2) {
        assert!(pair[0].start() <= pair[1].start());
        assert!(pair[0].end() <= pair[1].start());
    }
}

#[test]
fn a_factor_below_one_widens_the_clusters() {
    let a = found(vec![0, 3, 6, 9, 12, 30], 2, 3, 2);
    assert_eq!(a.len(), 2);
    assert_eq!(a[0].elements(), &vec![0, 3, 6, 9, 12]);
    assert_eq!(a[0].z_score(), Some(ZScore::Exact { numerator: 0, radicand: 1 }));
    assert_eq!((a[1].start(), a[1].end()), (12, 30));
    assert_eq!(a[1].z_score(), Some(ZScore::Exact { numerator: 6, radicand: 36 }));
    assert_eq!(as_float(a[1].z_score()), 1.0);
}

#[test]
fn every_centroid_lies_within_its_segment() {
    let a = found(vec![1, 2, 3, 4, 100, 102, 104, 300, 301, -50, -49, -20], 1, 1, 2);
    assert!(!a.is_empty());
    for segment in a.iter() {
        let c = position(segment.centroid());
        assert!(segment.start() as f64 <= c && c <= segment.end() as f64);
        assert!(segment.span_length() >= 0);
        assert_eq!(segment.span_length(), segment.end() as i64 - segment.start() as i64);
        assert_eq!(segment.is_gap(), segment.num_elements() == 0);
        assert_eq!(segment.elements().len(), segment.num_elements());
    }
}
