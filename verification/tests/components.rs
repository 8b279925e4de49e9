use lyagushka::{
    density_difference, score, segment, Anomaly, Factor, Fraction, Lyagushka, ZScore,
};

#[test]
fn a_cluster_record_describes_its_observations() {
    let a = Anomaly::new(&[2, 4, 9]);
    assert!(!a.is_gap());
    assert_eq!(a.elements(), &vec![2, 4, 9]);
    assert_eq!((a.start(), a.end()), (2, 9));
    assert_eq!(a.span_length(), 7);
    assert_eq!(a.num_elements(), 3);
    assert_eq!(a.centroid(), Fraction { numerator: 15, denominator: 3 });
    assert_eq!(a.z_score(), None);
}

#[test]
fn a_cluster_of_one_observation_has_no_span() {
    let a = Anomaly::new(&[-7]);
    assert_eq!((a.start(), a.end()), (-7, -7));
    assert_eq!(a.span_length(), 0);
    assert_eq!(a.num_elements(), 1);
    assert_eq!(a.centroid(), Fraction { numerator: -7, denominator: 1 });
}

#[test]
fn a_gap_record_describes_its_two_bounds() {
    let a = Anomaly::gap(-3, 10);
    assert!(a.is_gap());
    assert!(a.elements().is_empty());
    assert_eq!((a.start(), a.end()), (-3, 10));
    assert_eq!(a.span_length(), 13);
    assert_eq!(a.num_elements(), 0);
    assert_eq!(a.centroid(), Fraction { numerator: 7, denominator: 2 });
    assert_eq!(a.z_score(), None);
}

#[test]
fn scoring_changes_nothing_but_the_score() {
    let mut a = vec![Anomaly::new(&[0, 2]), Anomaly::gap(2, 12), Anomaly::new(&[12, 12])];
    score(&mut a);
    assert_eq!(a[0].elements(), &vec![0, 2]);
    assert_eq!((a[0].start(), a[0].end(), a[0].span_length(), a[0].num_elements()), (0, 2, 2, 2));
    assert_eq!(a[0].centroid(), Fraction { numerator: 2, denominator: 2 });
    assert_eq!((a[1].start(), a[1].end(), a[1].span_length(), a[1].num_elements()), (2, 12, 10, 0));
    assert_eq!(a[1].centroid(), Fraction { numerator: 14, denominator: 2 });
    assert_eq!(a[2], Anomaly::new(&[12, 12]));
}

#[test]
fn segment_leaves_the_scores_unset() {
    let factor = Factor::new(1, 1).unwrap();
    let a = segment(&vec![1, 2, 3, 50, 51, 52, 100], factor, 2, 2);
    assert_eq!(a.len(), 4);
    assert!(a.iter().all(|x| x.z_score().is_none()));
    assert_eq!(a[0], Anomaly::new(&[1, 2, 3]));
    assert_eq!(a[1], Anomaly::gap(3, 50));
    assert_eq!(a[2], Anomaly::new(&[50, 51, 52]));
    assert_eq!(a[3], Anomaly::gap(52, 100));
}

#[test]
fn segment_of_a_short_dataset_is_empty() {
    let factor = Factor::new(1, 1).unwrap();
    assert!(segment(&vec![], factor, 1, 2).is_empty());
    assert!(segment(&vec![4], factor, 1, 2).is_empty());
}

#[test]
fn pairs_within_the_cluster_threshold_form_one_run() {
    let factor = Factor::new(1, 1).unwrap();
    let a = segment(&vec![0, 4, 8, 10, 18], factor, 2, 2);
    assert_eq!(a.len(), 1);
    assert_eq!(a[0].elements(), &vec![0, 4, 8, 10]);
}

#[test]
fn a_pair_at_the_gap_threshold_is_no_gap() {
    let factor = Factor::new(1, 1).unwrap();
    let a = segment(&vec![0, 1, 2, 8, 9, 15], factor, 2, 2);
    assert_eq!(a.len(), 2);
    assert!(a.iter().all(|x| !x.is_gap()));
    let b = segment(&vec![0, 1, 2, 8, 9, 15], factor, 2, 1);
    assert_eq!(b.len(), 4);
    assert_eq!(b[1], Anomaly::gap(2, 8));
    assert_eq!(b[3], Anomaly::gap(9, 15));
}

#[test]
fn scan_anomalies_replaces_what_was_found() {
    let factor = Factor::new(1, 1).unwrap();
    let mut zhaba = Lyagushka::new(vec![1, 2, 3, 50, 51, 52, 100]);
    zhaba.scan_anomalies(factor, 2);
    assert_eq!(zhaba.anomalies().len(), 4);
    zhaba.scan_anomalies(factor, 2);
    assert_eq!(zhaba.anomalies().len(), 4);
    assert!(zhaba.anomalies().iter().all(|x| x.z_score().is_none()));
    assert_eq!(zhaba.dataset(), &vec![1, 2, 3, 50, 51, 52, 100]);
}

#[test]
fn score_of_nothing_is_nothing() {
    let mut a: Vec<Anomaly> = Vec::new();
    score(&mut a);
    assert!(a.is_empty());
}

#[test]
fn score_of_a_single_gap_is_zero() {
    let mut a = vec![Anomaly::gap(0, 9)];
    score(&mut a);
    assert_eq!(a[0].z_score(), Some(ZScore::Exact { numerator: 0, radicand: 1 }));
}

#[test]
fn score_uses_the_spans_of_all_segments_for_gaps() {
    let mut a = vec![Anomaly::new(&[0, 2]), Anomaly::gap(2, 12), Anomaly::gap(20, 26)];
    score(&mut a);
    assert_eq!(a[1].z_score(), Some(ZScore::Exact { numerator: 12, radicand: 96 }));
    assert_eq!(a[2].z_score(), Some(ZScore::Exact { numerator: 0, radicand: 96 }));
    assert_eq!(a[0].z_score(), Some(ZScore::Exact { numerator: 0, radicand: 1 }));
}

#[test]
fn score_marks_clusters_whose_densities_differ() {
    let mut a = vec![Anomaly::new(&[0, 3]), Anomaly::gap(3, 10), Anomaly::new(&[10, 11])];
    score(&mut a);
    assert_eq!(a[0].z_score(), Some(ZScore::Density));
    assert_eq!(a[2].z_score(), Some(ZScore::Density));
    assert_eq!(a[1].z_score(), Some(ZScore::Exact { numerator: 10, radicand: 56 }));
}

#[test]
fn score_tells_densities_apart_exactly() {
    let mut a = vec![Anomaly::new(&[0, 2000000000]), Anomaly::new(&[0, 2000000001])];
    score(&mut a);
    assert_eq!(a[0].z_score(), Some(ZScore::Density));
    assert_eq!(a[1].z_score(), Some(ZScore::Density));
    let mut b = vec![Anomaly::new(&[0, 1, 3]), Anomaly::new(&[10, 12]), Anomaly::new(&[5, 5])];
    score(&mut b);
    assert_eq!(b[0].z_score(), Some(ZScore::Exact { numerator: 0, radicand: 1 }));
    assert_eq!(b[1].z_score(), Some(ZScore::Exact { numerator: 0, radicand: 1 }));
    assert_eq!(b[2].z_score(), None);
}

#[test]
fn the_difference_of_two_densities_is_exact() {
    let (a, b) = (Anomaly::new(&[0, 1, 3]), Anomaly::new(&[10, 11, 12, 13, 17]));
    assert_eq!(density_difference(&a, &b), Fraction { numerator: 6, denominator: 21 });
    assert_eq!(density_difference(&b, &a), Fraction { numerator: -6, denominator: 21 });
    assert_eq!(density_difference(&a, &a), Fraction { numerator: 0, denominator: 9 });
    let wide = Anomaly::new(&[i32::MIN, i32::MAX]);
    assert_eq!(
        density_difference(&wide, &wide),
        Fraction { numerator: 0, denominator: 18446744065119617025 }
    );
    assert_eq!(
        density_difference(&a, &wide),
        Fraction { numerator: 12884901879, denominator: 12884901885 }
    );
}

#[test]
fn score_leaves_out_clusters_of_equal_observations() {
    let mut a = vec![Anomaly::new(&[4, 4]), Anomaly::new(&[0, 1]), Anomaly::new(&[10, 12])];
    score(&mut a);
    assert_eq!(a[0].z_score(), None);
    assert_eq!(a[1].z_score(), Some(ZScore::Density));
    assert_eq!(a[2].z_score(), Some(ZScore::Density));
}

#[test]
fn scoring_again_gives_the_same_scores() {
    let mut a = vec![Anomaly::new(&[0, 2]), Anomaly::gap(2, 12), Anomaly::gap(20, 26)];
    score(&mut a);
    let first = a.clone();
    score(&mut a);
    assert_eq!(a, first);
    assert_eq!(a[1].z_score(), Some(ZScore::Exact { numerator: 12, radicand: 96 }));
}
