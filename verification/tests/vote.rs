use ncd_classifier::classifier::{compute_klass_freq, get_max_freq_klass};
use ncd_classifier::dist::Dist;

fn pairs_of(labels: &[u8]) -> Vec<(Dist, u8)> {
    let mut v = Vec::new();
    for (i, &label) in labels.iter().enumerate() {
        v.push((Dist::new(i + 1, i + 1, 2 * i + 2), label));
    }
    v
}

#[test]
fn majority_vote_simple() {
    let pairs = pairs_of(&[1, 2, 1]);
    let mut freq = compute_klass_freq(&pairs, 3);
    assert_eq!(freq, [0, 2, 1, 0, 0]);
    let idx = get_max_freq_klass(&mut freq);
    assert_eq!(idx, 1);
}

#[test]
fn tie_breaks_by_ascending_code_not_vote_order() {
    // Two classes with equal counts: the lower code wins, whatever the order
    // of the votes.
    let pairs = pairs_of(&[1, 2, 2, 1]);
    let mut freq = compute_klass_freq(&pairs, 4);
    assert_eq!(freq, [0, 2, 2, 0, 0]);
    assert_eq!(get_max_freq_klass(&mut freq), 1);

    let pairs = pairs_of(&[2, 2, 1, 1]);
    let mut freq = compute_klass_freq(&pairs, 4);
    assert_eq!(freq, [0, 2, 2, 0, 0]);
    assert_eq!(get_max_freq_klass(&mut freq), 1);
}

#[test]
fn majority_with_two_against_one() {
    // [1, 2, 2] has a strict majority for 2; [2, 1, 1] one for 1.
    let pairs = pairs_of(&[1, 2, 2]);
    let mut freq = compute_klass_freq(&pairs, 3);
    assert_eq!(get_max_freq_klass(&mut freq), 2);

    let pairs = pairs_of(&[2, 1, 1]);
    let mut freq = compute_klass_freq(&pairs, 3);
    assert_eq!(get_max_freq_klass(&mut freq), 1);
}

#[test]
fn vote_counts_only_the_k_closest() {
    // The pairs are already ascending by distance; with k = 2 only the first
    // two labels count.
    let pairs = pairs_of(&[3, 3, 1, 1, 1]);
    let mut freq = compute_klass_freq(&pairs, 2);
    assert_eq!(freq, [0, 0, 0, 2, 0]);
    assert_eq!(get_max_freq_klass(&mut freq), 3);
}

#[test]
fn unknown_codes_fall_in_no_bucket() {
    let pairs = pairs_of(&[9, 200, 4]);
    let mut freq = compute_klass_freq(&pairs, 3);
    assert_eq!(freq, [0, 0, 0, 0, 1]);
    assert_eq!(get_max_freq_klass(&mut freq), 4);
}

#[test]
fn all_zero_counts_yield_index_zero() {
    let mut freq = [0i32; 5];
    assert_eq!(get_max_freq_klass(&mut freq), 0);
}

#[test]
fn oversized_k_counts_everything() {
    let pairs = pairs_of(&[2, 2]);
    let mut freq = compute_klass_freq(&pairs, 1000);
    assert_eq!(freq, [0, 0, 2, 0, 0]);
    assert_eq!(get_max_freq_klass(&mut freq), 2);
}
