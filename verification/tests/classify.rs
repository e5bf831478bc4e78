use ncd_classifier::classifier::klassify_text;
use ncd_classifier::klass::Klass;
use ncd_classifier::sample::Sample;
use ncd_classifier::store::load_train_data;

fn store_samples(stream: &[u8]) -> Vec<Sample> {
    load_train_data(&stream.to_vec()).unwrap().samples
}

#[test]
fn empty_store_classifies_to_invalid() {
    let samples: Vec<Sample> = Vec::new();
    let r = klassify_text(&b"anything at all".to_vec(), &samples, 1000).unwrap();
    assert_eq!(r, "Invalid");
}

#[test]
fn nearest_neighbor_label_wins_with_k_one() {
    let stream = b"header\n\
        1,The north wind and the sun were disputing which was the stronger\n\
        2,0123456789 9876543210 zzzzyyyyxxxx qqqq kkkk wwww vvvv uuuu\n\
        3,lorem ipsum dolor sit amet consectetur adipiscing elit sed do\n";
    let samples = store_samples(stream);
    let query = b"The north wind and the sun were disputing which was the stronger".to_vec();
    let r = klassify_text(&query, &samples, 1).unwrap();
    assert_eq!(r, "World");
}

#[test]
fn undersized_store_considers_all_samples() {
    let stream = b"header\n\
        2,one two three four five six seven eight nine ten\n\
        2,ten nine eight seven six five four three two one\n";
    let samples = store_samples(stream);
    assert_eq!(samples.len(), 2);
    let r = klassify_text(&b"three four five six".to_vec(), &samples, 1000).unwrap();
    assert_eq!(r, "Sports");
}

#[test]
fn classification_is_deterministic_across_calls() {
    let stream = b"header\n\
        1,the markets rallied on news from the central bank\n\
        2,the home team won the final in extra time\n\
        3,quarterly earnings beat expectations across the sector\n\
        4,the new chip doubles performance at half the power\n";
    let samples = store_samples(stream);
    let query = b"the team lost the away game after extra time".to_vec();
    let first = klassify_text(&query, &samples, 3).unwrap();
    for _ in 0..5 {
        assert_eq!(klassify_text(&query, &samples, 3).unwrap(), first);
    }
}

#[test]
fn klass_codes_map_to_display_names() {
    assert_eq!(Klass::from(1usize).name(), "World");
    assert_eq!(Klass::from(2usize).name(), "Sports");
    assert_eq!(Klass::from(3usize).name(), "Business");
    assert_eq!(Klass::from(4usize).name(), "Sci/Tech");
    assert_eq!(Klass::from(0usize).name(), "Invalid");
    assert_eq!(Klass::from(5usize).name(), "Invalid");
    assert_eq!(Klass::from(200usize).name(), "Invalid");
}

#[test]
fn sample_new_keeps_its_fields() {
    let s = Sample::new(3, vec![1, 2, 3], b"abc".to_vec());
    assert_eq!(s.klass, 3);
    assert_eq!(s.text, vec![1, 2, 3]);
    assert_eq!(s.original, b"abc".to_vec());
}
