use std::sync::Arc;

use ncd_classifier::classifier::klassify_text;
use ncd_classifier::store::load_train_data;

#[test]
fn concurrent_classification_matches_sequential() {
    let stream = b"header\n\
        1,the summit ended with a joint statement on trade\n\
        2,the champions kept their title after a penalty shootout\n\
        3,shares fell sharply after the profit warning\n\
        4,researchers unveiled a battery with twice the density\n\
        2,the defender was sold for a record transfer fee\n";
    let store = Arc::new(load_train_data(&stream.to_vec()).unwrap());
    let query = Arc::new(b"the striker scored twice and the title race is open".to_vec());
    let expected = klassify_text(&query, &store.samples, 3).unwrap();

    let rt = tokio::runtime::Builder::new_multi_thread().worker_threads(4).build().unwrap();
    let mut handles = Vec::new();
    for _ in 0..8 {
        let store = Arc::clone(&store);
        let query = Arc::clone(&query);
        handles.push(rt.spawn(async move { klassify_text(&query, &store.samples, 3).unwrap() }));
    }
    for h in handles {
        let got = rt.block_on(h).unwrap();
        assert_eq!(got, expected);
    }
}
