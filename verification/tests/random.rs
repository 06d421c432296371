//! Randomized smoke tests: the encoder and the decoders must accept any
//! string input without panicking.

use gsbrs::{decode_batch, statuses_from_vec, GSBClient};
use quickcheck::quickcheck;

fn quickcheck_build_get_url(url: String) {
    let g = GSBClient::new("testkey".to_owned());
    g.build_single_query(&url);
}

fn quickcheck_client_new(key: String) {
    let _ = GSBClient::new(key);
}

fn test_statuses_from_vec(strstatuses: Vec<String>) {
    let strstatuses: Vec<&str> = strstatuses.iter().map(|s| s.as_ref()).collect();
    let _ = statuses_from_vec(&strstatuses);
}

fn quickcheck_messages_from_response_post(cursor: String) {
    let lines = cursor.split('\n').count();
    let _ = decode_batch(&cursor, lines);
}

fn quickcheck_set_name(name: String) {
    let mut g = GSBClient::new("testkey".to_owned());
    g.change_client_name(name);
}

#[test]
fn test() {
    quickcheck(quickcheck_set_name as fn(String));

    quickcheck(quickcheck_messages_from_response_post as fn(String));
    quickcheck(test_statuses_from_vec as fn(Vec<String>));

    quickcheck(quickcheck_build_get_url as fn(String));
    quickcheck(quickcheck_client_new as fn(String));
}
