//! Scenario tests for the request encoder, the response decoders and the
//! error taxonomy.

use gsbrs::{
    build_batch_body, check_status, classify, decode_batch, decode_batch_response, decode_single,
    decode_single_response, statuses_from_vec, GSBClient, GSBError, Status, StatusSet,
};

#[test]
fn test_build_post_url() {
    let g = GSBClient::new("testkey".to_owned());

    let s = format!(
        "https://sb-ssl.google.\
                 com/safebrowsing/api/lookup?client=gsbrs&key=testkey&appver={}&pver=3.1",
        "0.6.0"
    );
    assert_eq!(g.build_batch_query(), s.to_owned());
}

#[test]
fn test_build_get_url() {
    let g = GSBClient::new("testkey".to_owned());
    let u = "https://google.com/".to_owned();
    let s = format!(
        "https://sb-ssl.google.com/safebrowsing/api/lookup?\
                client=gsbrs&key=testkey&appver={}&pver=3.1\
                &url=https%3A%2F%2Fgoogle.com%2F",
        "0.6.0"
    );
    assert_eq!(g.build_single_query(&u), s.to_owned());
}

#[test]
fn test_statuses_from_vec() {
    let statuses = vec!["phishing", "malware", "unwanted", "ok"];
    let statuses = statuses_from_vec(&statuses).ok().expect("");
    assert_eq!(
        vec![Status::Phishing, Status::Malware, Status::Unwanted, Status::Clean],
        statuses
    );

    let statuses = vec!["", "", "", ""];
    let statuses = statuses_from_vec(&statuses).ok().expect("");
    assert!(statuses.is_empty());

    let statuses = vec!["malformed"];
    let statuses = statuses_from_vec(&statuses).unwrap_err();
    match statuses {
        GSBError::MalformedMessage(msg) => {
            assert_eq!(msg, "malformed");
        }
        _ => panic!(),
    }
}

#[test]
fn single_query_is_deterministic() {
    let g = GSBClient::new("some-key".to_owned());
    let first = g.build_single_query("http://example.org/a b?x=1&y=2");
    let second = g.build_single_query("http://example.org/a b?x=1&y=2");
    assert_eq!(first, second);
}

#[test]
fn single_query_parameter_order_and_escaping() {
    let mut g = GSBClient::new("k&=".to_owned());
    g.change_client_name("my client".to_owned());
    let q = g.build_single_query("http://example.org/?a=1&b=2");
    assert_eq!(
        q,
        "https://sb-ssl.google.com/safebrowsing/api/lookup?\
         client=my+client&key=k%26%3D&appver=0.6.0&pver=3.1\
         &url=http%3A%2F%2Fexample.org%2F%3Fa%3D1%26b%3D2"
    );
}

#[test]
fn batch_body_lists_count_then_urls() {
    let urls = vec!["https://a.example/".to_owned(), "https://b.example/".to_owned()];
    let body = build_batch_body(&urls).unwrap();
    assert_eq!(body, "2\nhttps://a.example/\nhttps://b.example/");
}

#[test]
fn batch_body_of_no_urls_is_the_count_alone() {
    let urls: Vec<String> = Vec::new();
    let body = build_batch_body(&urls).unwrap();
    assert_eq!(body, "0");
}

#[test]
fn batch_body_round_trips() {
    let urls: Vec<String> = (0..500).map(|i| format!("https://example.org/{}", i)).collect();
    let body = build_batch_body(&urls).unwrap();
    let lines: Vec<&str> = body.split('\n').collect();
    assert_eq!(lines.len(), urls.len() + 1);
    assert_eq!(lines[0].parse::<usize>().unwrap(), urls.len());
    for (line, url) in lines[1..].iter().zip(urls.iter()) {
        assert_eq!(line, url);
    }
}

#[test]
fn batch_body_enforces_the_url_limit() {
    let urls: Vec<String> = (0..501).map(|i| format!("https://example.org/{}", i)).collect();
    assert_eq!(build_batch_body(&urls), Err(GSBError::TooManyUrls));
}

#[test]
fn classify_covers_the_token_table() {
    assert_eq!(classify("phishing"), Ok(Some(Status::Phishing)));
    assert_eq!(classify("malware"), Ok(Some(Status::Malware)));
    assert_eq!(classify("unwanted"), Ok(Some(Status::Unwanted)));
    assert_eq!(classify("ok"), Ok(Some(Status::Clean)));
    assert_eq!(classify(""), Ok(None));
    assert_eq!(
        classify("gambling"),
        Err(GSBError::MalformedMessage("gambling".to_owned()))
    );
}

#[test]
fn decode_single_accumulates_a_set() {
    let ss = decode_single("phishing,malware").unwrap();
    assert!(ss.contains(Status::Phishing));
    assert!(ss.contains(Status::Malware));
    assert!(!ss.contains(Status::Unwanted));
    assert!(!ss.contains(Status::Clean));

    let duplicates = decode_single("phishing,phishing,malware").unwrap();
    assert_eq!(duplicates, ss);
}

#[test]
fn decode_single_of_an_empty_body_is_empty() {
    let ss = decode_single("").unwrap();
    assert!(ss.is_empty());
}

#[test]
fn decode_single_reports_the_unknown_token() {
    assert_eq!(
        decode_single("bogus"),
        Err(GSBError::MalformedMessage("bogus".to_owned()))
    );
    assert_eq!(
        decode_single("phishing,bogus,malware"),
        Err(GSBError::MalformedMessage("bogus".to_owned()))
    );
}

#[test]
fn decode_batch_keeps_length_and_order() {
    let v = decode_batch("ok\nphishing", 2).unwrap();
    assert_eq!(v.len(), 2);
    assert_eq!(
        v[0],
        StatusSet { clean: true, phishing: false, malware: false, unwanted: false }
    );
    assert_eq!(
        v[1],
        StatusSet { clean: false, phishing: true, malware: false, unwanted: false }
    );
}

#[test]
fn decode_batch_never_drops_an_empty_line() {
    let v = decode_batch("\nmalware,unwanted\n", 3).unwrap();
    assert_eq!(v.len(), 3);
    assert!(v[0].is_empty());
    assert!(v[1].contains(Status::Malware));
    assert!(v[1].contains(Status::Unwanted));
    assert!(v[2].is_empty());
}

#[test]
fn decode_batch_rejects_a_wrong_line_count() {
    assert_eq!(
        decode_batch("ok\nphishing", 3),
        Err(GSBError::MalformedMessage("ok\nphishing".to_owned()))
    );
}

#[test]
fn check_status_accepts_only_success_codes() {
    assert_eq!(check_status(200), Ok(()));
    assert_eq!(check_status(204), Ok(()));
    assert_eq!(check_status(404), Err(GSBError::HTTPStatusCode(404)));
    assert_eq!(check_status(500), Err(GSBError::HTTPStatusCode(500)));
}

#[test]
fn batch_response_with_an_error_code_is_not_parsed() {
    assert_eq!(
        decode_batch_response(404, "bogus\nlines", 2),
        Err(GSBError::HTTPStatusCode(404))
    );
}

#[test]
fn batch_response_no_content_means_all_clean() {
    let v = decode_batch_response(204, "ignored", 3).unwrap();
    assert_eq!(v.len(), 3);
    for ss in v {
        assert!(ss.is_empty());
    }
}

#[test]
fn batch_response_with_content_is_decoded() {
    let v = decode_batch_response(200, "ok\nphishing,malware", 2).unwrap();
    assert_eq!(v.len(), 2);
    assert!(v[0].contains(Status::Clean));
    assert!(v[1].contains(Status::Phishing));
    assert!(v[1].contains(Status::Malware));
}

#[test]
fn single_response_follows_the_status_code() {
    assert_eq!(
        decode_single_response(404, "phishing"),
        Err(GSBError::HTTPStatusCode(404))
    );
    assert!(decode_single_response(204, "ignored").unwrap().is_empty());
    let ss = decode_single_response(200, "unwanted").unwrap();
    assert!(ss.contains(Status::Unwanted));
}

#[test]
fn error_messages_name_the_offending_text() {
    let e = GSBError::MalformedMessage("oddity".to_owned());
    assert!(e.message().ends_with("oddity"));
    let e = GSBError::TooManyUrls;
    assert!(!e.message().is_empty());
}
