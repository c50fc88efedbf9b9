use stardb_exporter::pulls::pull_url_candidates;

#[test]
fn latest_gacha_record_first() {
    let data = "junk1/0/https://a.example/getGachaLog?x=1\0tail1/0/other1/0/https://b.example/getLdGachaLog?y=2\0\0more";
    assert_eq!(
        pull_url_candidates(data),
        vec![
            "https://b.example/getLdGachaLog?y=2".to_string(),
            "https://a.example/getGachaLog?x=1".to_string(),
        ]
    );
}

#[test]
fn records_without_scheme_or_marker_are_skipped() {
    let data = "http://a.example/getGachaLog1/0/https://b.example/other1/0/https://c.example/getGachaLog";
    assert_eq!(pull_url_candidates(data), vec!["https://c.example/getGachaLog".to_string()]);
    assert!(pull_url_candidates("").is_empty());
}
