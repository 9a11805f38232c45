use shardmeld::capabilities::{capabilities_report, ENGINE_VERSION, REPORT_FORMAT, REPORT_VERSION};
use shardmeld::magnet::{check_tracker_parts, magnet_from_parts, parse_v1_magnet, MagnetError, UrlParts};
use shardmeld::metadata::{parse_tracker_response, MetadataError, PeerIp};
use shardmeld::tracker::{percent_encode_bytes, redact_tracker_url, shuffled_tier};

#[test]
fn percent_encodes_every_raw_byte() {
    assert_eq!(percent_encode_bytes(&[0, b'A', 0xff]), "%00%41%FF");
}

#[test]
fn redacts_private_tracker_query_from_reports() {
    assert_eq!(
        redact_tracker_url("https://tracker.example/announce?passkey=secret"),
        "https://tracker.example/announce?<redacted>"
    );
}

#[test]
fn tier_shuffle_is_deterministic_for_one_session() {
    let tier = vec!["a".to_owned(), "b".to_owned(), "c".to_owned()];
    let peer_id = *b"-SM2000-123456789012";
    assert_eq!(
        shuffled_tier(tier.clone(), &peer_id, 0),
        shuffled_tier(tier, &peer_id, 0)
    );
}

#[test]
fn capabilities_are_versioned_and_do_not_claim_deferred_features() {
    let report = capabilities_report();
    assert_eq!(report.report_format, REPORT_FORMAT);
    assert_eq!(report.report_version, REPORT_VERSION);
    assert_eq!(report.engine_version, ENGINE_VERSION);
    assert!(report
        .deferred
        .iter()
        .all(|feature| !report.implemented.contains(feature)));
}

#[test]
fn parses_hex_and_base32_btih_with_deduplicated_trackers() {
    let hex = parse_v1_magnet(
        "magnet:?xt=urn:btih:CBFE49F2C4D44A6A4823EBFA8C829351755D90BB&dn=sqlite3.c&tr=http%3A%2F%2F127.0.0.1%3A45995%2Fannounce&tr=http%3A%2F%2F127.0.0.1%3A45995%2Fannounce",
    )
    .unwrap();
    let base32 = parse_v1_magnet("magnet:?xt=urn:btih:ZP7ET4WE2RFGUSBD5P5IZAUTKF2V3EF3").unwrap();
    assert_eq!(hex.info_hash_sha1, base32.info_hash_sha1);
    assert_eq!(hex.display_name.as_deref(), Some("sqlite3.c"));
    assert_eq!(hex.trackers.len(), 1);
}

#[test]
fn rejects_conflicting_info_hashes_and_unsupported_tracker_schemes() {
    assert!(parse_v1_magnet(
        "magnet:?xt=urn:btih:CBFE49F2C4D44A6A4823EBFA8C829351755D90BB&xt=urn:btih:0000000000000000000000000000000000000000"
    )
    .is_err());
    assert!(parse_v1_magnet(
        "magnet:?xt=urn:btih:CBFE49F2C4D44A6A4823EBFA8C829351755D90BB&tr=ftp%3A%2F%2Ftracker.example%2Fannounce"
    )
    .is_err());
}

#[test]
fn magnet_errors_are_specific() {
    assert_eq!(
        parse_v1_magnet("magnet:?xt=urn:btih:CBFE49F2C4D44A6A4823EBFA8C829351755D90BB&xt=urn:btih:0000000000000000000000000000000000000000"),
        Err(MagnetError::ConflictingInfoHash)
    );
    assert_eq!(
        parse_v1_magnet("magnet:?xt=urn:btih:CBFE49F2C4D44A6A4823EBFA8C829351755D90BB&tr=ftp%3A%2F%2Ftracker.example%2Fannounce"),
        Err(MagnetError::TrackerScheme)
    );
    assert_eq!(parse_v1_magnet("http://example.com/"), Err(MagnetError::NotMagnet));
    assert_eq!(parse_v1_magnet("magnet:?dn=x"), Err(MagnetError::NoInfoHash));
    assert_eq!(parse_v1_magnet("magnet:?xt=urn:btih:ABC"), Err(MagnetError::InfoHashLength));
    assert_eq!(parse_v1_magnet("not a url"), Err(MagnetError::Url));
    let lower = parse_v1_magnet("magnet:?xt=urn:btih:cbfe49f2c4d44a6a4823ebfa8c829351755d90bb").unwrap();
    assert_eq!(lower.info_hash_sha1, "cbfe49f2c4d44a6a4823ebfa8c829351755d90bb");
    assert_eq!(lower.display_name, None);
    assert!(lower.trackers.is_empty());
}

#[test]
fn parses_compact_ipv4_and_ipv6_tracker_peers() {
    let mut response = b"d8:intervali120e5:peers6:".to_vec();
    response.extend_from_slice(&[127, 0, 0, 1, 0xb3, 0x50]);
    response.extend_from_slice(b"6:peers618:");
    response.extend_from_slice(&[0, 0, 0, 0, 0, 0, 0, 0, 0, 0, 0, 0, 0, 0, 0, 1]);
    response.extend_from_slice(&[0xb3, 0x51]);
    response.push(b'e');

    let parsed = parse_tracker_response(&response).unwrap();
    assert_eq!(parsed.interval, 120);
    assert_eq!(parsed.peers[0].ip, PeerIp::V4(0x7f00_0001));
    assert_eq!(parsed.peers[0].port, 45904);
    assert_eq!(parsed.peers[1].ip, PeerIp::V6(1));
    assert_eq!(parsed.peers[1].port, 45905);
}

#[test]
fn parses_dictionary_tracker_peers_and_rejects_failure_reason() {
    let parsed =
        parse_tracker_response(b"d8:intervali30e5:peersld2:ip9:127.0.0.14:porti45906eeee").unwrap();
    assert_eq!(parsed.peers[0].ip, PeerIp::V4(0x7f00_0001));
    assert_eq!(parsed.peers[0].port, 45906);

    let error = parse_tracker_response(b"d14:failure reason11:not allowede").unwrap_err();
    match error {
        MetadataError::TrackerFailure(reason) => assert!(reason.contains("not allowed")),
        other => panic!("unexpected error {other:?}"),
    }
}

#[test]
fn tracker_response_edge_cases() {
    assert_eq!(
        parse_tracker_response(b"d8:intervali30e5:peers5:abcdee"),
        Err(MetadataError::CompactPeersLength)
    );
    let duplicate = parse_tracker_response(
        b"d8:intervali30e5:peers12:\x7f\x00\x00\x01\x00\x50\x7f\x00\x00\x01\x00\x50e",
    )
    .unwrap();
    assert_eq!(duplicate.peers.len(), 1);
    assert!(parse_tracker_response(b"d8:intervali30e5:peers0:ee").is_err());
    let empty = parse_tracker_response(b"d8:intervali30e5:peers0:e").unwrap();
    assert!(empty.peers.is_empty());
}

fn parts(scheme: &str, has_fragment: bool, has_host: bool, pairs: &[(&str, &str)]) -> UrlParts {
    UrlParts {
        scheme: scheme.to_owned(),
        has_fragment,
        has_host,
        query_pairs: pairs.iter().map(|(k, v)| (k.to_string(), v.to_string())).collect(),
    }
}

#[test]
fn parsed_magnet_parts_give_hash_name_and_trackers() {
    let magnet = magnet_from_parts(&parts(
        "magnet",
        false,
        false,
        &[
            ("dn", "first"),
            ("xt", "urn:btih:CBFF6B6E0A7E0D4A21D4C5AA2C4EA4C70C23F21D"),
            ("dn", "second"),
            ("xt", "urn:btmh:1220aa"),
            ("tr", "udp://tracker.example:6969"),
            ("tr", "udp://tracker.example:6969"),
        ],
    ))
    .unwrap();
    assert_eq!(magnet.info_hash_sha1, "cbff6b6e0a7e0d4a21d4c5aa2c4ea4c70c23f21d");
    assert_eq!(magnet.display_name.as_deref(), Some("first"));
    assert_eq!(magnet.trackers, vec!["udp://tracker.example:6969".to_owned()]);
}

#[test]
fn parsed_magnet_parts_are_refused_in_order() {
    assert_eq!(magnet_from_parts(&parts("https", false, true, &[])).unwrap_err(), MagnetError::NotMagnet);
    assert_eq!(magnet_from_parts(&parts("magnet", true, false, &[])).unwrap_err(), MagnetError::Fragment);
    assert_eq!(magnet_from_parts(&parts("magnet", false, false, &[("dn", "x")])).unwrap_err(), MagnetError::NoInfoHash);
    assert_eq!(
        magnet_from_parts(&parts(
            "magnet",
            false,
            false,
            &[
                ("xt", "urn:btih:CBFF6B6E0A7E0D4A21D4C5AA2C4EA4C70C23F21D"),
                ("xt", "urn:btih:0000000000000000000000000000000000000000"),
            ],
        ))
        .unwrap_err(),
        MagnetError::ConflictingInfoHash
    );
    assert_eq!(
        magnet_from_parts(&parts("magnet", false, false, &[("tr", "ftp://tracker.example/")])).unwrap_err(),
        MagnetError::TrackerScheme
    );
}

#[test]
fn parsed_tracker_parts_need_a_known_scheme_and_a_host() {
    assert_eq!(check_tracker_parts(&parts("udp", false, true, &[])), Ok(()));
    assert_eq!(check_tracker_parts(&parts("ftp", false, true, &[])), Err(MagnetError::TrackerScheme));
    assert_eq!(check_tracker_parts(&parts("http", false, false, &[])), Err(MagnetError::TrackerHost));
}
