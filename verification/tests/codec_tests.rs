use gdynya::decode_envelope;
use gdynya::natural_human_names;
use gdynya::Config;
use gdynya::HttpProtocol;
use gdynya::BAD_REQUEST;

fn envelope(index: &[u8], archive: &[u8]) -> Vec<u8> {
    let mut body = Vec::new();
    body.extend_from_slice(&(index.len() as u32).to_le_bytes());
    body.extend_from_slice(index);
    body.extend_from_slice(&(archive.len() as u32).to_le_bytes());
    body.extend_from_slice(archive);
    body
}

#[test]
fn envelope_round_trip() {
    let body = envelope(b"{\"name\":\"demo\"}", b"archive-bytes");
    let env = decode_envelope(&body).unwrap();
    assert_eq!(env.index, b"{\"name\":\"demo\"}".to_vec());
    assert_eq!(env.archive, b"archive-bytes".to_vec());
}

#[test]
fn envelope_with_empty_parts() {
    let body = envelope(b"", b"");
    let env = decode_envelope(&body).unwrap();
    assert!(env.index.is_empty());
    assert!(env.archive.is_empty());
}

#[test]
fn envelope_ignores_trailing_bytes() {
    let mut body = envelope(b"meta", b"data");
    body.extend_from_slice(b"trailing");
    let env = decode_envelope(&body).unwrap();
    assert_eq!(env.index, b"meta".to_vec());
    assert_eq!(env.archive, b"data".to_vec());
}

#[test]
fn envelope_rejects_truncated_header() {
    let err = decode_envelope(&[1, 0, 0]).unwrap_err();
    assert_eq!(err.error_type, BAD_REQUEST);
}

#[test]
fn envelope_rejects_index_length_beyond_body() {
    // Declares five metadata bytes but carries only four.
    let mut body = 5u32.to_le_bytes().to_vec();
    body.extend_from_slice(b"meta");
    let err = decode_envelope(&body).unwrap_err();
    assert_eq!(err.error_type, BAD_REQUEST);
}

#[test]
fn envelope_rejects_missing_archive_header() {
    let mut body = 4u32.to_le_bytes().to_vec();
    body.extend_from_slice(b"meta");
    body.extend_from_slice(&[1, 0]);
    let err = decode_envelope(&body).unwrap_err();
    assert_eq!(err.error_type, BAD_REQUEST);
}

#[test]
fn envelope_rejects_archive_length_beyond_body() {
    let mut body = 4u32.to_le_bytes().to_vec();
    body.extend_from_slice(b"meta");
    body.extend_from_slice(&9u32.to_le_bytes());
    body.extend_from_slice(b"archive");
    let err = decode_envelope(&body).unwrap_err();
    assert_eq!(err.error_type, BAD_REQUEST);
}

#[test]
fn one_name_stands_alone() {
    assert_eq!(natural_human_names(&["a".to_string()]), "a");
}

#[test]
fn two_names_are_joined_by_and() {
    assert_eq!(natural_human_names(&["a".to_string(), "b".to_string()]), "a and b");
}

#[test]
fn three_names_use_commas_and_a_final_and() {
    assert_eq!(
        natural_human_names(&["a".to_string(), "b".to_string(), "c".to_string()]),
        "a, b and c"
    );
}

#[test]
fn four_names_use_commas_and_a_final_and() {
    assert_eq!(
        natural_human_names(&[
            "a".to_string(),
            "b".to_string(),
            "c".to_string(),
            "d".to_string(),
        ]),
        "a, b, c and d"
    );
}

#[test]
fn config_advertises_forwarded_host_and_scheme() {
    let config = Config::new(HttpProtocol::Https, "crates.example.com");
    assert_eq!(config.api, "https://crates.example.com");
    assert_eq!(config.dl, "https://crates.example.com/api/v1/crates");
    assert!(config.auth_required);
}

#[test]
fn protocol_parse_accepts_known_schemes_only() {
    assert!(matches!(HttpProtocol::parse("http"), Ok(HttpProtocol::Http)));
    assert!(matches!(HttpProtocol::parse("https"), Ok(HttpProtocol::Https)));
    assert!(HttpProtocol::parse("ftp").is_err());
    assert_eq!(HttpProtocol::Http.as_str(), "http");
    assert_eq!(HttpProtocol::Https.as_str(), "https");
}

#[test]
fn raw_authorization_exposes_its_token() {
    let auth = gdynya::RawAuthorization::new("Bearer xyz".to_string());
    assert_eq!(auth.value(), "Bearer xyz");
}
