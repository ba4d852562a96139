use tinydnsproxy::dns_parser::{get_requested_domain, tweak_to_nxdomain};
use tinydnsproxy::error::ErrorKind;

/// A DNS query header with the given question count, followed by the body.
fn packet_with(qdcount: u16, body: &[u8]) -> Vec<u8> {
    let mut p = vec![0x12, 0x34, 0x01, 0x00];
    p.extend_from_slice(&[(qdcount >> 8) as u8, (qdcount & 0xff) as u8]);
    p.extend_from_slice(&[0, 0, 0, 0, 0, 0]);
    p.extend_from_slice(body);
    p
}

fn encode_name(name: &str) -> Vec<u8> {
    let mut out = Vec::new();
    for label in name.split('.') {
        out.push(label.len() as u8);
        out.extend_from_slice(label.as_bytes());
    }
    out.push(0);
    out
}

#[test]
fn extracts_simple_domain() {
    let p = packet_with(1, &encode_name("example.com"));
    assert_eq!(get_requested_domain(&p).unwrap(), "example.com");
}

#[test]
fn extracts_domain_case_preserved_no_trailing_dot() {
    let p = packet_with(1, &encode_name("ExAmPlE.CoM"));
    assert_eq!(get_requested_domain(&p).unwrap(), "ExAmPlE.CoM");
}

#[test]
fn extracts_single_label() {
    let p = packet_with(1, &encode_name("localhost"));
    assert_eq!(get_requested_domain(&p).unwrap(), "localhost");
}

#[test]
fn extracts_root_as_empty() {
    let p = packet_with(1, &[0]);
    assert_eq!(get_requested_domain(&p).unwrap(), "");
}

#[test]
fn ignores_bytes_after_terminator() {
    let mut body = encode_name("a.b");
    body.extend_from_slice(&[0, 1, 0, 1]);
    let p = packet_with(1, &body);
    assert_eq!(get_requested_domain(&p).unwrap(), "a.b");
}

#[test]
fn rejects_two_questions() {
    let p = packet_with(2, &encode_name("example.com"));
    let e = get_requested_domain(&p).unwrap_err();
    assert_eq!(e.kind, ErrorKind::DnsTooManyQuestions);
}

#[test]
fn rejects_zero_questions() {
    let p = packet_with(0, &encode_name("example.com"));
    let e = get_requested_domain(&p).unwrap_err();
    assert_eq!(e.kind, ErrorKind::DnsTooManyQuestions);
}

#[test]
fn rejects_short_header() {
    let e = get_requested_domain(&[0x12, 0x34, 0x01]).unwrap_err();
    assert_eq!(e.kind, ErrorKind::DnsParsing);
}

#[test]
fn rejects_missing_terminator() {
    let p = packet_with(1, &[3, b'a', b'b', b'c']);
    let e = get_requested_domain(&p).unwrap_err();
    assert_eq!(e.kind, ErrorKind::DnsParsing);
}

#[test]
fn rejects_label_overrunning_buffer() {
    let p = packet_with(1, &[9, b'a', b'b']);
    let e = get_requested_domain(&p).unwrap_err();
    assert_eq!(e.kind, ErrorKind::DnsParsing);
}

#[test]
fn rejects_invalid_utf8_label() {
    let p = packet_with(1, &[2, 0xff, 0xfe, 0]);
    let e = get_requested_domain(&p).unwrap_err();
    assert_eq!(e.kind, ErrorKind::TextDecoding);
}

#[test]
fn nxdomain_rewrites_only_flag_bytes() {
    let original = packet_with(1, &encode_name("ads.example.com"));
    let mut p = original.clone();
    tweak_to_nxdomain(&mut p).unwrap();
    assert_eq!(p[2], 0x81);
    assert_eq!(p[3], 0x83);
    assert_eq!(p.len(), original.len());
    for i in 0..p.len() {
        if i != 2 && i != 3 {
            assert_eq!(p[i], original[i]);
        }
    }
}

#[test]
fn nxdomain_is_idempotent() {
    let mut once = packet_with(1, &encode_name("ads.example.com"));
    tweak_to_nxdomain(&mut once).unwrap();
    let mut twice = once.clone();
    tweak_to_nxdomain(&mut twice).unwrap();
    assert_eq!(once, twice);
}

#[test]
fn nxdomain_rejects_short_buffer() {
    let mut p = vec![0x12, 0x34];
    let e = tweak_to_nxdomain(&mut p).unwrap_err();
    assert_eq!(e.kind, ErrorKind::DnsParsing);
    assert_eq!(p, vec![0x12, 0x34]);
}
