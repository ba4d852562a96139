use tinydnsproxy::block_lists::{BlockLists, FetchOutcome};
use tinydnsproxy::config::{Config, DotProvider as ConfigProvider, GeneralOptions};
use tinydnsproxy::dot::{encode_frame, frame_length, DotProviders};
use tinydnsproxy::error::ErrorKind;
use tinydnsproxy::server::{clear_buffer, copy_packet, handle_query, refresh_due, QueryOutcome};

fn query_for(name: &str) -> Vec<u8> {
    let mut p = vec![0x9a, 0x01, 0x01, 0x00, 0x00, 0x01, 0x00, 0x00, 0x00, 0x00, 0x00, 0x00];
    for label in name.split('.') {
        p.push(label.len() as u8);
        p.extend_from_slice(label.as_bytes());
    }
    p.push(0);
    p.extend_from_slice(&[0x00, 0x01, 0x00, 0x01]);
    p
}

#[test]
fn empty_provider_list_fails_cleanly() {
    let providers = DotProviders::new();
    let e = providers.get_random().unwrap_err();
    assert_eq!(e.kind, ErrorKind::NoDotProviders);
}

#[test]
fn single_provider_is_returned() {
    let mut providers = DotProviders::new();
    providers.add(String::from("9.9.9.9"), 853, String::from("dns.quad9.net"), None);
    let p = providers.get_random().unwrap();
    assert_eq!(p.ip, "9.9.9.9");
    assert_eq!(p.port, 853);
    assert_eq!(p.hostname, "dns.quad9.net");
    assert!(p.cert.is_none());
}

#[test]
fn chosen_provider_is_among_configured() {
    let mut providers = DotProviders::new();
    providers.add(String::from("1.1.1.1"), 853, String::from("one.one.one.one"), None);
    providers.add(String::from("9.9.9.9"), 853, String::from("dns.quad9.net"), None);
    for _ in 0..20 {
        let p = providers.get_random().unwrap();
        assert!(p.ip == "1.1.1.1" || p.ip == "9.9.9.9");
    }
}

#[test]
fn clear_empties_provider_list() {
    let mut providers = DotProviders::new();
    providers.add(String::from("1.1.1.1"), 853, String::from("one.one.one.one"), None);
    providers.clear();
    let e = providers.get_random().unwrap_err();
    assert_eq!(e.kind, ErrorKind::NoDotProviders);
}

#[test]
fn frame_has_big_endian_length_prefix() {
    let msg = vec![0xab; 300];
    let framed = encode_frame(&msg);
    assert_eq!(framed.len(), 302);
    assert_eq!(framed[0], 1);
    assert_eq!(framed[1], 44);
    assert_eq!(&framed[2..], &msg[..]);
}

#[test]
fn frame_of_empty_message() {
    let framed = encode_frame(&[]);
    assert_eq!(framed, vec![0, 0]);
}

#[test]
fn frame_length_reads_prefix_back() {
    assert_eq!(frame_length(1, 44), 300);
    assert_eq!(frame_length(0, 0), 0);
    assert_eq!(frame_length(0xff, 0xff), 65535);
}

#[test]
fn config_without_provider_is_fatal() {
    let c = Config {
        general: GeneralOptions {
            bind_ip: String::from("127.0.0.1"),
            bind_port: 5353,
            refresh_blocklists_after: 60,
            worker_threads: None,
        },
        http_block_list: None,
        file_block_list: None,
        dot_provider: Vec::new(),
    };
    let e = c.validate().unwrap_err();
    assert_eq!(e.kind, ErrorKind::NoDotProviders);
}

#[test]
fn config_with_provider_passes() {
    let c = Config {
        general: GeneralOptions {
            bind_ip: String::from("0.0.0.0"),
            bind_port: 53,
            refresh_blocklists_after: 1,
            worker_threads: Some(4),
        },
        http_block_list: None,
        file_block_list: None,
        dot_provider: vec![ConfigProvider {
            ip: String::from("9.9.9.9"),
            port: 853,
            hostname: String::from("dns.quad9.net"),
        }],
    };
    assert!(c.validate().is_ok());
}

#[test]
fn blocked_query_gets_nxdomain_reply() {
    let mut lists = BlockLists::new();
    lists.sync(vec![FetchOutcome::FileLines(vec![String::from("ads.example.com")])]).unwrap();
    let query = query_for("ads.example.com");
    match handle_query(query.clone(), Some(&lists)) {
        QueryOutcome::Blocked(reply) => {
            assert_eq!(reply[2], 0x81);
            assert_eq!(reply[3], 0x83);
            assert_eq!(&reply[0..2], &query[0..2]);
            assert_eq!(&reply[4..], &query[4..]);
        },
        _ => panic!("expected a blocked outcome"),
    }
}

#[test]
fn unblocked_query_is_forwarded_verbatim() {
    let mut lists = BlockLists::new();
    lists.sync(vec![FetchOutcome::FileLines(vec![String::from("ads.example.com")])]).unwrap();
    let query = query_for("fine.example.com");
    match handle_query(query.clone(), Some(&lists)) {
        QueryOutcome::Forward(q) => assert_eq!(q, query),
        _ => panic!("expected a forward outcome"),
    }
}

#[test]
fn lock_contention_fails_open() {
    let query = query_for("ads.example.com");
    match handle_query(query.clone(), None) {
        QueryOutcome::Forward(q) => assert_eq!(q, query),
        _ => panic!("expected fail-open forwarding"),
    }
}

#[test]
fn malformed_query_is_dropped() {
    match handle_query(vec![0x9a, 0x01, 0x01], None) {
        QueryOutcome::Invalid(e) => assert_eq!(e.kind, ErrorKind::DnsParsing),
        _ => panic!("expected an invalid outcome"),
    }
}

#[test]
fn two_question_query_is_dropped() {
    let mut query = query_for("a.example.com");
    query[5] = 2;
    match handle_query(query, None) {
        QueryOutcome::Invalid(e) => assert_eq!(e.kind, ErrorKind::DnsTooManyQuestions),
        _ => panic!("expected an invalid outcome"),
    }
}

#[test]
fn copy_packet_takes_exact_count() {
    let buffer = vec![1, 2, 3, 4, 5, 6, 7, 8];
    assert_eq!(copy_packet(&buffer, 3), vec![1, 2, 3]);
    assert_eq!(copy_packet(&buffer, 0), Vec::<u8>::new());
}

#[test]
fn clear_buffer_zeroes_in_place() {
    let mut buffer = vec![9, 8, 7, 6];
    clear_buffer(&mut buffer);
    assert_eq!(buffer, vec![0, 0, 0, 0]);
}

#[test]
fn refresh_due_compares_elapsed_to_interval() {
    assert!(!refresh_due(0, 1));
    assert!(!refresh_due(60, 1));
    assert!(refresh_due(61, 1));
    assert!(refresh_due(7200, 60));
    assert!(!refresh_due(3600, u64::MAX));
}
