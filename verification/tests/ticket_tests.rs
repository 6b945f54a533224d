use p2p_videochat::ids::{PeerId, TopicId};
use p2p_videochat::ticket::{Ticket, CompactNodeInfo, TicketError, clone_ticket};
use p2p_videochat::registry::TicketRegistry;

fn sample_ticket() -> Ticket {
    Ticket {
        topic: TopicId { w0: 0x1122334455667788, w1: 2, w2: 3, w3: 4 },
        nodes: vec![
            CompactNodeInfo {
                node_id: PeerId { w0: 10, w1: 20, w2: 30, w3: 40 },
                direct_addresses: vec![b"192.0.2.7:4433".to_vec(), b"[2001:db8::1]:443".to_vec()],
            },
            CompactNodeInfo {
                node_id: PeerId { w0: 0, w1: 0, w2: 0, w3: 1 },
                direct_addresses: vec![],
            },
        ],
    }
}

fn tickets_equal(a: &Ticket, b: &Ticket) -> bool {
    if a.topic != b.topic || a.nodes.len() != b.nodes.len() {
        return false;
    }
    a.nodes.iter().zip(b.nodes.iter()).all(|(x, y)| {
        x.node_id == y.node_id && x.direct_addresses == y.direct_addresses
    })
}

#[test]
fn ticket_byte_round_trip() {
    let t = sample_ticket();
    let bytes = t.to_bytes();
    let back = Ticket::from_bytes(&bytes).unwrap();
    assert!(tickets_equal(&t, &back));
}

#[test]
fn ticket_text_round_trip() {
    let t = sample_ticket();
    let text = t.to_text().unwrap();
    let back = Ticket::from_text(&text).unwrap();
    assert!(tickets_equal(&t, &back));
}

#[test]
fn empty_ticket_encodes_to_known_text() {
    let t = Ticket { topic: TopicId { w0: 0, w1: 0, w2: 0, w3: 0 }, nodes: vec![] };
    assert_eq!(t.to_bytes(), vec![0u8; 34]);
    // 34 zero bytes make 46 base64 sextets, all zero.
    assert_eq!(t.to_text().unwrap(), "A".repeat(46));
}

#[test]
fn ticket_text_is_url_safe_base64() {
    let text = sample_ticket().to_text().unwrap();
    assert!(!text.is_empty());
    assert!(text.chars().all(|c| c.is_ascii_alphanumeric() || c == '-' || c == '_'));
}

#[test]
fn bad_base64_is_rejected() {
    assert!(matches!(Ticket::from_text("not base64!!"), Err(TicketError::BadEncoding)));
}

#[test]
fn valid_base64_with_bad_payload_is_rejected() {
    // "AAAA" decodes to three zero bytes: far too short for a ticket.
    assert!(matches!(Ticket::from_text("AAAA"), Err(TicketError::Malformed)));
}

#[test]
fn truncated_ticket_bytes_are_rejected() {
    let bytes = sample_ticket().to_bytes();
    assert!(matches!(
        Ticket::from_bytes(&bytes[..bytes.len() - 1]),
        Err(TicketError::Malformed)
    ));
}

#[test]
fn trailing_ticket_bytes_are_rejected() {
    let mut bytes = sample_ticket().to_bytes();
    bytes.push(0);
    assert!(matches!(Ticket::from_bytes(&bytes), Err(TicketError::Malformed)));
}

#[test]
fn clone_ticket_copies_all_fields() {
    let t = sample_ticket();
    let c = clone_ticket(&t);
    assert!(tickets_equal(&t, &c));
}

#[test]
fn registry_insert_and_lookup() {
    let mut reg = TicketRegistry::new();
    assert_eq!(reg.len(), 0);
    assert!(reg.insert(b"abcd1234".to_vec(), sample_ticket()));
    assert_eq!(reg.len(), 1);
    let found = reg.get_ticket(b"abcd1234").unwrap();
    assert!(tickets_equal(found, &sample_ticket()));
    assert!(reg.get_ticket(b"zzzz9999").is_none());
}

#[test]
fn registry_rejects_duplicates_and_bad_codes() {
    let mut reg = TicketRegistry::new();
    assert!(reg.insert(b"abcd1234".to_vec(), sample_ticket()));
    // Same code again: refused, registry unchanged.
    assert!(!reg.insert(b"abcd1234".to_vec(), sample_ticket()));
    assert_eq!(reg.len(), 1);
    // Wrong length and wrong characters are refused.
    assert!(!reg.insert(b"short".to_vec(), sample_ticket()));
    assert!(!reg.insert(b"ABCD1234".to_vec(), sample_ticket()));
    assert!(!reg.insert(b"abcd 123".to_vec(), sample_ticket()));
    assert_eq!(reg.len(), 1);
}

#[test]
fn generated_codes_have_the_right_shape() {
    let reg = TicketRegistry::new();
    let code = reg.generate_short_code().unwrap();
    assert_eq!(code.len(), 8);
    assert!(code.iter().all(|b| b.is_ascii_digit() || b.is_ascii_lowercase()));
}

#[test]
fn register_ticket_makes_the_code_resolvable() {
    let mut reg = TicketRegistry::new();
    let code = reg.register_ticket(sample_ticket()).unwrap();
    assert_eq!(code.len(), 8);
    let found = reg.get_ticket(&code).unwrap();
    assert!(tickets_equal(found, &sample_ticket()));
}

#[test]
fn to_short_code_registers_this_ticket() {
    let mut reg = TicketRegistry::new();
    let t = sample_ticket();
    let code = t.to_short_code(&mut reg).unwrap();
    let found = reg.get_ticket(&code).unwrap();
    assert!(tickets_equal(found, &t));
}

#[test]
fn from_code_or_full_resolves_both_forms() {
    let mut reg = TicketRegistry::new();
    let t = sample_ticket();
    let code = t.to_short_code(&mut reg).unwrap();
    let code_str = String::from_utf8(code).unwrap();

    let by_code = Ticket::from_code_or_full(&reg, &code_str).unwrap();
    assert!(tickets_equal(&by_code, &t));

    let text = t.to_text().unwrap();
    let by_text = Ticket::from_code_or_full(&reg, &text).unwrap();
    assert!(tickets_equal(&by_text, &t));

    // A short input the registry does not know falls through to text
    // parsing and fails there.
    assert!(Ticket::from_code_or_full(&reg, "zzzz9999").is_err());
}
