use iroh::{EndpointAddr, RelayUrl, SecretKey};
use krill_file_drop::network::Network;
use krill_file_drop::ticket::{
    decode_ticket, encode_ticket, parse_public_key, ticket_bytes, ticket_text, NodeIdError,
    TicketError,
};

fn key(seed: u8) -> iroh::PublicKey {
    SecretKey::from_bytes(&[seed; 32]).public()
}

fn full_addr() -> EndpointAddr {
    let relay: RelayUrl = "https://relay.example.com./".parse().unwrap();
    EndpointAddr::new(key(7))
        .with_relay_url(relay)
        .with_ip_addr("192.168.1.20:40123".parse().unwrap())
        .with_ip_addr("[2001:db8::1]:40124".parse().unwrap())
}

#[test]
fn tickets_are_base_32_in_small_letters() {
    assert_eq!(ticket_text(b""), "");
    assert_eq!(ticket_text(b"f"), "my");
    assert_eq!(ticket_text(b"fo"), "mzxq");
    assert_eq!(ticket_text(b"foo"), "mzxw6");
    assert_eq!(ticket_text(b"foob"), "mzxw6yq");
    assert_eq!(ticket_text(b"fooba"), "mzxw6ytb");
    assert_eq!(ticket_text(b"foobar"), "mzxw6ytboi");
}

#[test]
fn a_ticket_gives_back_its_bytes_after_pasting() {
    let bytes: Vec<u8> = (0..=255).collect();
    for n in 0..=bytes.len() {
        let ticket = ticket_text(&bytes[..n]);
        assert_eq!(ticket_bytes(&ticket).unwrap(), &bytes[..n]);
        let pasted = format!(" \t\n{}\u{2003}\r\n", ticket.to_ascii_uppercase());
        assert_eq!(ticket_bytes(&pasted).unwrap(), &bytes[..n]);
    }
    assert_eq!(ticket_bytes("MzXw6YtBoI").unwrap(), b"foobar");
}

#[test]
fn letters_beyond_ascii_are_read_by_their_capitals() {
    assert_eq!(ticket_bytes("mzxw6ytbo\u{131}").unwrap(), b"foobar");
    assert_eq!(ticket_bytes("mzxw6ytbo\u{130}"), Err(TicketError::Base32));
    assert_eq!(ticket_bytes("mzxw6ytb\u{e9}i"), Err(TicketError::Base32));
}

#[test]
fn text_that_is_not_base_32_is_refused() {
    for text in ["m", "mzx", "mz xq", "mzxq====", "01", "8", "mzxr", "mzxw6!"] {
        assert_eq!(ticket_bytes(text), Err(TicketError::Base32), "{text:?}");
        assert_eq!(decode_ticket(text), Err(TicketError::Base32), "{text:?}");
    }
    assert_eq!(TicketError::Base32.message(), "base32 decode");
}

#[test]
fn bytes_that_are_no_address_are_refused() {
    assert_eq!(decode_ticket("mzxw6ytboi"), Err(TicketError::Postcard));
    assert_eq!(decode_ticket(""), Err(TicketError::Postcard));
    assert_eq!(TicketError::Postcard.message(), "postcard decode");
    assert_eq!(TicketError::Encode.message(), "encoding addr");
    assert_eq!(TicketError::TooLong.message(), "address too long");
}

#[test]
fn a_ticket_leads_back_to_its_address() {
    for addr in [EndpointAddr::new(key(1)), full_addr()] {
        let ticket = encode_ticket(&addr).unwrap();
        assert!(ticket.chars().all(|c| c.is_ascii_lowercase() || ('2'..='7').contains(&c)));
        assert_eq!(decode_ticket(&ticket), Ok(addr.clone()));
        let pasted = format!("\n  {}  ", ticket.to_uppercase());
        assert_eq!(decode_ticket(&pasted), Ok(addr));
    }
}

#[test]
fn ip_addresses_come_back_from_a_ticket() {
    let addr = EndpointAddr::new(key(7))
        .with_ip_addr("192.168.1.20:40123".parse().unwrap())
        .with_ip_addr("[fe80::1%3]:40124".parse().unwrap());
    let back = decode_ticket(&encode_ticket(&addr).unwrap()).unwrap();
    assert_eq!(back.id, addr.id);
    let texts: Vec<String> = back.ip_addrs().map(|a| a.to_string()).collect();
    assert_eq!(texts, vec!["192.168.1.20:40123", "[fe80::1]:40124"]);
}

#[test]
fn a_ticket_begins_with_the_node_id() {
    let bytes = ticket_bytes(&encode_ticket(&EndpointAddr::new(key(1))).unwrap()).unwrap();
    assert_eq!(bytes.len(), 33);
    assert_eq!(&bytes[..32], key(1).as_bytes());
    assert_eq!(bytes[32], 0);
    let bytes = ticket_bytes(&encode_ticket(&full_addr()).unwrap()).unwrap();
    assert_eq!(&bytes[..32], key(7).as_bytes());
    assert_eq!(bytes[32], 3);
}

#[test]
fn different_addresses_have_different_tickets() {
    let a = encode_ticket(&EndpointAddr::new(key(1))).unwrap();
    let b = encode_ticket(&EndpointAddr::new(key(2))).unwrap();
    let c = encode_ticket(&full_addr()).unwrap();
    assert_ne!(a, b);
    assert_ne!(a, c);
    assert_ne!(b, c);
}

#[test]
fn a_node_hands_out_and_takes_tickets() {
    let net: Network<u32, u32> =
        Network::start(key(7).to_string(), Default::default(), Vec::new());
    let ticket = net.ticket(&full_addr()).unwrap();
    assert_eq!(Ok(ticket.clone()), encode_ticket(&full_addr()));
    assert_eq!(net.connect_to_ticket(&ticket), Ok(full_addr()));
    assert_eq!(net.connect_to_ticket("not a ticket"), Err(TicketError::Base32));
    assert_eq!(net.connect_to_ticket("my"), Err(TicketError::Postcard));
}

#[test]
fn node_ids_are_read_in_both_spellings() {
    for seed in 1..20 {
        let k = key(seed);
        let hex = k.to_string();
        let base32 = ticket_text(k.as_bytes());
        assert_eq!(hex.len(), 64);
        assert_eq!(parse_public_key(&hex), Ok(*k.as_bytes()));
        assert_eq!(parse_public_key(&format!("  {hex}\n")), Ok(*k.as_bytes()));
        assert_eq!(parse_public_key(&base32), Ok(*k.as_bytes()));
        assert_eq!(parse_public_key(&base32.to_uppercase()), Ok(*k.as_bytes()));
    }
}

#[test]
fn text_that_spells_no_key_is_refused() {
    let hex = key(3).to_string();
    let off_the_curve = format!("02{}", "00".repeat(31));
    for text in ["", "abc", &hex[..63], &hex.to_uppercase(), &off_the_curve] {
        assert_eq!(parse_public_key(text), Err(NodeIdError), "{text:?}");
    }
    assert_eq!(NodeIdError.message(), "parsing node id");
    let net: Network<u32, u32> = Network::start(hex.clone(), Default::default(), Vec::new());
    assert_eq!(net.dial_contact(&hex), Ok(*key(3).as_bytes()));
    assert_eq!(net.dial_contact("nobody"), Err(NodeIdError));
}
