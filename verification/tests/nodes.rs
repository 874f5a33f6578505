use iroh::SecretKey;
use krill_file_drop::card::Card;
use krill_file_drop::network::{
    check_contact, greet, is_whom_we_dialed, Check, Decision, Greeting, Meeting, Network,
    NetworkError, Presence, MAIN_ALPN, PING_ALPN,
};
use krill_file_drop::ticket::NodeIdError;
use krill_file_drop::transfer::{Offer, SendStatus};

type Node = Network<u32, &'static str>;

fn card(node_id: &str) -> Card {
    Card {
        version: 1,
        node_id: node_id.to_string(),
        display_name: format!("name of {node_id}"),
        icon: "icon".to_string(),
        avatar: None,
    }
}

fn node() -> Node {
    Network::start("me".to_string(), card("whoever"), Vec::new())
}

fn offer(name: &str, size: u64) -> Offer {
    Offer { name: name.to_string(), size, modified: Some(3) }
}

#[test]
fn each_protocol_is_greeted_in_its_own_way() {
    assert_eq!(greet(b"krill-file-drop/v1"), Greeting::Cards);
    assert_eq!(greet(b"krill-file-drop/ping/v1"), Greeting::Pong);
    assert_eq!(greet(MAIN_ALPN.as_bytes()), Greeting::Cards);
    assert_eq!(greet(PING_ALPN.as_bytes()), Greeting::Pong);
    for alpn in ["", "krill-file-drop/v2", "krill-file-drop/v1 ", "h3"] {
        assert_eq!(greet(alpn.as_bytes()), Greeting::Unknown);
    }
    assert_eq!(Greeting::Pong.close_reason(), Some("pong"));
    assert_eq!(Greeting::Cards.close_reason(), None);
    assert_eq!(Greeting::Unknown.close_reason(), Some("unknown alpn"));
}

#[test]
fn a_node_presents_itself_under_its_own_id() {
    let mut net = node();
    assert_eq!(net.node_id(), "me");
    assert_eq!(net.our_card(), Card { node_id: "me".to_string(), ..card("whoever") });
    net.update_card(card("someone else"));
    assert_eq!(net.our_card(), Card { node_id: "me".to_string(), ..card("someone else") });
    assert_eq!(net.node_id(), "me");
}

#[test]
fn there_is_one_session_at_a_time() {
    let mut net = node();
    assert_eq!(net.peer(), None);
    assert_eq!(net.install_session(&card("a"), 10), (1, None));
    assert_eq!(net.peer(), Some("a".to_string()));
    assert_eq!(net.install_session(&card("b"), 20), (2, Some(10)));
    assert_eq!(net.peer(), Some("b".to_string()));
    net.session_closed(1);
    assert_eq!(net.peer(), Some("b".to_string()));
    net.session_closed(2);
    assert_eq!(net.peer(), None);
    assert_eq!(net.disconnect(), None);
    assert_eq!(net.install_session(&card("c"), 30), (3, None));
    assert_eq!(net.disconnect(), Some(30));
    assert_eq!(net.disconnect(), None);
}

#[test]
fn a_replaced_connection_with_the_same_peer_ends_nothing() {
    let mut net = node();
    let (first, _) = net.install_session(&card("a"), 10);
    let (second, replaced) = net.install_session(&card("a"), 20);
    assert_eq!(replaced, Some(10));
    assert_ne!(first, second);
    net.session_closed(first);
    assert_eq!(net.peer(), Some("a".to_string()));
    assert_eq!(*net.send_file("x").unwrap().0, 20);
    net.session_closed(second);
    assert_eq!(net.peer(), None);
}

#[test]
fn a_peer_is_welcome_under_the_id_that_was_dialed() {
    let id = SecretKey::from_bytes(&[9; 32]).public().to_string();
    let mut net = node();
    net.install_session(&card("before"), 10);
    let met = net.meet(&format!(" {id} "), &card(&id), 20, 77);
    assert_eq!(met, Meeting::Welcome { session: 2, replaced: Some(10), recorded: true });
    assert_eq!(net.peer(), Some(id.clone()));
    assert_eq!(net.list_contacts().len(), 1);
    assert_eq!(net.list_contacts()[0].node_id, id);
    assert_eq!(net.list_contacts()[0].last_paired, 77);
}

#[test]
fn a_peer_under_another_id_is_not_trusted() {
    let id = SecretKey::from_bytes(&[9; 32]).public().to_string();
    let other = SecretKey::from_bytes(&[8; 32]).public().to_string();
    let mut net = node();
    net.upsert_contact(&card(&id), 5);
    net.upsert_contact(&card(&other), 6);
    net.install_session(&card(&id), 10);
    for stranger in [other.as_str(), "", "no key"] {
        let met = net.meet(&id, &card(stranger), 20, 77);
        assert_eq!(met, Meeting::Refused { conn: 20, error: NetworkError::WrongPeer });
        assert!(!is_whom_we_dialed(&id, &card(stranger)));
    }
    assert!(!is_whom_we_dialed("no key", &card("no key")));
    assert!(is_whom_we_dialed(&id, &card(&id)));
    assert_eq!(net.peer(), Some(id));
    let times: Vec<u64> = net.list_contacts().iter().map(|c| c.last_paired).collect();
    assert_eq!(times, vec![5, 6]);
    assert_eq!(NetworkError::WrongPeer.message(), "peer has a different node id");
}

#[test]
fn nobody_is_trusted_under_the_id_of_a_saved_contact() {
    let saved = SecretKey::from_bytes(&[9; 32]).public().to_string();
    let caller = SecretKey::from_bytes(&[8; 32]).public().to_string();
    let mut net = node();
    net.upsert_contact(&card(&saved), 5);
    let met = net.meet(&caller, &card(&saved), 20, 77);
    assert_eq!(met, Meeting::Refused { conn: 20, error: NetworkError::WrongPeer });
    assert_eq!(net.peer(), None);
    assert_eq!(net.list_contacts()[0].last_paired, 5);
}

#[test]
fn someone_new_is_welcome_whatever_their_card_says() {
    let caller = SecretKey::from_bytes(&[8; 32]).public().to_string();
    let mut net = node();
    let met = net.meet(&caller, &card(""), 20, 77);
    assert_eq!(met, Meeting::Welcome { session: 1, replaced: None, recorded: false });
    assert_eq!(net.peer(), Some(String::new()));
    assert!(net.list_contacts().is_empty());
    let met = net.meet(&caller, &card("no key"), 30, 78);
    assert_eq!(met, Meeting::Welcome { session: 2, replaced: Some(20), recorded: true });
    assert_eq!(net.list_contacts()[0].node_id, "no key");
}

#[test]
fn files_go_to_the_peer_of_the_session() {
    let mut net = node();
    let refused = net.send_file("/home/me/photo.jpg").err().unwrap();
    assert_eq!(refused, NetworkError::NotConnected);
    assert_eq!(refused.message(), "not connected");
    net.install_session(&card("a"), 1);
    let (conn, outgoing) = net.send_file("/home/me/photo.jpg").unwrap();
    assert_eq!(*conn, 1);
    let transfer = outgoing.file(12, Some(3));
    assert_eq!(transfer.offer(), offer("photo.jpg", 12));
    assert_eq!(transfer.peer(), "a");
    assert_eq!(transfer.offered(), SendStatus::Waiting);
    for (path, name) in [("/", "file"), ("..", "file"), ("a/b.c/", "b.c")] {
        let (_, outgoing) = net.send_file(path).unwrap();
        assert_eq!(outgoing.file(0, Some(3)).offer(), offer(name, 0));
    }
}

#[test]
fn offers_are_numbered_from_one() {
    let mut net = node();
    let shown = net.offer_received(&offer("x", 5), "a", "first");
    assert_eq!((shown.offer_id, shown.size, shown.modified), (1, 5, Some(3)));
    assert_eq!((shown.name.as_str(), shown.peer_id.as_str()), ("x", "a"));
    for id in 2..50 {
        assert_eq!(net.offer_received(&offer("x", 5), "a", "later").offer_id, id);
    }
}

#[test]
fn an_offer_can_be_decided_on_once() {
    let mut net = node();
    let first = net.offer_received(&offer("x", 5), "a", "first").offer_id;
    let second = net.offer_received(&offer("y", 6), "b", "second").offer_id;
    assert_eq!(
        net.respond_to_offer(second, true),
        Ok(Decision { responder: "second", accept: true })
    );
    assert_eq!(net.respond_to_offer(second, true), Err(NetworkError::NoSuchOffer));
    assert_eq!(
        net.respond_to_offer(first, false),
        Ok(Decision { responder: "first", accept: false })
    );
    assert_eq!(net.respond_to_offer(99, true), Err(NetworkError::NoSuchOffer));
    assert_eq!(NetworkError::NoSuchOffer.message(), "no such offer");
    assert_eq!(net.offer_received(&offer("z", 7), "a", "third").offer_id, 3);
}

#[test]
fn meetings_are_recorded_in_the_contacts() {
    let mut net = node();
    assert!(net.upsert_contact(&card("a"), 10));
    assert!(net.upsert_contact(&card("b"), 20));
    assert!(net.upsert_contact(&card("a"), 30));
    assert!(!net.upsert_contact(&card(""), 40));
    let list = net.list_contacts();
    assert_eq!(list.len(), 2);
    assert_eq!((list[0].node_id.as_str(), list[0].last_paired), ("a", 30));
    assert_eq!((list[1].node_id.as_str(), list[1].last_paired), ("b", 20));
}

#[test]
fn every_contact_is_checked_once() {
    let key = SecretKey::from_bytes(&[9; 32]).public();
    let hex = key.to_string();
    let mut contacts = Vec::new();
    for id in ["gone", hex.as_str(), "peer", hex.as_str(), "peer"] {
        let mut net = node();
        net.upsert_contact(&card(id), 1);
        contacts.append(&mut net.list_contacts());
    }
    let mut net: Node = Network::start("me".to_string(), card("me"), contacts);
    net.install_session(&card("peer"), 1);
    let checks = net.presence_checks();
    assert_eq!(
        checks,
        vec![
            Check::Probe { node_id: hex.clone(), key: *key.as_bytes() },
            Check::Online { node_id: "peer".to_string() },
        ]
    );
    assert_eq!(checks[0].outcome(false), Presence { node_id: hex.clone(), online: false });
    assert_eq!(checks[0].outcome(true), Presence { node_id: hex, online: true });
    assert_eq!(checks[1].outcome(false), Presence { node_id: "peer".to_string(), online: true });
    net.disconnect();
    assert_eq!(net.presence_checks().len(), 1);
}

#[test]
fn a_contact_without_a_key_is_not_dialed() {
    let active = Some("peer".to_string());
    assert_eq!(check_contact("x", &active, Err(NodeIdError)), None);
    assert_eq!(
        check_contact("x", &active, Ok([1; 32])),
        Some(Check::Probe { node_id: "x".to_string(), key: [1; 32] })
    );
    assert_eq!(
        check_contact("peer", &active, Err(NodeIdError)),
        Some(Check::Online { node_id: "peer".to_string() })
    );
    assert_eq!(check_contact("peer", &None, Err(NodeIdError)), None);
}
