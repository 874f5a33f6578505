use krill_file_drop::card::{default_display_name, hostname, Card, Identity};
use krill_file_drop::contacts::{find_contact, upsert, Contact};

fn identity(version: u32) -> Identity {
    Identity {
        version,
        node_id: "abc".to_string(),
        display_name: "Krill".to_string(),
        icon: "shrimp".to_string(),
        avatar: Some("data".to_string()),
    }
}

fn card(node_id: &str, name: &str) -> Card {
    Card {
        version: 1,
        node_id: node_id.to_string(),
        display_name: name.to_string(),
        icon: format!("icon of {name}"),
        avatar: None,
    }
}

#[test]
fn an_identity_presents_a_card_of_version_one_or_more() {
    for (version, shown) in [(0, 1), (1, 1), (2, 2), (u32::MAX, u32::MAX)] {
        let card = identity(version).to_card();
        assert_eq!(
            card,
            Card {
                version: shown,
                node_id: "abc".to_string(),
                display_name: "Krill".to_string(),
                icon: "shrimp".to_string(),
                avatar: Some("data".to_string()),
            }
        );
        assert_eq!(card.clone(), card);
    }
}

#[test]
fn the_node_id_is_stored_once_it_is_known() {
    let updated = identity(0).with_node_id("xyz").unwrap();
    assert_eq!(updated, Identity { node_id: "xyz".to_string(), ..identity(0) });
    assert_eq!(updated.with_node_id("xyz"), None);
    assert_eq!(identity(3).with_node_id("abc"), None);
}

#[test]
fn cards_and_contacts_start_empty() {
    assert_eq!(
        Card::default(),
        Card {
            version: 0,
            node_id: String::new(),
            display_name: String::new(),
            icon: String::new(),
            avatar: None,
        }
    );
    assert_eq!(Identity::default().to_card(), Card { version: 1, ..Card::default() });
    assert_eq!(Contact::default().last_paired, 0);
    assert_eq!(identity(2).clone(), identity(2));
}

#[test]
fn the_first_name_comes_from_the_login_or_the_host() {
    let some = |s: &str| Some(s.to_string());
    assert_eq!(default_display_name(some("ann"), some("bob"), some("host\n")), "ann");
    assert_eq!(default_display_name(None, some("bob"), some("host\n")), "bob");
    assert_eq!(default_display_name(None, None, some(" host\n")), "host");
    assert_eq!(default_display_name(None, None, some(" \n")), "me");
    assert_eq!(default_display_name(None, None, None), "me");
    assert_eq!(default_display_name(some(""), some("bob"), None), "");
    assert_eq!(hostname(some("\tbox\n")), some("box"));
    assert_eq!(hostname(some("")), None);
    assert_eq!(hostname(None), None);
}

#[test]
fn meeting_someone_new_adds_them_at_the_end() {
    let mut list: Vec<Contact> = Vec::new();
    assert!(upsert(&mut list, &card("a", "Ann"), 10));
    assert!(upsert(&mut list, &card("b", "Bob"), 20));
    assert_eq!(list.len(), 2);
    assert_eq!(list[0].node_id, "a");
    assert_eq!(
        list[1],
        Contact {
            node_id: "b".to_string(),
            display_name: "Bob".to_string(),
            icon: "icon of Bob".to_string(),
            avatar: None,
            last_paired: 20,
        }
    );
    assert_eq!(find_contact(&list, "b"), 1);
    assert_eq!(find_contact(&list, "c"), 2);
}

#[test]
fn meeting_someone_again_updates_them_in_place() {
    let mut list: Vec<Contact> = Vec::new();
    upsert(&mut list, &card("a", "Ann"), 10);
    upsert(&mut list, &card("b", "Bob"), 20);
    let bob = list[1].clone();
    let mut renamed = card("a", "Anna");
    renamed.avatar = Some("face".to_string());
    assert!(upsert(&mut list, &renamed, 30));
    assert_eq!(list.len(), 2);
    assert_eq!(list[0].display_name, "Anna");
    assert_eq!(list[0].icon, "icon of Anna");
    assert_eq!(list[0].avatar, Some("face".to_string()));
    assert_eq!(list[0].last_paired, 30);
    assert_eq!(list[1], bob);
}

#[test]
fn a_card_without_a_node_id_is_not_recorded() {
    let mut list: Vec<Contact> = Vec::new();
    assert!(!upsert(&mut list, &card("", "Ghost"), 10));
    assert!(list.is_empty());
}
