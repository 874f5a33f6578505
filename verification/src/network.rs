//! The state of a running node: its card, the one live session, the offers that wait
//! for a decision, and the contacts.

use std::collections::HashMap;

use vstd::prelude::*;
use vstd::string::*;

use crate::card::{under_id, Card, CardView};
use crate::contacts::{
    all_have_ids, copy_contacts, find_contact, ids_are_distinct, position, upsert, upserted,
    upserting_adds_no_contact_without_an_id, upserting_keeps_node_ids_distinct, views, Contact,
    ContactView,
};
use crate::names::{file_name, file_name_of};
use crate::text::same_text;
use crate::ticket::{
    decode_ticket, encode_ticket, is_too_long, key_of, leads_to, parse_public_key, NodeIdError,
    TicketError,
};
use crate::transfer::{FileOffered, Offer, SendTransfer};

verus! {

broadcast use vstd::std_specs::hash::group_hash_axioms;

// ---- Protocols ----------------------------------------------------------

/// The protocol of the file drop itself.
pub const MAIN_ALPN: &'static str = "krill-file-drop/v1";

/// The protocol that asks whether a node is there.
pub const PING_ALPN: &'static str = "krill-file-drop/ping/v1";

/// What to do with an incoming connection.
#[derive(Debug, Clone, Copy, PartialEq, Eq, Structural)]
pub enum Greeting {
    /// Someone asked whether this node is there: close with `pong`.
    Pong,
    /// A peer: exchange cards.
    Cards,
    /// A protocol that this node does not speak: close with `unknown alpn`.
    Unknown,
}

/// What to do with a connection that speaks the protocol `alpn`.
pub open spec fn greeting(alpn: Seq<u8>) -> Greeting {
    if alpn == PING_ALPN.spec_bytes() {
        Greeting::Pong
    } else if alpn == MAIN_ALPN.spec_bytes() {
        Greeting::Cards
    } else {
        Greeting::Unknown
    }
}

/// The reason to give where a connection is closed instead of greeted.
pub open spec fn close_text(greeting: Greeting) -> Option<Seq<char>> {
    match greeting {
        Greeting::Pong => Some("pong"@),
        Greeting::Cards => None,
        Greeting::Unknown => Some("unknown alpn"@),
    }
}

impl Greeting {
    /// The reason to close the connection with; `None` where it stays open.
    pub fn close_reason(&self) -> (r: Option<&'static str>)
        ensures
            close_text(*self) == (match r {
                Some(reason) => Some(reason@),
                None => None,
            }),
    {
        match self {
            Greeting::Pong => Some("pong"),
            Greeting::Cards => None,
            Greeting::Unknown => Some("unknown alpn"),
        }
    }
}

fn same_bytes(a: &[u8], b: &[u8]) -> (r: bool)
    ensures
        r == (a@ == b@),
{
    if a.len() != b.len() {
        return false;
    }
    let mut i: usize = 0;
    while i < a.len()
        invariant
            i <= a@.len() == b@.len(),
            forall|j: int| 0 <= j < i ==> a@[j] == b@[j],
        decreases a@.len() - i,
    {
        if a[i] != b[i] {
            return false;
        }
        i += 1;
    }
    assert(a@ =~= b@);
    true
}

/// Decides what to do with a connection that speaks the protocol `alpn`.
pub fn greet(alpn: &[u8]) -> (r: Greeting)
    ensures
        r == greeting(alpn@),
{
    if same_bytes(alpn, PING_ALPN.as_bytes()) {
        Greeting::Pong
    } else if same_bytes(alpn, MAIN_ALPN.as_bytes()) {
        Greeting::Cards
    } else {
        Greeting::Unknown
    }
}

/// Both protocols are told apart.
pub proof fn both_protocols_are_spoken()
    ensures
        greeting(PING_ALPN.spec_bytes()) == Greeting::Pong,
        greeting(MAIN_ALPN.spec_bytes()) == Greeting::Cards,
{
    reveal_strlit("krill-file-drop/v1");
    reveal_strlit("krill-file-drop/ping/v1");
    assert(vstd::utf8::is_ascii_chars(PING_ALPN@));
    assert(vstd::utf8::is_ascii_chars(MAIN_ALPN@));
    vstd::utf8::is_ascii_chars_encode_utf8(PING_ALPN@);
    vstd::utf8::is_ascii_chars_encode_utf8(MAIN_ALPN@);
}

// ---- State --------------------------------------------------------------

/// Why a request cannot be met in the present state.
#[derive(Debug, Clone, Copy, PartialEq, Eq, Structural)]
pub enum NetworkError {
    /// There is no session.
    NotConnected,
    /// No offer of that number waits for a decision.
    NoSuchOffer,
    /// The card that came back is not that of the node at the other end.
    WrongPeer,
}

/// The message of a network error.
pub open spec fn network_message(e: NetworkError) -> Seq<char> {
    match e {
        NetworkError::NotConnected => "not connected"@,
        NetworkError::NoSuchOffer => "no such offer"@,
        NetworkError::WrongPeer => "peer has a different node id"@,
    }
}

impl NetworkError {
    /// What to tell the user.
    pub fn message(&self) -> (r: &'static str)
        ensures
            r@ == network_message(*self),
    {
        match self {
            NetworkError::NotConnected => "not connected",
            NetworkError::NoSuchOffer => "no such offer",
            NetworkError::WrongPeer => "peer has a different node id",
        }
    }
}

/// A live connection to a peer, under a number of its own.
#[derive(Debug)]
pub struct Session<C> {
    number: u64,
    conn: C,
    peer_id: String,
}

/// What a session comes to.
pub struct SessionView<C> {
    /// The number under which its connection was installed.
    pub number: u64,
    /// The connection.
    pub conn: C,
    /// The node id of the peer.
    pub peer_id: Seq<char>,
}

/// The node, as far as it decides anything. `C` is the handle of a connection, `R` the
/// handle through which the decision on an offer is passed on; the state keeps them and
/// hands them back.
#[derive(Debug)]
pub struct Network<C, R> {
    node_id: String,
    our_card: Card,
    session: Option<Session<C>>,
    next_session: u64,
    pending: HashMap<u64, R>,
    next_offer_id: u64,
    contacts: Vec<Contact>,
}

/// What the state of a node comes to.
pub struct NetworkView<C, R> {
    /// The node's own id.
    pub node_id: Seq<char>,
    /// The card to present.
    pub card: CardView,
    /// The live session.
    pub session: Option<SessionView<C>>,
    /// The number for the next session.
    pub next_session: u64,
    /// The offers that wait for a decision.
    pub offers: Map<u64, R>,
    /// The number for the next offer.
    pub next_offer: u64,
    /// The saved peers.
    pub contacts: Seq<ContactView>,
}

/// Something that happens to a node.
pub enum Event<C, R> {
    /// The user changed the card.
    CardChanged { card: CardView },
    /// A connection to a peer is up and the cards are exchanged.
    Connected { conn: C, peer_id: Seq<char> },
    /// The connection that was installed under this number has ended.
    Closed { session: u64 },
    /// The user ended the session.
    Disconnected,
    /// A peer offers a file.
    Offered { responder: R },
    /// The user decided on an offer.
    Decided { offer_id: u64 },
    /// The holder of a card was met.
    Met { card: CardView, now: u64 },
}

impl<C, R> NetworkView<C, R> {
    /// The state after an event.
    pub open spec fn after(self, event: Event<C, R>) -> NetworkView<C, R> {
        match event {
            Event::CardChanged { card } => NetworkView {
                card: under_id(card, self.node_id),
                ..self
            },
            Event::Connected { conn, peer_id } => NetworkView {
                session: Some(SessionView { number: self.next_session, conn, peer_id }),
                next_session: next_number(self.next_session),
                ..self
            },
            Event::Closed { session } => NetworkView {
                session: if self.session matches Some(s) && s.number == session {
                    None
                } else {
                    self.session
                },
                ..self
            },
            Event::Disconnected => NetworkView { session: None, ..self },
            Event::Offered { responder } => NetworkView {
                offers: self.offers.insert(self.next_offer, responder),
                next_offer: next_number(self.next_offer),
                ..self
            },
            Event::Decided { offer_id } => NetworkView {
                offers: self.offers.remove(offer_id),
                ..self
            },
            Event::Met { card, now } => NetworkView {
                contacts: upserted(self.contacts, card, now),
                ..self
            },
        }
    }

    /// The state after these events, one after the other.
    pub open spec fn after_all(self, events: Seq<Event<C, R>>) -> NetworkView<C, R>
        decreases events.len(),
    {
        if events.len() == 0 {
            self
        } else {
            self.after_all(events.drop_last()).after(events.last())
        }
    }

    /// What holds in every state: the card names this node.
    pub open spec fn wf(self) -> bool {
        self.card.node_id == self.node_id
    }

    /// The node id of the peer at the other end of the session.
    pub open spec fn peer(self) -> Option<Seq<char>> {
        match self.session {
            Some(s) => Some(s.peer_id),
            None => None,
        }
    }

    /// The connection of the session.
    pub open spec fn conn(self) -> Option<C> {
        match self.session {
            Some(s) => Some(s.conn),
            None => None,
        }
    }
}

impl<C, R> View for Network<C, R> {
    type V = NetworkView<C, R>;

    closed spec fn view(&self) -> NetworkView<C, R> {
        NetworkView {
            node_id: self.node_id@,
            card: self.our_card@,
            session: match self.session {
                Some(s) => Some(
                    SessionView { number: s.number, conn: s.conn, peer_id: s.peer_id@ },
                ),
                None => None,
            },
            next_session: self.next_session,
            offers: self.pending@,
            next_offer: self.next_offer_id,
            contacts: views(self.contacts@),
        }
    }
}

/// The number after `n`, round to zero at the end.
pub open spec fn next_number(n: u64) -> u64 {
    if n == u64::MAX {
        0
    } else {
        (n + 1) as u64
    }
}

/// The name under which the file at `path` is offered: the last component, or `file` where
/// the path names none.
pub open spec fn offered_name(path: Seq<char>) -> Seq<char> {
    match file_name(path) {
        Some(name) => name,
        None => "file"@,
    }
}

/// A file to send, and whom to.
#[derive(Debug)]
pub struct Outgoing {
    name: String,
    peer_id: String,
}

impl Outgoing {
    pub closed spec fn name(self) -> Seq<char> {
        self.name@
    }

    pub closed spec fn peer_id(self) -> Seq<char> {
        self.peer_id@
    }

    /// The transfer, once it is known how long the file is and when it was last changed.
    pub fn file(&self, size: u64, modified: Option<u64>) -> (t: SendTransfer)
        ensures
            t.wf(),
            t.name() == self.name(),
            t.size() == size,
            t.modified() == modified,
            t.peer_id() == self.peer_id(),
            t.stage() == crate::transfer::SendStage::Offered,
            t.progress() == (crate::transfer::Progress { done: 0, reported: 0 }),
    {
        SendTransfer::new(self.name.as_str(), size, modified, self.peer_id.as_str())
    }
}

/// Two node ids spell the same key.
pub open spec fn is_same_node(a: Seq<char>, b: Seq<char>) -> bool {
    key_of(a) is Some && key_of(a) == key_of(b)
}

/// Whether a card is that of the node that was dialed.
pub fn is_whom_we_dialed(dialed: &str, peer: &Card) -> (r: bool)
    ensures
        r == is_same_node(dialed@, peer@.node_id),
{
    same_key(dialed, peer.node_id.as_str())
}

/// A node id is that of a contact: it is the contact's own, or spells the same key.
pub open spec fn is_contact(contact: ContactView, node_id: Seq<char>) -> bool {
    contact.node_id == node_id || is_same_node(contact.node_id, node_id)
}

/// The node is among the contacts.
pub open spec fn is_saved(list: Seq<ContactView>, node_id: Seq<char>) -> bool {
    node_id.len() > 0 && exists|i: int|
        0 <= i < list.len() && is_contact(#[trigger] list[i], node_id)
}

/// Whether a card with the node id `claimed` may come from the node `expected`: it is that
/// node's own, or neither of the two is among the contacts.
pub open spec fn is_trusted(
    list: Seq<ContactView>,
    expected: Seq<char>,
    claimed: Seq<char>,
) -> bool {
    ||| expected == claimed
    ||| is_same_node(expected, claimed)
    ||| !is_saved(list, expected) && !is_saved(list, claimed)
}

fn same_key(a: &str, b: &str) -> (r: bool)
    ensures
        r == is_same_node(a@, b@),
{
    match (parse_public_key(a), parse_public_key(b)) {
        (Ok(x), Ok(y)) => same_bytes(x.as_slice(), y.as_slice()),
        _ => false,
    }
}

fn is_saved_in(list: &Vec<Contact>, node_id: &str) -> (r: bool)
    ensures
        r == is_saved(views(list@), node_id@),
{
    if node_id.is_empty() {
        return false;
    }
    let mut i: usize = 0;
    while i < list.len()
        invariant
            i <= list@.len(),
            node_id@.len() > 0,
            forall|j: int| 0 <= j < i ==> !is_contact(#[trigger] views(list@)[j], node_id@),
        decreases list@.len() - i,
    {
        let contact = list[i].node_id.as_str();
        assert(views(list@)[i as int].node_id == contact@);
        if same_text(contact, node_id) || same_key(contact, node_id) {
            assert(is_contact(views(list@)[i as int], node_id@));
            return true;
        }
        i += 1;
    }
    false
}

/// What became of a new connection.
#[derive(Debug, PartialEq, Eq)]
pub enum Meeting<C> {
    /// It is the session now, under this number. The connection that it took the place of
    /// is to be closed as `replaced`; where the meeting was recorded, the contacts are to be
    /// saved and shown again.
    Welcome { session: u64, replaced: Option<C>, recorded: bool },
    /// The peer is not who it should be: the connection is to be closed, and the user told.
    Refused { conn: C, error: NetworkError },
}

/// A decision on an offer, to be passed on through `responder`.
#[derive(Debug, PartialEq, Eq)]
pub struct Decision<R> {
    pub responder: R,
    pub accept: bool,
}

impl<C, R> Network<C, R> {
    /// A node with this id, card and list of contacts; no session yet and no offers.
    pub fn start(node_id: String, card: Card, contacts: Vec<Contact>) -> (net: Self)
        ensures
            net@.wf(),
            net@ == (NetworkView::<C, R> {
                node_id: node_id@,
                card: under_id(card@, node_id@),
                session: None,
                next_session: 1,
                offers: Map::empty(),
                next_offer: 1,
                contacts: views(contacts@),
            }),
    {
        let mut our_card = card;
        our_card.node_id = node_id.clone();
        Network {
            node_id,
            our_card,
            session: None,
            next_session: 1,
            pending: HashMap::new(),
            next_offer_id: 1,
            contacts,
        }
    }

    /// The ticket under which this node, reachable at `addr`, can be dialed.
    pub fn ticket(&self, addr: &iroh::EndpointAddr) -> (r: Result<String, TicketError>)
        ensures
            r matches Ok(ticket) ==> (crate::ticket::addr_wire(*addr) matches Some(wire) && ticket@
                == crate::ticket::ticket_of(wire)),
            r matches Ok(ticket) ==> (crate::ticket::addr_read(
                crate::ticket::addr_wire(*addr)->0,
            ) matches Some(back) ==> leads_to(ticket@, back) && crate::ticket::node_key(back)
                == crate::ticket::node_key(*addr)),
            r matches Ok(ticket) ==> crate::ticket::is_readable(*addr) ==> crate::ticket::stands_for(
                ticket@,
                *addr,
            ),
            r == Err::<String, TicketError>(TicketError::Encode) <==> crate::ticket::addr_wire(
                *addr,
            ) is None,
            r == Err::<String, TicketError>(TicketError::TooLong) <==> (crate::ticket::addr_wire(
                *addr,
            ) matches Some(wire) && wire.len() > usize::MAX / 512),
            r matches Err(e) ==> e == TicketError::Encode || e == TicketError::TooLong,
    {
        encode_ticket(addr)
    }

    /// The node's own id.
    pub fn node_id(&self) -> (r: String)
        ensures
            r@ == self@.node_id,
    {
        self.node_id.clone()
    }

    /// The card to present to a peer.
    pub fn our_card(&self) -> (r: Card)
        ensures
            r@ == self@.card,
    {
        self.our_card.clone()
    }

    /// Presents another card from now on, under the same node id.
    pub fn update_card(&mut self, card: Card)
        ensures
            final(self)@ == old(self)@.after(Event::CardChanged { card: card@ }),
    {
        let mut our_card = card;
        our_card.node_id = self.node_id.clone();
        self.our_card = our_card;
    }

    /// The saved contacts.
    pub fn list_contacts(&self) -> (r: Vec<Contact>)
        ensures
            views(r@) == self@.contacts,
    {
        copy_contacts(&self.contacts)
    }

    /// The address to dial for a ticket.
    pub fn connect_to_ticket(&self, ticket: &str) -> (r: Result<iroh::EndpointAddr, TicketError>)
        ensures
            r is Ok <==> !is_too_long(ticket@) && crate::ticket::is_ticket(ticket@),
            r matches Ok(addr) ==> leads_to(ticket@, addr),
            r == Err::<iroh::EndpointAddr, TicketError>(TicketError::TooLong) <==> is_too_long(
                ticket@,
            ),
            r == Err::<iroh::EndpointAddr, TicketError>(TicketError::Base32) <==> !is_too_long(
                ticket@,
            ) && forall|bytes: Seq<u8>| !#[trigger] crate::ticket::carries(ticket@, bytes),
            r != Err::<iroh::EndpointAddr, TicketError>(TicketError::Encode),
    {
        decode_ticket(ticket)
    }

    /// The key to dial for a saved contact.
    pub fn dial_contact(&self, node_id: &str) -> (r: Result<[u8; 32], NodeIdError>)
        ensures
            r matches Ok(key) ==> key_of(node_id@) == Some(key@),
            r is Err ==> key_of(node_id@) is None,
    {
        parse_public_key(node_id)
    }

    // ---- The session ----

    /// The node id of the peer at the other end of the session.
    pub fn peer(&self) -> (r: Option<String>)
        ensures
            crate::card::text_in(r) == self@.peer(),
    {
        match &self.session {
            Some(s) => Some(s.peer_id.clone()),
            None => None,
        }
    }

    /// Makes `conn` the session with the holder of the card `peer`. Hands back the number
    /// of the session, and the connection that it takes the place of, to be closed as
    /// `replaced`.
    pub fn install_session(&mut self, peer: &Card, conn: C) -> (r: (u64, Option<C>))
        ensures
            final(self)@ == old(self)@.after(Event::Connected { conn, peer_id: peer@.node_id }),
            r.0 == old(self)@.next_session,
            r.1 == old(self)@.conn(),
    {
        let number = self.next_session;
        self.next_session = if number == u64::MAX {
            0
        } else {
            number + 1
        };
        let previous = self.session.take();
        self.session = Some(Session { number, conn, peer_id: peer.node_id.clone() });
        match previous {
            Some(s) => (number, Some(s.conn)),
            None => (number, None),
        }
    }

    /// A connection with a peer is up and its card has come in; `expected` is the node that
    /// was dialed, or that called. It is the session from now on, and the meeting is
    /// recorded where the card has a node id. A card that is not of that node, where a
    /// saved contact is concerned, is not trusted, and nothing changes.
    pub fn meet(&mut self, expected: &str, peer: &Card, conn: C, now: u64) -> (r: Meeting<C>)
        ensures
            is_trusted(old(self)@.contacts, expected@, peer@.node_id) ==> {
                &&& final(self)@ == old(self)@.after(
                    Event::Connected { conn, peer_id: peer@.node_id },
                ).after(Event::Met { card: peer@, now })
                &&& r == (Meeting::Welcome {
                    session: old(self)@.next_session,
                    replaced: old(self)@.conn(),
                    recorded: peer@.node_id.len() > 0,
                })
            },
            expected@ == peer@.node_id || (key_of(expected@) is Some && key_of(expected@) == key_of(
                peer@.node_id,
            )) ==> {
                &&& r == (Meeting::Welcome {
                    session: old(self)@.next_session,
                    replaced: old(self)@.conn(),
                    recorded: peer@.node_id.len() > 0,
                })
                &&& final(self)@.conn() == Some(conn)
                &&& final(self)@.peer() == Some(peer@.node_id)
                &&& final(self)@.contacts == upserted(old(self)@.contacts, peer@, now)
            },
            r is Refused ==> final(self)@ == old(self)@,
            !is_trusted(old(self)@.contacts, expected@, peer@.node_id) ==> {
                &&& final(self)@ == old(self)@
                &&& r == (Meeting::Refused { conn, error: NetworkError::WrongPeer })
            },
    {
        let claimed = peer.node_id.as_str();
        let trusted = same_text(expected, claimed) || is_whom_we_dialed(expected, peer) || !(
        is_saved_in(&self.contacts, expected) || is_saved_in(&self.contacts, claimed));
        if !trusted {
            return Meeting::Refused { conn, error: NetworkError::WrongPeer };
        }
        let (session, replaced) = self.install_session(peer, conn);
        let recorded = self.upsert_contact(peer, now);
        Meeting::Welcome { session, replaced, recorded }
    }

    /// The connection that was installed under the number `session` has ended. The session
    /// is over where it is its own.
    pub fn session_closed(&mut self, session: u64)
        ensures
            final(self)@ == old(self)@.after(Event::Closed { session }),
    {
        let over = match &self.session {
            Some(s) => s.number == session,
            None => false,
        };
        if over {
            self.session = None;
        }
    }

    /// Ends the session. Hands back its connection, to be closed as `bye`.
    pub fn disconnect(&mut self) -> (ended: Option<C>)
        ensures
            final(self)@ == old(self)@.after(Event::Disconnected),
            ended == old(self)@.conn(),
    {
        match self.session.take() {
            Some(s) => Some(s.conn),
            None => None,
        }
    }

    /// The connection to send the file at `path` over, under which name, and whom it
    /// reaches.
    pub fn send_file(&self, path: &str) -> (r: Result<(&C, Outgoing), NetworkError>)
        ensures
            r matches Ok(to) ==> (self@.session matches Some(s) && *to.0 == s.conn
                && to.1.peer_id() == s.peer_id && to.1.name() == offered_name(path@)),
            r matches Err(e) ==> self@.session is None && e == NetworkError::NotConnected,
    {
        match &self.session {
            Some(s) => {
                let name = match file_name_of(path) {
                    Some(name) => name,
                    None => "file".to_owned(),
                };
                Ok((&s.conn, Outgoing { name, peer_id: s.peer_id.clone() }))
            },
            None => Err(NetworkError::NotConnected),
        }
    }

    // ---- Offers ----

    /// An offer came in from `peer_id`: it gets the next number and waits for a
    /// decision, which is to be passed on through `responder`.
    pub fn offer_received(&mut self, offer: &Offer, peer_id: &str, responder: R) -> (shown:
        FileOffered)
        ensures
            final(self)@ == old(self)@.after(Event::Offered { responder }),
            shown.offer_id == old(self)@.next_offer,
            shown.name@ == offer.name@,
            shown.size == offer.size,
            shown.modified == offer.modified,
            shown.peer_id@ == peer_id@,
    {
        let offer_id = self.next_offer_id;
        self.next_offer_id = if offer_id == u64::MAX {
            0
        } else {
            offer_id + 1
        };
        self.pending.insert(offer_id, responder);
        FileOffered {
            offer_id,
            name: offer.name.clone(),
            size: offer.size,
            modified: offer.modified,
            peer_id: peer_id.to_owned(),
        }
    }

    /// Takes an offer off the list. Hands back the decision on it, and what it is to be
    /// passed on through.
    pub fn respond_to_offer(&mut self, offer_id: u64, accept: bool) -> (r: Result<
        Decision<R>,
        NetworkError,
    >)
        ensures
            final(self)@ == old(self)@.after(Event::Decided { offer_id }),
            r matches Ok(decision) ==> old(self)@.offers.contains_key(offer_id) && decision == (
            Decision { responder: old(self)@.offers[offer_id], accept }),
            r matches Err(e) ==> !old(self)@.offers.contains_key(offer_id) && e
                == NetworkError::NoSuchOffer,
    {
        match self.pending.remove(&offer_id) {
            Some(responder) => Ok(Decision { responder, accept }),
            None => {
                assert(old(self)@.offers.remove(offer_id) =~= old(self)@.offers);
                Err(NetworkError::NoSuchOffer)
            },
        }
    }

    // ---- Contacts ----

    /// Records a meeting with the holder of `card` at the time `now`. Tells whether the
    /// list is to be saved and shown again.
    pub fn upsert_contact(&mut self, card: &Card, now: u64) -> (recorded: bool)
        ensures
            final(self)@ == old(self)@.after(Event::Met { card: card@, now }),
            recorded == (card@.node_id.len() > 0),
    {
        upsert(&mut self.contacts, card, now)
    }
}

// ---- Presence -----------------------------------------------------------

/// How long to wait after the start before the first sweep, in seconds.
pub const PRESENCE_DELAY: u64 = 2;

/// How long to wait between two sweeps, in seconds.
pub const PRESENCE_INTERVAL: u64 = 15;

/// How long a contact has to answer a probe, in seconds.
pub const PRESENCE_TIMEOUT: u64 = 5;

/// How to find out whether a contact is online.
#[derive(Debug, PartialEq, Eq)]
pub enum Check {
    /// The session is with this contact: it is online.
    Online { node_id: String },
    /// Dial this key and see.
    Probe { node_id: String, key: [u8; 32] },
}

/// What a check says.
pub enum CheckView {
    Online { node_id: Seq<char> },
    Probe { node_id: Seq<char>, key: Seq<u8> },
}

impl CheckView {
    /// The contact that is checked.
    pub open spec fn id(self) -> Seq<char> {
        match self {
            CheckView::Online { node_id } => node_id,
            CheckView::Probe { node_id, .. } => node_id,
        }
    }
}

impl View for Check {
    type V = CheckView;

    open spec fn view(&self) -> CheckView {
        match self {
            Check::Online { node_id } => CheckView::Online { node_id: node_id@ },
            Check::Probe { node_id, key } => CheckView::Probe { node_id: node_id@, key: key@ },
        }
    }
}

/// Whether a contact is online.
#[derive(Debug, PartialEq, Eq)]
pub struct Presence {
    pub node_id: String,
    pub online: bool,
}

impl Check {
    /// What to report of the contact, given whether dialing reached it.
    pub fn outcome(&self, reached: bool) -> (r: Presence)
        ensures
            r.node_id@ == self@.id(),
            r.online == (self@ is Online || reached),
    {
        match self {
            Check::Online { node_id } => Presence { node_id: node_id.clone(), online: true },
            Check::Probe { node_id, .. } => Presence { node_id: node_id.clone(), online: reached },
        }
    }
}

/// How to check a contact, given the peer of the session and the key that the contact's
/// node id spells; `None` where there is no way to.
pub open spec fn check(
    node_id: Seq<char>,
    active: Option<Seq<char>>,
    key: Option<Seq<u8>>,
) -> Option<CheckView> {
    if active == Some(node_id) {
        Some(CheckView::Online { node_id })
    } else {
        match key {
            Some(key) => Some(CheckView::Probe { node_id, key }),
            None => None,
        }
    }
}

/// The view of an optional check.
pub open spec fn check_in(c: Option<Check>) -> Option<CheckView> {
    match c {
        Some(c) => Some(c@),
        None => None,
    }
}

/// The key in the result of parsing a node id.
pub open spec fn key_in(key: Result<[u8; 32], NodeIdError>) -> Option<Seq<u8>> {
    match key {
        Ok(key) => Some(key@),
        Err(_) => None,
    }
}

/// Decides how to check a contact, given the peer of the session and what became of
/// parsing the contact's node id.
pub fn check_contact(
    node_id: &str,
    active: &Option<String>,
    key: Result<[u8; 32], NodeIdError>,
) -> (r: Option<Check>)
    ensures
        check_in(r) == check(node_id@, crate::card::text_in(*active), key_in(key)),
{
    let is_active = match active {
        Some(peer) => same_text(peer.as_str(), node_id),
        None => false,
    };
    if is_active {
        return Some(Check::Online { node_id: node_id.to_owned() });
    }
    match key {
        Ok(key) => Some(Check::Probe { node_id: node_id.to_owned(), key }),
        Err(_) => None,
    }
}

/// The checks for the first `n` contacts of a list: one for each node id, in the order
/// in which they first appear.
pub open spec fn checks(list: Seq<ContactView>, active: Option<Seq<char>>, n: nat) -> Seq<CheckView>
    decreases n,
{
    if n == 0 {
        seq![]
    } else {
        let before = checks(list, active, (n - 1) as nat);
        let node_id = list[n - 1].node_id;
        if position(list, node_id) < n - 1 {
            before
        } else {
            match check(node_id, active, key_of(node_id)) {
                Some(c) => before.push(c),
                None => before,
            }
        }
    }
}

/// The views of a list of checks.
pub open spec fn check_views(list: Seq<Check>) -> Seq<CheckView> {
    list.map_values(|c: Check| c@)
}

impl<C, R> Network<C, R> {
    /// How to find out, for every contact, whether it is online.
    pub fn presence_checks(&self) -> (r: Vec<Check>)
        ensures
            check_views(r@) == checks(self@.contacts, self@.peer(), self@.contacts.len()),
    {
        let active = self.peer();
        let mut out: Vec<Check> = Vec::new();
        let mut i: usize = 0;
        while i < self.contacts.len()
            invariant
                i <= self.contacts@.len(),
                crate::card::text_in(active) == self@.peer(),
                check_views(out@) == checks(self@.contacts, self@.peer(), i as nat),
            decreases self.contacts@.len() - i,
        {
            let ghost before = check_views(out@);
            let node_id = self.contacts[i].node_id.as_str();
            proof {
                crate::contacts::lemma_position(self@.contacts, node_id@);
            }
            assert(self@.contacts[i as int].node_id == node_id@);
            if find_contact(&self.contacts, node_id) >= i {
                match check_contact(node_id, &active, parse_public_key(node_id)) {
                    Some(c) => {
                        out.push(c);
                        assert(check_views(out@) =~= before.push(c@));
                    },
                    None => {},
                }
            }
            i += 1;
        }
        out
    }
}

/// A sweep asks about each node id once at most, asks about contacts only, and takes
/// the peer of the session for online without dialing it.
pub proof fn each_contact_is_checked_once(
    list: Seq<ContactView>,
    active: Option<Seq<char>>,
    n: nat,
)
    requires
        n <= list.len(),
    ensures
        forall|i: int, j: int|
            0 <= i < j < checks(list, active, n).len() ==> (#[trigger] checks(list, active, n)[i]).id()
                != (#[trigger] checks(list, active, n)[j]).id(),
        forall|i: int|
            0 <= i < checks(list, active, n).len() ==> position(
                list,
                (#[trigger] checks(list, active, n)[i]).id(),
            ) < n,
        forall|i: int|
            0 <= i < checks(list, active, n).len() ==> ((#[trigger] checks(list, active, n)[i]) is Online
                <==> active == Some(checks(list, active, n)[i].id())),
    decreases n,
{
    if n > 0 {
        each_contact_is_checked_once(list, active, (n - 1) as nat);
        let before = checks(list, active, (n - 1) as nat);
        let node_id = list[n - 1].node_id;
        crate::contacts::lemma_position(list, node_id);
        assert(position(list, node_id) <= n - 1);
        let now = checks(list, active, n);
        assert forall|i: int, j: int| 0 <= i < j < now.len() implies (#[trigger] now[i]).id() != (
        #[trigger] now[j]).id() by {
            if j < before.len() {
                assert(before[i].id() != before[j].id());
            } else {
                assert(position(list, before[i].id()) < n - 1);
            }
        }
        assert forall|i: int| 0 <= i < now.len() implies position(list, (#[trigger] now[i]).id()) < n by {
            if i < before.len() {
                assert(position(list, before[i].id()) < n - 1);
            }
        }
        assert forall|i: int| 0 <= i < now.len() implies ((#[trigger] now[i]) is Online <==> active
            == Some(now[i].id())) by {
            if i < before.len() {
                assert(before[i] is Online <==> active == Some(before[i].id()));
            }
        }
    }
}

/// Nobody is passed over: every contact whose node id spells a key, and the peer of the
/// session, is checked.
pub proof fn no_contact_is_passed_over(
    list: Seq<ContactView>,
    active: Option<Seq<char>>,
    n: nat,
    k: int,
)
    requires
        0 <= k < n <= list.len(),
        key_of(list[k].node_id) is Some || active == Some(list[k].node_id),
    ensures
        exists|i: int|
            0 <= i < checks(list, active, n).len() && (#[trigger] checks(list, active, n)[i]).id()
                == list[k].node_id,
    decreases n,
{
    let node_id = list[k].node_id;
    crate::contacts::lemma_position(list, node_id);
    let at = position(list, node_id);
    let before = checks(list, active, (n - 1) as nat);
    if at < n - 1 {
        no_contact_is_passed_over(list, active, (n - 1) as nat, at);
        let i = choose|i: int| 0 <= i < before.len() && (#[trigger] before[i]).id() == list[at].node_id;
        assert(checks(list, active, n)[i] == before[i]);
    } else {
        assert(at == n - 1);
        assert(checks(list, active, n)[before.len() as int].id() == node_id);
    }
}

/// A saved contact that is dialed and answers with another node's card is not trusted, and
/// neither is anyone who presents the card of a saved contact; someone new is, whatever
/// their card says.
pub proof fn saved_contacts_are_pinned(
    list: Seq<ContactView>,
    k: int,
    expected: Seq<char>,
    claimed: Seq<char>,
)
    requires
        0 <= k < list.len(),
    ensures
        is_contact(list[k], expected) && expected.len() > 0 && expected != claimed && !is_same_node(
            expected,
            claimed,
        ) ==> !is_trusted(list, expected, claimed),
        is_contact(list[k], claimed) && claimed.len() > 0 && expected != claimed && !is_same_node(
            expected,
            claimed,
        ) ==> !is_trusted(list, expected, claimed),
        !is_saved(list, expected) && claimed.len() == 0 ==> is_trusted(list, expected, claimed),
{
}

// ---- What every state keeps ---------------------------------------------

/// Whatever happens, a node keeps its id and presents itself under it. A list of contacts
/// in which no two have the same node id stays so, and so does one in which all have one.
pub proof fn every_state_keeps_its_identity<C, R>(
    start: NetworkView<C, R>,
    events: Seq<Event<C, R>>,
)
    requires
        start.wf(),
    ensures
        start.after_all(events).wf(),
        start.after_all(events).node_id == start.node_id,
        ids_are_distinct(start.contacts) ==> ids_are_distinct(start.after_all(events).contacts),
        all_have_ids(start.contacts) ==> all_have_ids(start.after_all(events).contacts),
    decreases events.len(),
{
    if events.len() > 0 {
        every_state_keeps_its_identity(start, events.drop_last());
        if let Event::Met { card, now } = events.last() {
            let before = start.after_all(events.drop_last()).contacts;
            if ids_are_distinct(start.contacts) {
                upserting_keeps_node_ids_distinct(before, card, now);
            }
            if all_have_ids(start.contacts) {
                upserting_adds_no_contact_without_an_id(before, card, now);
            }
        }
    }
}

/// Only the newest connection is live: it takes the place of any other, and is gone after
/// the user ends it or it ends itself. The end of any other connection, be it with the same
/// peer, leaves it as it is.
pub proof fn one_session_at_a_time<C, R>(state: NetworkView<C, R>, conn: C, peer_id: Seq<char>)
    ensures
        state.after(Event::Connected { conn, peer_id }).session == Some(
            SessionView { number: state.next_session, conn, peer_id },
        ),
        state.after(Event::Connected { conn, peer_id }).after(Event::Disconnected).session is None,
        state.after(Event::Connected { conn, peer_id }).after(
            Event::Closed { session: state.next_session },
        ).session is None,
        forall|other: u64|
            other != state.next_session ==> #[trigger] state.after(
                Event::Connected { conn, peer_id },
            ).after(Event::Closed { session: other }) == state.after(
                Event::Connected { conn, peer_id },
            ),
{
}

/// How many of these events are new connections.
pub open spec fn connections_among<C, R>(events: Seq<Event<C, R>>) -> nat
    decreases events.len(),
{
    if events.len() == 0 {
        0
    } else {
        connections_among(events.drop_last()) + (if events.last() is Connected {
            1nat
        } else {
            0
        })
    }
}

/// Every connection gets a number above that of all before it, whatever else happens, until
/// the numbers run out.
pub proof fn session_numbers_are_fresh<C, R>(start: NetworkView<C, R>, events: Seq<Event<C, R>>)
    requires
        start.session matches Some(s) ==> s.number < start.next_session,
        start.next_session + connections_among(events) <= u64::MAX,
    ensures
        start.after_all(events).next_session == start.next_session + connections_among(events),
        start.after_all(events).session matches Some(s) ==> s.number < start.after_all(
            events,
        ).next_session,
    decreases events.len(),
{
    if events.len() > 0 {
        session_numbers_are_fresh(start, events.drop_last());
    }
}

/// The end of a connection that was replaced ends nothing: once another connection is up,
/// whatever happened in between, the end of the first one leaves the state as it is.
pub proof fn a_replaced_connection_ends_nothing<C, R>(
    start: NetworkView<C, R>,
    first: Event<C, R>,
    between: Seq<Event<C, R>>,
    conn: C,
    peer_id: Seq<char>,
)
    requires
        start.session matches Some(s) ==> s.number < start.next_session,
        first is Connected,
        start.next_session + 2 + connections_among(between) <= u64::MAX,
    ensures
        ({
            let live = start.after(first).after_all(between).after(
                Event::Connected { conn, peer_id },
            );
            &&& live.after(Event::Closed { session: start.next_session }) == live
            &&& live.session matches Some(s) && s.conn == conn && s.peer_id == peer_id
        }),
{
    session_numbers_are_fresh(start.after(first), between);
}

/// How many of these events are offers.
pub open spec fn offers_among<C, R>(events: Seq<Event<C, R>>) -> nat
    decreases events.len(),
{
    if events.len() == 0 {
        0
    } else {
        offers_among(events.drop_last()) + (if events.last() is Offered {
            1nat
        } else {
            0
        })
    }
}

/// Every offer gets a number that no waiting offer has, whatever else happens, until the
/// numbers run out.
pub proof fn offer_numbers_are_fresh<C, R>(start: NetworkView<C, R>, events: Seq<Event<C, R>>)
    requires
        forall|id: u64| #[trigger] start.offers.contains_key(id) ==> id < start.next_offer,
        start.next_offer + offers_among(events) <= u64::MAX,
    ensures
        forall|id: u64| #[trigger]
            start.after_all(events).offers.contains_key(id) ==> id < start.after_all(
                events,
            ).next_offer,
        !start.after_all(events).offers.contains_key(start.after_all(events).next_offer),
        start.after_all(events).next_offer == start.next_offer + offers_among(events),
    decreases events.len(),
{
    if events.len() > 0 {
        offer_numbers_are_fresh(start, events.drop_last());
    }
}

/// An offer is decided on once: after a decision its number is gone, and every other
/// offer waits as before.
pub proof fn an_offer_is_decided_once<C, R>(state: NetworkView<C, R>, offer_id: u64)
    ensures
        !state.after(Event::Decided { offer_id }).offers.contains_key(offer_id),
        forall|other: u64| #[trigger]
            state.offers.contains_key(other) && other != offer_id ==> state.after(
                Event::Decided { offer_id },
            ).offers.contains_key(other) && state.after(
                Event::Decided { offer_id },
            ).offers[other] == state.offers[other],
        state.after(Event::Decided { offer_id }).after(Event::Decided { offer_id }) == state.after(
            Event::Decided { offer_id },
        ),
{
    assert(state.offers.remove(offer_id).remove(offer_id) =~= state.offers.remove(offer_id));
}

// ---- What each event comes to -------------------------------------------

/// A connection is greeted by the whole name of its protocol: one of the two that are
/// spoken, and anything else is unknown.
pub proof fn a_connection_is_greeted_by_its_protocol(alpn: Seq<u8>)
    ensures
        greeting(alpn) == Greeting::Pong <==> alpn == vstd::utf8::encode_utf8(
            "krill-file-drop/ping/v1"@,
        ),
        greeting(alpn) == Greeting::Cards <==> alpn == vstd::utf8::encode_utf8("krill-file-drop/v1"@),
{
    both_protocols_are_spoken();
}

/// An event changes its own part of the state and leaves all others as they were.
pub proof fn an_event_changes_its_own_part<C, R>(state: NetworkView<C, R>, event: Event<C, R>)
    ensures
        state.after(event).node_id == state.node_id,
        !(event is CardChanged) ==> state.after(event).card == state.card,
        !(event is Connected || event is Closed || event is Disconnected) ==> state.after(event).session
            == state.session,
        !(event is Connected) ==> state.after(event).next_session == state.next_session,
        !(event is Offered || event is Decided) ==> state.after(event).offers == state.offers,
        !(event is Offered) ==> state.after(event).next_offer == state.next_offer,
        !(event is Met) ==> state.after(event).contacts == state.contacts,
{
}

/// A changed card is presented with all that it says, under the node's own id.
pub proof fn a_changed_card_is_presented<C, R>(state: NetworkView<C, R>, card: CardView)
    ensures
        state.after(Event::CardChanged { card }).card.node_id == state.node_id,
        state.after(Event::CardChanged { card }).card.version == card.version,
        state.after(Event::CardChanged { card }).card.display_name == card.display_name,
        state.after(Event::CardChanged { card }).card.icon == card.icon,
        state.after(Event::CardChanged { card }).card.avatar == card.avatar,
{
}

/// A connection is live until it ends: installing it makes it the session, whoever the peer
/// is, and only its own end, or the user, ends it.
pub proof fn a_session_lives_as_long_as_its_connection<C, R>(
    state: NetworkView<C, R>,
    conn: C,
    peer_id: Seq<char>,
    number: u64,
)
    ensures
        state.after(Event::Connected { conn, peer_id }).conn() == Some(conn),
        state.after(Event::Connected { conn, peer_id }).peer() == Some(peer_id),
        state.after(Event::Connected { conn, peer_id }).session is Some,
        state.after(Event::Disconnected).session is None,
        state.after(Event::Disconnected).conn() is None,
        state.after(Event::Disconnected).peer() is None,
        (state.session matches Some(s) && s.number != number) ==> state.after(
            Event::Closed { session: number },
        ).session == state.session,
        (state.session matches Some(s) && s.number == number) ==> state.after(
            Event::Closed { session: number },
        ).session is None,
        state.session is None ==> state.after(Event::Closed { session: number }).session is None,
{
}

/// The peer and the connection are those of the session.
pub proof fn peer_and_connection_are_those_of_the_session<C, R>(state: NetworkView<C, R>)
    ensures
        state.session matches Some(s) ==> state.peer() == Some(s.peer_id) && state.conn() == Some(
            s.conn,
        ),
        state.session is None ==> state.peer() is None && state.conn() is None,
{
}

/// An offer waits for its decision under the next number, beside all that wait already; a
/// decision takes that offer away and no other.
pub proof fn an_offer_waits_for_its_decision<C, R>(
    state: NetworkView<C, R>,
    responder: R,
    offer_id: u64,
)
    ensures
        state.after(Event::Offered { responder }).offers.contains_key(state.next_offer),
        state.after(Event::Offered { responder }).offers[state.next_offer] == responder,
        forall|id: u64|
            id != state.next_offer ==> (#[trigger] state.after(
                Event::Offered { responder },
            ).offers.contains_key(id) <==> state.offers.contains_key(id)),
        forall|id: u64|
            id != state.next_offer && state.offers.contains_key(id) ==> #[trigger] state.after(
                Event::Offered { responder },
            ).offers[id] == state.offers[id],
        state.next_offer < u64::MAX ==> state.after(Event::Offered { responder }).next_offer
            == state.next_offer + 1,
        state.next_offer == u64::MAX ==> state.after(Event::Offered { responder }).next_offer == 0,
        forall|id: u64| #[trigger]
            state.after(Event::Decided { offer_id }).offers.contains_key(id) <==> id != offer_id
                && state.offers.contains_key(id),
        state.next_session < u64::MAX ==> forall|conn: C, peer_id: Seq<char>|
            (#[trigger] state.after(Event::Connected { conn, peer_id })).next_session
                == state.next_session + 1,
{
}

/// A meeting is recorded in the contacts as the card says.
pub proof fn a_meeting_is_recorded<C, R>(state: NetworkView<C, R>, card: CardView, now: u64)
    requires
        card.node_id.len() > 0,
    ensures
        exists|i: int|
            0 <= i < state.after(Event::Met { card, now }).contacts.len() && {
                let contact = #[trigger] state.after(Event::Met { card, now }).contacts[i];
                &&& contact.node_id == card.node_id
                &&& contact.display_name == card.display_name
                &&& contact.icon == card.icon
                &&& contact.avatar == card.avatar
                &&& contact.last_paired == now
            },
{
    crate::contacts::who_was_met_is_listed(state.contacts, card, now);
    crate::contacts::a_contact_takes_over_the_card(card, now);
    crate::contacts::lemma_position(state.contacts, card.node_id);
    let i = position(state.contacts, card.node_id);
    assert(state.after(Event::Met { card, now }).contacts[i] == crate::contacts::contact_of(card, now));
}

/// A file is offered under the last component of its path, whatever it is called and wherever
/// it lies, and under `file` only where the path names none.
pub proof fn a_file_is_offered_under_its_own_name(dir: Seq<char>, name: Seq<char>)
    requires
        name.len() > 0,
        !name.contains('/'),
        name != seq!['.'],
        name != seq!['.', '.'],
    ensures
        offered_name(crate::names::joined(dir, name)) == name,
        offered_name(name) == name,
        offered_name(dir.push('/') + name) == name,
        offered_name(dir.push('/') + seq!['.', '.']) == "file"@,
        offered_name(seq![]) == "file"@,
{
    if name[0] == '/' {
        assert(name.contains('/'));
    }
    let between = crate::names::a_path_is_directory_and_name(dir, name);
    let front = dir + between;
    if front.len() > 0 {
        assert(front.last() == '/');
    }
    crate::names::the_last_component_is_what_follows_the_last_separator(front, name);
    crate::names::the_last_component_is_what_follows_the_last_separator(dir.push('/'), name);
    crate::names::the_last_component_is_what_follows_the_last_separator(
        dir.push('/'),
        seq!['.', '.'],
    );
    crate::names::the_last_component_is_what_follows_the_last_separator(seq![], name);
    assert(Seq::<char>::empty() + name =~= name);
}

/// Whoever answers under the id that was dialed, or that called, is trusted, saved or not:
/// the same id, or any other spelling of the same key.
pub proof fn the_same_node_is_always_trusted(
    list: Seq<ContactView>,
    id: Seq<char>,
    expected: Seq<char>,
    claimed: Seq<char>,
)
    ensures
        is_trusted(list, id, id),
        key_of(expected) is Some && key_of(expected) == key_of(claimed) ==> is_trusted(
            list,
            expected,
            claimed,
        ),
{
}

/// Someone is refused only for the sake of a saved contact: where neither the id that was
/// dialed, or that called, nor the one on the card is that of a contact, by its text or by
/// its key, they are trusted.
pub proof fn a_stranger_is_trusted(list: Seq<ContactView>, expected: Seq<char>, claimed: Seq<char>)
    requires
        forall|i: int|
            0 <= i < list.len() ==> {
                &&& (#[trigger] list[i]).node_id != expected
                &&& list[i].node_id != claimed
                &&& key_of(list[i].node_id) is Some ==> key_of(list[i].node_id) != key_of(expected)
                    && key_of(list[i].node_id) != key_of(claimed)
            },
    ensures
        is_trusted(list, expected, claimed),
{
}

/// A saved contact is not taken for another node: where either of the two ids is that of a
/// contact, and they are different texts that do not spell the same key, there is no trust.
pub proof fn another_node_is_not_taken_for_a_contact(
    list: Seq<ContactView>,
    k: int,
    expected: Seq<char>,
    claimed: Seq<char>,
)
    requires
        0 <= k < list.len(),
        expected != claimed,
        key_of(expected) is None || key_of(expected) != key_of(claimed),
        expected.len() > 0 && (list[k].node_id == expected || (key_of(expected) is Some && key_of(
            list[k].node_id,
        ) == key_of(expected))) || claimed.len() > 0 && (list[k].node_id == claimed || (key_of(
            claimed,
        ) is Some && key_of(list[k].node_id) == key_of(claimed))),
    ensures
        !is_trusted(list, expected, claimed),
{
    assert(is_contact(list[k], expected) || is_contact(list[k], claimed));
}

/// A node id is the same node as another exactly where both spell the same key.
pub proof fn nodes_are_told_by_their_keys(a: Seq<char>, b: Seq<char>)
    ensures
        is_same_node(a, b) <==> (key_of(a) is Some && key_of(a) == key_of(b)),
        key_of(a) is Some ==> is_same_node(a, a),
        is_same_node(a, b) ==> is_same_node(b, a),
{
}

/// The peer of the session is online without being dialed; any other contact is dialed under
/// the key that its node id spells, and one that spells none is left out.
pub proof fn a_contact_is_checked_under_its_key(
    node_id: Seq<char>,
    active: Option<Seq<char>>,
    key: Option<Seq<u8>>,
)
    ensures
        active == Some(node_id) ==> check(node_id, active, key) == Some(
            CheckView::Online { node_id },
        ),
        active != Some(node_id) && key is Some ==> check(node_id, active, key) == Some(
            CheckView::Probe { node_id, key: key->0 },
        ),
        active != Some(node_id) && key is None ==> check(node_id, active, key) is None,
        (CheckView::Online { node_id }).id() == node_id,
        key is Some ==> (CheckView::Probe { node_id, key: key->0 }).id() == node_id,
{
}

/// In a sweep every probe goes to the key that the contact's node id spells.
pub proof fn probes_go_to_the_contacts_own_keys(
    list: Seq<ContactView>,
    active: Option<Seq<char>>,
    n: nat,
)
    requires
        n <= list.len(),
    ensures
        forall|i: int|
            0 <= i < checks(list, active, n).len() ==> ((#[trigger] checks(list, active, n)[
                i
            ]) matches CheckView::Probe { node_id, key } ==> key_of(node_id) == Some(key)),
    decreases n,
{
    if n > 0 {
        probes_go_to_the_contacts_own_keys(list, active, (n - 1) as nat);
        let before = checks(list, active, (n - 1) as nat);
        let now = checks(list, active, n);
        assert forall|i: int| 0 <= i < now.len() implies ((#[trigger] now[
            i
        ]) matches CheckView::Probe { node_id, key } ==> key_of(node_id) == Some(key)) by {
            if i < before.len() {
                assert(now[i] == before[i]);
            }
        }
    }
}

/// A check says what it holds.
pub proof fn a_check_says_what_it_holds(check: Check, list: Seq<Check>, key: [u8; 32])
    ensures
        check matches Check::Online { node_id } ==> check@ == (CheckView::Online {
            node_id: node_id@,
        }),
        check matches Check::Probe { node_id, key } ==> check@ == (CheckView::Probe {
            node_id: node_id@,
            key: key@,
        }),
        check_in(Some(check)) == Some(check@),
        check_in(None) is None,
        key_in(Ok(key)) == Some(key@),
        key_in(Err(NodeIdError)) is None,
        check_views(list).len() == list.len(),
        forall|i: int| 0 <= i < list.len() ==> check_views(list)[i] == (#[trigger] list[i])@,
{
}

/// A sweep goes through the contacts in the order in which they are listed.
pub proof fn a_sweep_keeps_the_order_of_the_list(
    list: Seq<ContactView>,
    active: Option<Seq<char>>,
    n: nat,
)
    requires
        n <= list.len(),
    ensures
        forall|i: int, j: int|
            0 <= i < j < checks(list, active, n).len() ==> position(
                list,
                (#[trigger] checks(list, active, n)[i]).id(),
            ) < position(list, (#[trigger] checks(list, active, n)[j]).id()),
    decreases n,
{
    if n > 0 {
        a_sweep_keeps_the_order_of_the_list(list, active, (n - 1) as nat);
        each_contact_is_checked_once(list, active, (n - 1) as nat);
        let before = checks(list, active, (n - 1) as nat);
        let now = checks(list, active, n);
        let node_id = list[n - 1].node_id;
        crate::contacts::lemma_position(list, node_id);
        assert(position(list, node_id) <= n - 1);
        assert forall|i: int, j: int| 0 <= i < j < now.len() implies position(
            list,
            (#[trigger] now[i]).id(),
        ) < position(list, (#[trigger] now[j]).id()) by {
            assert(now[i] == before[i]);
            if j < before.len() {
                assert(now[j] == before[j]);
            } else {
                assert(position(list, before[i].id()) < n - 1);
            }
        }
    }
}

/// Sweeps come every 15 seconds, the first one 2 seconds after the start, and a contact has 5
/// seconds to answer, less than there is between two sweeps.
pub proof fn a_probe_is_over_before_the_next_sweep(start: int, sweep: nat)
    ensures
        start + PRESENCE_DELAY + sweep * PRESENCE_INTERVAL == start + 2 + sweep * 15,
        start + PRESENCE_DELAY + sweep * PRESENCE_INTERVAL + PRESENCE_TIMEOUT == start + 7 + sweep
            * 15,
        PRESENCE_TIMEOUT < PRESENCE_INTERVAL,
{
}

} // verus!
