//! The list of saved contacts.

use vstd::prelude::*;
use vstd::string::*;

use crate::card::{copy_text, text_in, Card, CardView};
use crate::text::same_text;

verus! {

/// A saved peer: its last card, and when it was last met.
#[derive(Debug, PartialEq, Eq)]
pub struct Contact {
    pub node_id: String,
    pub display_name: String,
    pub icon: String,
    pub avatar: Option<String>,
    /// Milliseconds since the Unix epoch.
    pub last_paired: u64,
}

/// What a contact says.
pub struct ContactView {
    pub node_id: Seq<char>,
    pub display_name: Seq<char>,
    pub icon: Seq<char>,
    pub avatar: Option<Seq<char>>,
    pub last_paired: u64,
}

impl View for Contact {
    type V = ContactView;

    open spec fn view(&self) -> ContactView {
        ContactView {
            node_id: self.node_id@,
            display_name: self.display_name@,
            icon: self.icon@,
            avatar: text_in(self.avatar),
            last_paired: self.last_paired,
        }
    }
}

impl Clone for Contact {
    fn clone(&self) -> (r: Self)
        ensures
            r@ == self@,
    {
        Contact {
            node_id: self.node_id.clone(),
            display_name: self.display_name.clone(),
            icon: self.icon.clone(),
            avatar: copy_text(&self.avatar),
            last_paired: self.last_paired,
        }
    }
}

impl Default for Contact {
    fn default() -> (r: Self)
        ensures
            r@ == (ContactView {
                node_id: seq![],
                display_name: seq![],
                icon: seq![],
                avatar: None,
                last_paired: 0,
            }),
    {
        Contact {
            node_id: String::new(),
            display_name: String::new(),
            icon: String::new(),
            avatar: None,
            last_paired: 0,
        }
    }
}

/// What a list of contacts says.
pub open spec fn views(list: Seq<Contact>) -> Seq<ContactView> {
    list.map_values(|c: Contact| c@)
}

/// The contact that a card makes at the time `now`.
pub open spec fn contact_of(card: CardView, now: u64) -> ContactView {
    ContactView {
        node_id: card.node_id,
        display_name: card.display_name,
        icon: card.icon,
        avatar: card.avatar,
        last_paired: now,
    }
}

/// The position of the first contact with this node id; the length of the list where
/// there is none.
pub open spec fn position(list: Seq<ContactView>, node_id: Seq<char>) -> int
    decreases list.len(),
{
    if list.len() == 0 {
        0
    } else if list.first().node_id == node_id {
        0
    } else {
        1 + position(list.drop_first(), node_id)
    }
}

/// The list after meeting the holder of `card` at the time `now`: the contact with its
/// node id takes over what the card says, or a new one goes at the end. A card without
/// a node id changes nothing.
pub open spec fn upserted(list: Seq<ContactView>, card: CardView, now: u64) -> Seq<ContactView> {
    let at = position(list, card.node_id);
    if card.node_id.len() == 0 {
        list
    } else if at < list.len() {
        list.update(at, contact_of(card, now))
    } else {
        list.push(contact_of(card, now))
    }
}

pub(crate) proof fn lemma_position(list: Seq<ContactView>, node_id: Seq<char>)
    ensures
        0 <= position(list, node_id) <= list.len(),
        position(list, node_id) < list.len() ==> list[position(list, node_id)].node_id == node_id,
        forall|i: int| 0 <= i < position(list, node_id) ==> list[i].node_id != node_id,
    decreases list.len(),
{
    if list.len() > 0 && list.first().node_id != node_id {
        lemma_position(list.drop_first(), node_id);
        assert forall|i: int| 0 <= i < position(list, node_id) implies list[i].node_id != node_id by {
            if i > 0 {
                assert(list.drop_first()[i - 1] == list[i]);
            }
        }
    }
}

proof fn lemma_position_is(list: Seq<ContactView>, node_id: Seq<char>, at: int)
    requires
        0 <= at <= list.len(),
        at < list.len() ==> list[at].node_id == node_id,
        forall|i: int| 0 <= i < at ==> list[i].node_id != node_id,
    ensures
        position(list, node_id) == at,
{
    lemma_position(list, node_id);
    let p = position(list, node_id);
    if p < at {
        assert(list[p].node_id != node_id);
    } else if at < p {
        assert(list[at].node_id != node_id);
    }
}

/// Where the contact with this node id stands in the list; the length of the list where
/// there is none.
pub fn find_contact(list: &Vec<Contact>, node_id: &str) -> (at: usize)
    ensures
        at == position(views(list@), node_id@),
{
    let mut i: usize = 0;
    while i < list.len()
        invariant
            i <= list@.len(),
            forall|j: int| 0 <= j < i ==> views(list@)[j].node_id != node_id@,
        decreases list@.len() - i,
    {
        if same_text(list[i].node_id.as_str(), node_id) {
            proof {
                lemma_position_is(views(list@), node_id@, i as int);
            }
            return i;
        }
        i += 1;
    }
    proof {
        lemma_position_is(views(list@), node_id@, i as int);
    }
    i
}

/// Records a meeting with the holder of `card` in the list. Tells whether there was
/// anything to record.
pub fn upsert(list: &mut Vec<Contact>, card: &Card, now: u64) -> (recorded: bool)
    ensures
        views(final(list)@) == upserted(views(old(list)@), card@, now),
        recorded == (card@.node_id.len() > 0),
{
    if card.node_id.as_str().is_empty() {
        return false;
    }
    let at = find_contact(list, card.node_id.as_str());
    let contact = Contact {
        node_id: card.node_id.clone(),
        display_name: card.display_name.clone(),
        icon: card.icon.clone(),
        avatar: copy_text(&card.avatar),
        last_paired: now,
    };
    assert(contact@ == contact_of(card@, now));
    if at < list.len() {
        list.set(at, contact);
    } else {
        proof {
            lemma_position(views(list@), card@.node_id);
        }
        list.push(contact);
    }
    assert(views(list@) =~= upserted(views(old(list)@), card@, now));
    true
}

/// A copy of the list.
pub fn copy_contacts(list: &Vec<Contact>) -> (r: Vec<Contact>)
    ensures
        views(r@) == views(list@),
{
    let mut out: Vec<Contact> = Vec::new();
    let mut i: usize = 0;
    while i < list.len()
        invariant
            i <= list@.len(),
            views(out@) == views(list@).take(i as int),
        decreases list@.len() - i,
    {
        let ghost before = views(out@);
        out.push(list[i].clone());
        assert(views(out@) =~= before.push(list@[i as int]@));
        assert(views(list@).take(i as int).push(views(list@)[i as int]) =~= views(list@).take(i + 1));
        i += 1;
    }
    assert(views(list@).take(i as int) =~= views(list@));
    out
}

/// No two contacts have the same node id.
pub open spec fn ids_are_distinct(list: Seq<ContactView>) -> bool {
    forall|i: int, j: int|
        0 <= i < j < list.len() ==> (#[trigger] list[i]).node_id != (#[trigger] list[j]).node_id
}

/// Every contact has a node id.
pub open spec fn all_have_ids(list: Seq<ContactView>) -> bool {
    forall|i: int| 0 <= i < list.len() ==> (#[trigger] list[i]).node_id.len() > 0
}

/// Meeting someone keeps a list in which no two contacts have the same node id in that
/// state.
pub proof fn upserting_keeps_node_ids_distinct(list: Seq<ContactView>, card: CardView, now: u64)
    requires
        ids_are_distinct(list),
    ensures
        ids_are_distinct(upserted(list, card, now)),
{
    lemma_position(list, card.node_id);
    let at = position(list, card.node_id);
    let after = upserted(list, card, now);
    if card.node_id.len() > 0 {
        assert forall|i: int, j: int| 0 <= i < j < after.len() implies (#[trigger] after[i]).node_id
            != (#[trigger] after[j]).node_id by {
            if i != at && j != at {
                assert(after[i] == list[i] && after[j] == list[j]);
            } else if at < list.len() {
                assert(list[i].node_id != list[j].node_id);
            }
        }
    }
}

/// Meeting someone keeps a list in which every contact has a node id in that state.
pub proof fn upserting_adds_no_contact_without_an_id(
    list: Seq<ContactView>,
    card: CardView,
    now: u64,
)
    requires
        all_have_ids(list),
    ensures
        all_have_ids(upserted(list, card, now)),
{
    lemma_position(list, card.node_id);
    let after = upserted(list, card, now);
    assert forall|i: int| 0 <= i < after.len() implies (#[trigger] after[i]).node_id.len() > 0 by {
        if i != position(list, card.node_id) || card.node_id.len() == 0 {
            assert(after[i] == list[i]);
        }
    }
}

/// Whoever was met is in the list, with what the card says and the time of the meeting.
pub proof fn who_was_met_is_listed(list: Seq<ContactView>, card: CardView, now: u64)
    requires
        card.node_id.len() > 0,
    ensures
        position(upserted(list, card, now), card.node_id) == position(list, card.node_id),
        position(list, card.node_id) < upserted(list, card, now).len(),
        upserted(list, card, now)[position(list, card.node_id)] == contact_of(card, now),
{
    lemma_position(list, card.node_id);
    let at = position(list, card.node_id);
    let after = upserted(list, card, now);
    assert forall|i: int| 0 <= i < at implies after[i].node_id != card.node_id by {
        assert(after[i] == list[i]);
    }
    lemma_position_is(after, card.node_id, at);
}

/// Everyone else stays as they were, in the same place, and the list grows by one at
/// most.
pub proof fn others_stay_as_they_were(list: Seq<ContactView>, card: CardView, now: u64)
    ensures
        list.len() <= upserted(list, card, now).len() <= list.len() + 1,
        forall|i: int|
            0 <= i < list.len() && (#[trigger] list[i]).node_id != card.node_id ==> upserted(
                list,
                card,
                now,
            )[i] == list[i],
{
    lemma_position(list, card.node_id);
}

/// Of several meetings with the same card only the last one shows.
pub proof fn the_last_meeting_counts(list: Seq<ContactView>, card: CardView, first: u64, second: u64)
    ensures
        upserted(upserted(list, card, first), card, second) == upserted(list, card, second),
{
    if card.node_id.len() > 0 {
        lemma_position(list, card.node_id);
        who_was_met_is_listed(list, card, first);
        assert(upserted(upserted(list, card, first), card, second) =~= upserted(list, card, second));
    }
}

// ---- What contacts come to ----------------------------------------------

/// A contact says what it holds, field by field.
pub proof fn a_contact_says_what_it_holds(contact: Contact)
    ensures
        contact@.node_id == contact.node_id@,
        contact@.display_name == contact.display_name@,
        contact@.icon == contact.icon@,
        contact.avatar is None <==> contact@.avatar is None,
        contact.avatar matches Some(avatar) ==> contact@.avatar == Some(avatar@),
        contact@.last_paired == contact.last_paired,
{
}

/// A list says what its contacts say, one for one.
pub proof fn a_list_says_what_its_contacts_say(list: Seq<Contact>)
    ensures
        views(list).len() == list.len(),
        forall|i: int| 0 <= i < list.len() ==> views(list)[i] == (#[trigger] list[i])@,
{
}

/// A contact takes over everything that the card says, and the time of the meeting.
pub proof fn a_contact_takes_over_the_card(card: CardView, now: u64)
    ensures
        contact_of(card, now).node_id == card.node_id,
        contact_of(card, now).display_name == card.display_name,
        contact_of(card, now).icon == card.icon,
        contact_of(card, now).avatar == card.avatar,
        contact_of(card, now).last_paired == now,
{
}

/// The first contact with a node id is found, by the whole of the id; where none has it, the
/// place is behind the last.
pub proof fn the_first_contact_with_an_id_is_found(list: Seq<ContactView>, node_id: Seq<char>, at: int)
    requires
        0 <= at <= list.len(),
        forall|i: int| 0 <= i < at ==> list[i].node_id != node_id,
        at < list.len() ==> list[at].node_id == node_id,
    ensures
        position(list, node_id) == at,
{
    lemma_position_is(list, node_id, at);
}

/// A meeting with someone who is listed updates that entry alone; one with someone new adds
/// one entry at the end; one without a node id changes nothing.
pub proof fn a_meeting_changes_one_entry(list: Seq<ContactView>, card: CardView, now: u64, at: int)
    ensures
        card.node_id.len() == 0 ==> upserted(list, card, now) == list,
        (card.node_id.len() > 0 && 0 <= at < list.len() && list[at].node_id == card.node_id && forall|
            i: int,
        |
            0 <= i < at ==> list[i].node_id != card.node_id) ==> {
            &&& upserted(list, card, now).len() == list.len()
            &&& upserted(list, card, now)[at].display_name == card.display_name
            &&& upserted(list, card, now)[at].last_paired == now
            &&& forall|i: int|
                0 <= i < list.len() && i != at ==> upserted(list, card, now)[i] == #[trigger] list[i]
        },
        (card.node_id.len() > 0 && forall|i: int|
            0 <= i < list.len() ==> list[i].node_id != card.node_id) ==> {
            &&& upserted(list, card, now).len() == list.len() + 1
            &&& upserted(list, card, now).last().node_id == card.node_id
            &&& upserted(list, card, now).last().last_paired == now
            &&& forall|i: int|
                0 <= i < list.len() ==> upserted(list, card, now)[i] == #[trigger] list[i]
        },
{
    lemma_position(list, card.node_id);
    if card.node_id.len() > 0 && 0 <= at < list.len() && list[at].node_id == card.node_id && forall|
        i: int,
    |
        0 <= i < at ==> list[i].node_id != card.node_id {
        lemma_position_is(list, card.node_id, at);
    }
    if forall|i: int| 0 <= i < list.len() ==> list[i].node_id != card.node_id {
        lemma_position_is(list, card.node_id, list.len() as int);
    }
}

} // verus!
