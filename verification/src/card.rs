//! Cards: who a node says it is.

use vstd::prelude::*;
use vstd::string::*;

use crate::text::{same_text, trimmed};

verus! {

/// The text in an optional string.
pub open spec fn text_in(s: Option<String>) -> Option<Seq<char>> {
    match s {
        Some(t) => Some(t@),
        None => None,
    }
}

/// A copy of an optional string.
pub fn copy_text(s: &Option<String>) -> (r: Option<String>)
    ensures
        text_in(r) == text_in(*s),
{
    match s {
        Some(t) => Some(t.clone()),
        None => None,
    }
}

/// The longest card that is read from a peer, in bytes.
pub const CARD_LIMIT: u32 = 1048576;

/// A contact card, the first thing two nodes tell each other.
#[derive(Debug, PartialEq, Eq)]
pub struct Card {
    pub version: u32,
    pub node_id: String,
    pub display_name: String,
    pub icon: String,
    pub avatar: Option<String>,
}

/// What a card says.
pub struct CardView {
    pub version: u32,
    pub node_id: Seq<char>,
    pub display_name: Seq<char>,
    pub icon: Seq<char>,
    pub avatar: Option<Seq<char>>,
}

impl View for Card {
    type V = CardView;

    open spec fn view(&self) -> CardView {
        CardView {
            version: self.version,
            node_id: self.node_id@,
            display_name: self.display_name@,
            icon: self.icon@,
            avatar: text_in(self.avatar),
        }
    }
}

impl Clone for Card {
    fn clone(&self) -> (r: Self)
        ensures
            r@ == self@,
    {
        Card {
            version: self.version,
            node_id: self.node_id.clone(),
            display_name: self.display_name.clone(),
            icon: self.icon.clone(),
            avatar: copy_text(&self.avatar),
        }
    }
}

impl Default for Card {
    fn default() -> (r: Self)
        ensures
            r@ == (CardView {
                version: 0,
                node_id: seq![],
                display_name: seq![],
                icon: seq![],
                avatar: None,
            }),
    {
        Card {
            version: 0,
            node_id: String::new(),
            display_name: String::new(),
            icon: String::new(),
            avatar: None,
        }
    }
}

/// The user's own card as it is kept on disk.
#[derive(Debug, PartialEq, Eq)]
pub struct Identity {
    pub version: u32,
    pub node_id: String,
    pub display_name: String,
    pub icon: String,
    pub avatar: Option<String>,
}

impl View for Identity {
    type V = CardView;

    open spec fn view(&self) -> CardView {
        CardView {
            version: self.version,
            node_id: self.node_id@,
            display_name: self.display_name@,
            icon: self.icon@,
            avatar: text_in(self.avatar),
        }
    }
}

impl Clone for Identity {
    fn clone(&self) -> (r: Self)
        ensures
            r@ == self@,
    {
        Identity {
            version: self.version,
            node_id: self.node_id.clone(),
            display_name: self.display_name.clone(),
            icon: self.icon.clone(),
            avatar: copy_text(&self.avatar),
        }
    }
}

impl Default for Identity {
    fn default() -> (r: Self)
        ensures
            r@ == (CardView {
                version: 0,
                node_id: seq![],
                display_name: seq![],
                icon: seq![],
                avatar: None,
            }),
    {
        Identity {
            version: 0,
            node_id: String::new(),
            display_name: String::new(),
            icon: String::new(),
            avatar: None,
        }
    }
}

/// The card that an identity presents: the same, with a version of at least 1.
pub open spec fn presented(identity: CardView) -> CardView {
    CardView {
        version: if identity.version == 0 {
            1
        } else {
            identity.version
        },
        ..identity
    }
}

/// A card under the node id `node_id`.
pub open spec fn under_id(card: CardView, node_id: Seq<char>) -> CardView {
    CardView { node_id, ..card }
}

impl Identity {
    /// The card to present to others.
    pub fn to_card(&self) -> (card: Card)
        ensures
            card@ == presented(self@),
    {
        Card {
            version: if self.version < 1 {
                1
            } else {
                self.version
            },
            node_id: self.node_id.clone(),
            display_name: self.display_name.clone(),
            icon: self.icon.clone(),
            avatar: copy_text(&self.avatar),
        }
    }

    /// The identity to store once the node id is known; `None` where the stored one has
    /// it already.
    pub fn with_node_id(&self, node_id: &str) -> (r: Option<Identity>)
        ensures
            r is Some <==> self@.node_id != node_id@,
            r matches Some(updated) ==> updated@ == under_id(self@, node_id@),
    {
        if same_text(self.node_id.as_str(), node_id) {
            None
        } else {
            Some(
                Identity {
                    version: self.version,
                    node_id: node_id.to_owned(),
                    display_name: self.display_name.clone(),
                    icon: self.icon.clone(),
                    avatar: copy_text(&self.avatar),
                },
            )
        }
    }
}

/// Once the node id is stored there is nothing left to update.
pub proof fn node_id_is_stored_once(identity: CardView, node_id: Seq<char>)
    ensures
        under_id(identity, node_id).node_id == node_id,
        under_id(under_id(identity, node_id), node_id) == under_id(identity, node_id),
        identity.node_id == node_id ==> under_id(identity, node_id) == identity,
{
}

// ---- The first name -----------------------------------------------------

/// The name in the file that holds the host's name, if there is one.
pub open spec fn host_name(contents: Option<Seq<char>>) -> Option<Seq<char>> {
    match contents {
        Some(text) => if trimmed(text).len() > 0 {
            Some(trimmed(text))
        } else {
            None
        },
        None => None,
    }
}

/// The host's name, from the contents of the file that holds it.
pub fn hostname(contents: Option<String>) -> (r: Option<String>)
    ensures
        text_in(r) == host_name(text_in(contents)),
{
    match contents {
        Some(text) => {
            let name = text.as_str().trim();
            if name.is_empty() {
                None
            } else {
                Some(name.to_owned())
            }
        },
        None => None,
    }
}

/// The name that a new card starts with: the login name under either of its two
/// variables, else the host's name, else `me`.
pub fn default_display_name(
    user: Option<String>,
    username: Option<String>,
    host_file: Option<String>,
) -> (name: String)
    ensures
        name@ == (match text_in(user) {
            Some(text) => text,
            None => match text_in(username) {
                Some(text) => text,
                None => match host_name(text_in(host_file)) {
                    Some(text) => text,
                    None => "me"@,
                },
            },
        }),
{
    match user {
        Some(text) => text,
        None => match username {
            Some(text) => text,
            None => match hostname(host_file) {
                Some(text) => text,
                None => "me".to_owned(),
            },
        },
    }
}

// ---- What cards come to -------------------------------------------------

/// A card says what it holds, field by field.
pub proof fn a_card_says_what_it_holds(card: Card, text: String)
    ensures
        card@.version == card.version,
        card@.node_id == card.node_id@,
        card@.display_name == card.display_name@,
        card@.icon == card.icon@,
        card.avatar is None <==> card@.avatar is None,
        card.avatar matches Some(avatar) ==> card@.avatar == Some(avatar@),
        text_in(Some(text)) == Some(text@),
        text_in(None) is None,
{
}

/// An identity says what it holds, field by field.
pub proof fn an_identity_says_what_it_holds(identity: Identity)
    ensures
        identity@.version == identity.version,
        identity@.node_id == identity.node_id@,
        identity@.display_name == identity.display_name@,
        identity@.icon == identity.icon@,
        identity.avatar is None <==> identity@.avatar is None,
        identity.avatar matches Some(avatar) ==> identity@.avatar == Some(avatar@),
{
}

/// The user is presented as they are: every field of the identity is on the card, and only
/// a version below 1 becomes 1.
pub proof fn an_identity_is_presented_as_it_is(identity: CardView)
    ensures
        presented(identity).node_id == identity.node_id,
        presented(identity).display_name == identity.display_name,
        presented(identity).icon == identity.icon,
        presented(identity).avatar == identity.avatar,
        presented(identity).version >= 1,
        identity.version >= 1 ==> presented(identity).version == identity.version,
        identity.version < 1 ==> presented(identity).version == 1,
{
}

/// Only the node id of a card is set to that of the node; the rest stays.
pub proof fn only_the_node_id_is_replaced(card: CardView, node_id: Seq<char>)
    ensures
        under_id(card, node_id).node_id == node_id,
        under_id(card, node_id).version == card.version,
        under_id(card, node_id).display_name == card.display_name,
        under_id(card, node_id).icon == card.icon,
        under_id(card, node_id).avatar == card.avatar,
{
}

/// The host's name is what its file holds without the white space around it; a file of
/// white space names none.
pub proof fn the_host_name_is_what_the_file_holds(
    before: Seq<char>,
    name: Seq<char>,
    after: Seq<char>,
)
    requires
        crate::text::all_white_space(before),
        crate::text::all_white_space(after),
        crate::text::is_trimmed(name),
    ensures
        name.len() > 0 ==> host_name(Some(before + name + after)) == Some(name),
        name.len() == 0 ==> host_name(Some(before + name + after)) is None,
        host_name(None) is None,
{
    crate::text::padding_is_trimmed_off(before, name, after);
}

/// A card of up to a mebibyte is read from a peer, and a longer one is not.
pub proof fn cards_up_to_a_mebibyte_are_read(body: Seq<u8>, rest: Seq<u8>)
    requires
        body.len() <= u32::MAX,
    ensures
        body.len() <= 1048576 ==> crate::frame::read(crate::frame::framed(body) + rest, CARD_LIMIT)
            == Ok::<Seq<u8>, crate::frame::FrameError>(body),
        body.len() > 1048576 ==> crate::frame::read(
            crate::frame::framed(body) + rest,
            CARD_LIMIT,
        ) is Err,
{
    if body.len() <= 1048576 {
        crate::frame::reading_gives_back_what_was_written(body, rest, CARD_LIMIT);
    } else {
        crate::frame::long_frames_are_refused(body, rest, CARD_LIMIT);
    }
}

} // verus!
