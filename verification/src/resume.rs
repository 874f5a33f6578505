//! Files that broke off on their way in, and how an offer is answered where one of them
//! can be taken up.

use vstd::prelude::*;
use vstd::string::*;

use crate::names::{
    a_last_component_names_a_file, file_name, join, joined, no_place, plain_name, settles_on,
};
use crate::text::same_text;
use crate::transfer::{FileOffered, OfferResponse, Progress, ReceiveTransfer};

verus! {

// ---- Parts of files -----------------------------------------------------

/// What tells one offered file from another: who offers it, its name and size, and when it
/// was last changed.
pub struct FileKey {
    pub peer_id: Seq<char>,
    pub name: Seq<char>,
    pub size: u64,
    pub modified: u64,
}

/// The key of an offered file; `None` where the sender does not say when it was last
/// changed.
pub open spec fn key_of_offer(offer: FileOffered) -> Option<FileKey> {
    match offer.modified {
        Some(modified) => Some(
            FileKey { peer_id: offer.peer_id@, name: offer.name@, size: offer.size, modified },
        ),
        None => None,
    }
}

/// A part of a file that came in before the transfer broke off.
#[derive(Debug)]
pub struct Leftover {
    peer_id: String,
    offered: String,
    size: u64,
    modified: u64,
    name: String,
    path: String,
    got: u64,
}

/// What is known of a part of a file.
pub struct LeftoverView {
    pub key: FileKey,
    /// The name under which the file is shown.
    pub name: Seq<char>,
    /// Where the part is.
    pub path: Seq<char>,
    /// How many bytes of the file it holds.
    pub got: u64,
}

impl LeftoverView {
    /// It holds no more than the file has, and is shown under the last component of its
    /// path.
    pub open spec fn wf(self) -> bool {
        &&& self.got <= self.key.size
        &&& file_name(self.path) == Some(self.name)
    }
}

impl View for Leftover {
    type V = LeftoverView;

    closed spec fn view(&self) -> LeftoverView {
        LeftoverView {
            key: FileKey {
                peer_id: self.peer_id@,
                name: self.offered@,
                size: self.size,
                modified: self.modified,
            },
            name: self.name@,
            path: self.path@,
            got: self.got,
        }
    }
}

impl Leftover {
    pub(crate) fn new(
        peer_id: &str,
        offered: &str,
        size: u64,
        modified: u64,
        name: &str,
        path: &str,
        got: u64,
    ) -> (part: Leftover)
        ensures
            part@ == (LeftoverView {
                key: FileKey { peer_id: peer_id@, name: offered@, size, modified },
                name: name@,
                path: path@,
                got,
            }),
    {
        Leftover {
            peer_id: peer_id.to_owned(),
            offered: offered.to_owned(),
            size,
            modified,
            name: name.to_owned(),
            path: path.to_owned(),
            got,
        }
    }

    /// How many bytes of the file are there.
    pub fn got(&self) -> (r: u64)
        ensures
            r == self@.got,
    {
        self.got
    }

    pub(crate) fn into_place(self) -> (r: (String, String))
        ensures
            r.0@ == self@.name,
            r.1@ == self@.path,
    {
        (self.name, self.path)
    }

    fn is_of(&self, offer: &FileOffered) -> (r: bool)
        ensures
            r == (key_of_offer(*offer) == Some(self@.key)),
    {
        match offer.modified {
            Some(modified) => modified == self.modified && offer.size == self.size && same_text(
                offer.peer_id.as_str(),
                self.peer_id.as_str(),
            ) && same_text(offer.name.as_str(), self.offered.as_str()),
            None => false,
        }
    }

    fn same_key(&self, other: &Leftover) -> (r: bool)
        ensures
            r == (self@.key == other@.key),
    {
        other.modified == self.modified && other.size == self.size && same_text(
            other.peer_id.as_str(),
            self.peer_id.as_str(),
        ) && same_text(other.offered.as_str(), self.offered.as_str())
    }
}

// ---- All of them --------------------------------------------------------

/// The parts of files that can be taken up, one for each file.
#[derive(Debug)]
pub struct Leftovers {
    list: Vec<Leftover>,
}

spec fn part_views(list: Seq<Leftover>) -> Seq<LeftoverView> {
    list.map_values(|part: Leftover| part@)
}

spec fn stands_at(list: Seq<LeftoverView>, key: FileKey, i: int) -> bool {
    0 <= i < list.len() && list[i].key == key
}

spec fn by_key(list: Seq<LeftoverView>) -> Map<FileKey, LeftoverView> {
    Map::new(
        |key: FileKey| exists|i: int| stands_at(list, key, i),
        |key: FileKey| list[choose|i: int| stands_at(list, key, i)],
    )
}

spec fn keys_are_distinct(list: Seq<LeftoverView>) -> bool {
    forall|i: int, j: int|
        0 <= i < j < list.len() ==> (#[trigger] list[i]).key != (#[trigger] list[j]).key
}

proof fn lemma_by_key_at(list: Seq<LeftoverView>, i: int)
    requires
        keys_are_distinct(list),
        0 <= i < list.len(),
    ensures
        by_key(list).contains_key(list[i].key),
        by_key(list)[list[i].key] == list[i],
{
    let key = list[i].key;
    assert(stands_at(list, key, i));
    let j = choose|j: int| stands_at(list, key, j);
    if i < j {
        assert(list[i].key != list[j].key);
    } else if j < i {
        assert(list[j].key != list[i].key);
    }
}

proof fn lemma_by_key_push(list: Seq<LeftoverView>, part: LeftoverView)
    requires
        keys_are_distinct(list),
        !by_key(list).contains_key(part.key),
    ensures
        keys_are_distinct(list.push(part)),
        by_key(list.push(part)) == by_key(list).insert(part.key, part),
{
    let longer = list.push(part);
    assert forall|i: int, j: int| 0 <= i < j < longer.len() implies (#[trigger] longer[i]).key != (
    #[trigger] longer[j]).key by {
        if j == list.len() {
            assert(longer[i] == list[i]);
            lemma_by_key_at(list, i);
        } else {
            assert(list[i].key != list[j].key);
        }
    }
    let after = by_key(longer);
    let expected = by_key(list).insert(part.key, part);
    assert forall|key: FileKey| after.contains_key(key) <==> expected.contains_key(key) by {
        if after.contains_key(key) {
            let i = choose|i: int| stands_at(longer, key, i);
            if i < list.len() {
                lemma_by_key_at(list, i);
            }
        }
        if by_key(list).contains_key(key) {
            let i = choose|i: int| stands_at(list, key, i);
            assert(longer[i] == list[i]);
            lemma_by_key_at(longer, i);
        }
        lemma_by_key_at(longer, list.len() as int);
    }
    assert forall|key: FileKey| after.contains_key(key) implies after[key] == expected[key] by {
        let i = choose|i: int| stands_at(longer, key, i);
        lemma_by_key_at(longer, i);
        if i < list.len() {
            lemma_by_key_at(list, i);
        }
    }
    assert(after =~= expected);
}

proof fn lemma_by_key_remove(list: Seq<LeftoverView>, at: int)
    requires
        keys_are_distinct(list),
        0 <= at < list.len(),
    ensures
        keys_are_distinct(list.remove(at)),
        by_key(list.remove(at)) == by_key(list).remove(list[at].key),
{
    let shorter = list.remove(at);
    assert forall|i: int, j: int| 0 <= i < j < shorter.len() implies (#[trigger] shorter[i]).key != (
    #[trigger] shorter[j]).key by {
        let p = if i < at {
            i
        } else {
            i + 1
        };
        let q = if j < at {
            j
        } else {
            j + 1
        };
        assert(shorter[i] == list[p] && shorter[j] == list[q]);
        assert(list[p].key != list[q].key);
    }
    let after = by_key(shorter);
    let expected = by_key(list).remove(list[at].key);
    assert forall|key: FileKey| #[trigger] after.contains_key(key) implies expected.contains_key(key)
        && after[key] == expected[key] by {
        let i = choose|i: int| stands_at(shorter, key, i);
        let p = if i < at {
            i
        } else {
            i + 1
        };
        assert(shorter[i] == list[p]);
        lemma_by_key_at(shorter, i);
        lemma_by_key_at(list, p);
        if p < at {
            assert(list[p].key != list[at].key);
        } else {
            assert(list[at].key != list[p].key);
        }
    }
    assert forall|key: FileKey| #[trigger] expected.contains_key(key) implies after.contains_key(
        key,
    ) by {
        assert(by_key(list).contains_key(key));
        let p = choose|p: int| stands_at(list, key, p);
        assert(stands_at(list, key, p));
        assert(p != at);
        let i = if p < at {
            p
        } else {
            p - 1
        };
        assert(shorter[i] == list[p]);
        lemma_by_key_at(shorter, i);
    }
    assert(after.dom() =~= expected.dom());
    assert(after =~= expected);
}

impl View for Leftovers {
    type V = Map<FileKey, LeftoverView>;

    closed spec fn view(&self) -> Map<FileKey, LeftoverView> {
        by_key(part_views(self.list@))
    }
}

/// The parts without the one of this file.
pub open spec fn without(
    parts: Map<FileKey, LeftoverView>,
    key: Option<FileKey>,
) -> Map<FileKey, LeftoverView> {
    match key {
        Some(key) => parts.remove(key),
        None => parts,
    }
}

/// The part of this file, if there is one.
pub open spec fn part_of(
    parts: Map<FileKey, LeftoverView>,
    key: Option<FileKey>,
) -> Option<LeftoverView> {
    match key {
        Some(key) => if parts.contains_key(key) {
            Some(parts[key])
        } else {
            None
        },
        None => None,
    }
}

// ---- Answers ------------------------------------------------------------

/// The answer to an offer, and what there is to receive.
#[derive(Debug)]
pub struct Reply {
    pub response: OfferResponse,
    pub transfer: Option<ReceiveTransfer>,
}

/// `length`, asked about the file at `path`, may give this answer.
pub open spec fn measures<G: Fn(&str) -> Option<u64>>(
    length: G,
    path: Seq<char>,
    answer: Option<u64>,
) -> bool {
    exists|p: &str| p@ == path && #[trigger] call_ensures(length, (p,), answer)
}

impl Reply {
    /// The offer is taken from its first byte on, under a plain name that is not taken; it
    /// is rejected where there is none.
    pub open spec fn begins_anew<F: Fn(&str) -> bool>(
        self,
        offer: FileOffered,
        dir: Seq<char>,
        now_millis: nat,
        taken: F,
    ) -> bool {
        match self.transfer {
            Some(t) => {
                &&& settles_on(dir, plain_name(offer.name@), now_millis, taken, t.path())
                &&& self.response.offset == 0
            },
            None => no_place(dir, plain_name(offer.name@), now_millis, taken),
        }
    }

    /// The offer is taken up behind the part that is there.
    pub open spec fn takes_up(self, part: LeftoverView) -> bool {
        &&& self.transfer matches Some(t) && t.path() == part.path
        &&& self.response.offset == part.got
    }

    /// What becomes of the offer of a file of which a part was kept: it is taken up where
    /// that part is in `dir` and the file at its place is as long as it was, and begins anew
    /// where it is not.
    pub open spec fn goes_by<F: Fn(&str) -> bool, G: Fn(&str) -> Option<u64>>(
        self,
        part: LeftoverView,
        offer: FileOffered,
        dir: Seq<char>,
        now_millis: nat,
        taken: F,
        length: G,
    ) -> bool {
        ||| {
            &&& self.takes_up(part)
            &&& part.path == joined(dir, part.name)
            &&& measures(length, part.path, Some(part.got))
        }
        ||| {
            &&& self.begins_anew(offer, dir, now_millis, taken)
            &&& part.path != joined(dir, part.name) || exists|len: Option<u64>|
                len != Some(part.got) && #[trigger] measures(length, part.path, len)
        }
    }
}

fn rejected() -> (reply: Reply)
    ensures
        reply.response == (OfferResponse { accepted: false, offset: 0 }),
        reply.transfer is None,
{
    Reply { response: OfferResponse { accepted: false, offset: 0 }, transfer: None }
}

impl Leftovers {
    /// Every part is well formed, and no file has two.
    pub closed spec fn wf(self) -> bool {
        &&& keys_are_distinct(part_views(self.list@))
        &&& forall|i: int| 0 <= i < self.list@.len() ==> (#[trigger] self.list@[i])@.wf()
    }

    /// No parts yet.
    pub fn new() -> (r: Leftovers)
        ensures
            r.wf(),
            r@ == Map::<FileKey, LeftoverView>::empty(),
    {
        let r = Leftovers { list: Vec::new() };
        assert(r@ =~= Map::<FileKey, LeftoverView>::empty());
        r
    }

    fn remove_at(&mut self, at: usize) -> (part: Leftover)
        requires
            old(self).wf(),
            at < old(self).list@.len(),
        ensures
            final(self).wf(),
            part == old(self).list@[at as int],
            old(self)@.contains_key(part@.key),
            old(self)@[part@.key] == part@,
            final(self)@ == old(self)@.remove(part@.key),
    {
        let ghost before = part_views(self.list@);
        proof {
            lemma_by_key_at(before, at as int);
            lemma_by_key_remove(before, at as int);
        }
        let part = self.list.remove(at);
        assert(part_views(self.list@) =~= before.remove(at as int));
        assert forall|i: int| 0 <= i < self.list@.len() implies (#[trigger] self.list@[i])@.wf() by {
            if i < at {
                assert(self.list@[i] == old(self).list@[i]);
            } else {
                assert(self.list@[i] == old(self).list@[i + 1]);
            }
        }
        part
    }

    /// Keeps a part of a file, in place of any other part of it.
    pub fn keep(&mut self, part: Leftover)
        requires
            old(self).wf(),
            part@.wf(),
        ensures
            final(self).wf(),
            final(self)@ == old(self)@.insert(part@.key, part@),
    {
        let mut i: usize = 0;
        while i < self.list.len() && !self.list[i].same_key(&part)
            invariant
                i <= self.list@.len(),
                *self == *old(self),
                forall|j: int| 0 <= j < i ==> (#[trigger] self.list@[j])@.key != part@.key,
            decreases self.list@.len() - i,
        {
            i += 1;
        }
        if i < self.list.len() {
            self.remove_at(i);
        } else {
            assert(!self@.contains_key(part@.key)) by {
                if self@.contains_key(part@.key) {
                    let j = choose|j: int| stands_at(part_views(self.list@), part@.key, j);
                    assert(self.list@[j]@.key == part@.key);
                }
            }
        }
        let ghost rest = part_views(self.list@);
        proof {
            lemma_by_key_push(rest, part@);
        }
        let ghost parts = self.list@;
        self.list.push(part);
        assert(part_views(self.list@) =~= rest.push(part@));
        assert forall|j: int| 0 <= j < self.list@.len() implies (#[trigger] self.list@[j])@.wf() by {
            if j < parts.len() {
                assert(self.list@[j] == parts[j]);
            }
        }
        assert(self@ =~= old(self)@.insert(part@.key, part@));
    }

    fn take(&mut self, offer: &FileOffered) -> (r: Option<Leftover>)
        requires
            old(self).wf(),
        ensures
            final(self).wf(),
            final(self)@ == without(old(self)@, key_of_offer(*offer)),
            r matches Some(part) ==> part@.wf() && part_of(old(self)@, key_of_offer(*offer)) == Some(
                part@,
            ) && key_of_offer(*offer) == Some(part@.key),
            r is None ==> part_of(old(self)@, key_of_offer(*offer)) is None,
    {
        let mut i: usize = 0;
        while i < self.list.len()
            invariant
                i <= self.list@.len(),
                self.wf(),
                *self == *old(self),
                forall|j: int|
                    0 <= j < i ==> key_of_offer(*offer) != Some((#[trigger] self.list@[j])@.key),
            decreases self.list@.len() - i,
        {
            if self.list[i].is_of(offer) {
                return Some(self.remove_at(i));
            }
            i += 1;
        }
        proof {
            if let Some(key) = key_of_offer(*offer) {
                if self@.contains_key(key) {
                    let j = choose|j: int| stands_at(part_views(self.list@), key, j);
                    assert(self.list@[j]@.key == key);
                }
                assert(self@ =~= old(self)@.remove(key));
            }
        }
        None
    }

    /// Answers an offer, given the user's decision; an offer that nobody decided on is
    /// rejected. There is something to receive only where the offer is accepted, and it
    /// goes into `dir` itself. Where a part of the file is there, and still as long as it
    /// was, the file is taken up behind it; otherwise it begins anew.
    pub fn answer<F: Fn(&str) -> bool, G: Fn(&str) -> Option<u64>>(
        &mut self,
        decision: Option<bool>,
        offer: &FileOffered,
        dir: &str,
        now_millis: u128,
        taken: F,
        length: G,
    ) -> (reply: Reply)
        requires
            old(self).wf(),
            forall|p: &str| call_requires(taken, (p,)),
            forall|p: &str| call_requires(length, (p,)),
        ensures
            final(self).wf(),
            reply.response.accepted <==> reply.transfer is Some,
            reply.transfer matches Some(t) ==> {
                &&& decision == Some(true)
                &&& t.wf()
                &&& t.is_of(*offer)
                &&& !t.ended()
                &&& t.lands_in(dir@)
                &&& t.progress() == (Progress {
                    done: reply.response.offset,
                    reported: reply.response.offset,
                })
            },
            reply.transfer is None ==> reply.response.offset == 0,
            decision != Some(true) ==> reply.transfer is None && final(self)@ == old(self)@,
            decision == Some(true) ==> final(self)@ == without(old(self)@, key_of_offer(*offer)),
            decision == Some(true) ==> match part_of(old(self)@, key_of_offer(*offer)) {
                Some(part) => reply.goes_by(
                    part,
                    *offer,
                    dir@,
                    now_millis as nat,
                    taken,
                    length,
                ),
                None => reply.begins_anew(*offer, dir@, now_millis as nat, taken),
            },
    {
        match decision {
            Some(accepted) => {
                if !accepted {
                    return rejected();
                }
            },
            None => {
                return rejected();
            },
        }
        if let Some(part) = self.take(offer) {
            let len = length(part.path.as_str());
            assert(measures(length, part@.path, len));
            let offset = part.got();
            let still_there = match len {
                Some(n) => n == offset,
                None => false,
            };
            let in_place = same_text(part.path.as_str(), join(dir, part.name.as_str()).as_str());
            proof {
                a_last_component_names_a_file(part@.path);
            }
            if still_there && in_place {
                let transfer = ReceiveTransfer::take_up(offer, part);
                return Reply {
                    response: OfferResponse { accepted: true, offset },
                    transfer: Some(transfer),
                };
            }
        }
        match ReceiveTransfer::begin(offer, dir, now_millis, taken) {
            Some(transfer) => Reply {
                response: OfferResponse { accepted: true, offset: 0 },
                transfer: Some(transfer),
            },
            None => rejected(),
        }
    }
}

impl Default for Leftovers {
    /// No parts yet.
    fn default() -> (r: Self)
        ensures
            r.wf(),
            r@ == Map::<FileKey, LeftoverView>::empty(),
    {
        Leftovers::new()
    }
}

/// A transfer that broke off is taken up: where a part of an offered file was kept, and the
/// file at its place in `dir` is still as long, the answer names the bytes that are there, and the
/// rest goes behind them.
pub proof fn a_broken_transfer_is_taken_up<F: Fn(&str) -> bool, G: Fn(&str) -> Option<u64>>(
    reply: Reply,
    part: LeftoverView,
    offer: FileOffered,
    dir: Seq<char>,
    now_millis: nat,
    taken: F,
    length: G,
)
    requires
        reply.goes_by(part, offer, dir, now_millis, taken, length),
        part.path == joined(dir, part.name),
        forall|p: &str, len: Option<u64>|
            p@ == part.path && #[trigger] call_ensures(length, (p,), len) ==> len == Some(part.got),
    ensures
        reply.transfer matches Some(t) && t.path() == part.path,
        reply.response.offset == part.got,
{
}

/// A part that is kept is found again when the same file is offered by the same peer, and
/// whatever else is kept or taken meanwhile; it is taken up once.
pub proof fn a_part_is_found_again(
    parts: Map<FileKey, LeftoverView>,
    part: LeftoverView,
    other: LeftoverView,
)
    requires
        other.key != part.key,
    ensures
        part_of(parts.insert(part.key, part), Some(part.key)) == Some(part),
        part_of(parts.insert(part.key, part).insert(other.key, other), Some(part.key)) == Some(part),
        part_of(without(parts.insert(part.key, part), Some(other.key)), Some(part.key)) == Some(part),
        part_of(without(parts, Some(part.key)), Some(part.key)) is None,
{
}

/// Two offers are of the same file only where the peer, the name, the size and the time of
/// change are all the same; an offer without a time of change is of no file that can be
/// told.
pub proof fn a_file_is_told_by_all_that_is_offered(a: FileOffered, b: FileOffered)
    ensures
        key_of_offer(a) is Some <==> a.modified is Some,
        key_of_offer(a) is Some && key_of_offer(a) == key_of_offer(b) <==> (a.modified is Some
            && a.peer_id@ == b.peer_id@ && a.name@ == b.name@ && a.size == b.size && a.modified
            == b.modified),
{
}

/// A file of which no usable part is there begins at its first byte, under a name that is
/// free, and is turned away only where there is none.
pub proof fn a_file_without_a_usable_part_begins_anew<
    F: Fn(&str) -> bool,
    G: Fn(&str) -> Option<u64>,
>(
    reply: Reply,
    part: LeftoverView,
    offer: FileOffered,
    dir: Seq<char>,
    now_millis: nat,
    taken: F,
    length: G,
)
    requires
        reply.goes_by(part, offer, dir, now_millis, taken, length),
        part.path != joined(dir, part.name) || forall|p: &str, len: Option<u64>|
            p@ == part.path && #[trigger] call_ensures(length, (p,), len) ==> len != Some(part.got),
    ensures
        reply.transfer matches Some(t) ==> reply.response.offset == 0 && settles_on(
            dir,
            plain_name(offer.name@),
            now_millis,
            taken,
            t.path(),
        ),
        reply.transfer is None ==> no_place(dir, plain_name(offer.name@), now_millis, taken),
{
}

/// A file of which no part was kept begins at its first byte, under a name that is free, and
/// is turned away only where there is none.
pub proof fn a_new_file_begins_at_its_first_byte<F: Fn(&str) -> bool>(
    reply: Reply,
    offer: FileOffered,
    dir: Seq<char>,
    now_millis: nat,
    taken: F,
)
    requires
        reply.begins_anew(offer, dir, now_millis, taken),
    ensures
        reply.transfer matches Some(t) ==> reply.response.offset == 0 && settles_on(
            dir,
            plain_name(offer.name@),
            now_millis,
            taken,
            t.path(),
        ),
        reply.transfer is None ==> no_place(dir, plain_name(offer.name@), now_millis, taken),
{
}

/// The part of a file is looked up under its key alone, and taking it leaves all others.
pub proof fn parts_are_kept_by_file(parts: Map<FileKey, LeftoverView>, key: FileKey, other: FileKey)
    ensures
        part_of(parts, None) is None,
        without(parts, None) == parts,
        parts.contains_key(key) ==> part_of(parts, Some(key)) == Some(parts[key]),
        !parts.contains_key(key) ==> part_of(parts, Some(key)) is None,
        !without(parts, Some(key)).contains_key(key),
        other != key ==> part_of(without(parts, Some(key)), Some(other)) == part_of(
            parts,
            Some(other),
        ),
{
}

} // verus!
