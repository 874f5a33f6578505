//! The list of files that have arrived.

use vstd::prelude::*;
use vstd::string::*;

use crate::card::text_in;

verus! {

/// A time as milliseconds since the Unix epoch in 64 bits; zero for a time before it.
pub open spec fn millis(since_epoch: Option<u128>) -> u64 {
    match since_epoch {
        Some(m) => (m as int % 0x1_0000_0000_0000_0000) as u64,
        None => 0,
    }
}

/// A time as milliseconds since the Unix epoch in 64 bits.
pub fn unix_millis(since_epoch: Option<u128>) -> (r: u64)
    ensures
        r == millis(since_epoch),
{
    match since_epoch {
        Some(m) => (m % 0x1_0000_0000_0000_0000) as u64,
        None => 0,
    }
}

/// What is known of an entry of the download directory.
#[derive(Debug, PartialEq, Eq)]
pub struct FoundMeta {
    pub is_file: bool,
    pub size: u64,
    /// Milliseconds since the Unix epoch, where the time is known and not before it.
    pub modified: Option<u128>,
}

/// An entry of the download directory.
#[derive(Debug, PartialEq, Eq)]
pub struct FoundEntry {
    pub path: String,
    pub name: Option<String>,
    /// `None` where it cannot be read.
    pub meta: Option<FoundMeta>,
}

/// A file that has arrived.
#[derive(Debug, PartialEq, Eq)]
pub struct ReceivedFile {
    pub name: String,
    pub size: u64,
    /// Milliseconds since the Unix epoch.
    pub modified: u64,
    pub path: String,
}

/// What is shown of a file that has arrived.
pub struct ReceivedView {
    pub name: Seq<char>,
    pub size: u64,
    pub modified: u64,
    pub path: Seq<char>,
}

impl View for ReceivedFile {
    type V = ReceivedView;

    open spec fn view(&self) -> ReceivedView {
        ReceivedView {
            name: self.name@,
            size: self.size,
            modified: self.modified,
            path: self.path@,
        }
    }
}

/// The file that an entry is, if it is one.
pub open spec fn received(entry: FoundEntry) -> Option<ReceivedView> {
    match entry.meta {
        Some(meta) => if meta.is_file {
            match text_in(entry.name) {
                Some(name) => Some(
                    ReceivedView {
                        name,
                        size: meta.size,
                        modified: millis(meta.modified),
                        path: entry.path@,
                    },
                ),
                None => None,
            }
        } else {
            None
        },
        None => None,
    }
}

/// The files among the entries, in the order of the entries.
pub open spec fn files(entries: Seq<FoundEntry>) -> Seq<ReceivedView>
    decreases entries.len(),
{
    if entries.len() == 0 {
        seq![]
    } else {
        match received(entries.last()) {
            Some(file) => files(entries.drop_last()).push(file),
            None => files(entries.drop_last()),
        }
    }
}

/// Where a file of the time `modified` goes in a list with the newest first: behind all
/// that are as new.
pub open spec fn slot(list: Seq<ReceivedView>, modified: u64) -> int
    decreases list.len(),
{
    if list.len() == 0 {
        0
    } else if list.last().modified < modified {
        slot(list.drop_last(), modified)
    } else {
        list.len() as int
    }
}

/// The files with the newest first; those of the same time stay in order.
pub open spec fn newest_first(list: Seq<ReceivedView>) -> Seq<ReceivedView>
    decreases list.len(),
{
    if list.len() == 0 {
        seq![]
    } else {
        let sorted = newest_first(list.drop_last());
        sorted.insert(slot(sorted, list.last().modified), list.last())
    }
}

/// The views of a list of files.
pub open spec fn file_views(list: Seq<ReceivedFile>) -> Seq<ReceivedView> {
    list.map_values(|f: ReceivedFile| f@)
}

fn received_file(entry: &FoundEntry) -> (r: Option<ReceivedFile>)
    ensures
        r matches Some(file) ==> received(*entry) == Some(file@),
        r is None ==> received(*entry) is None,
{
    match &entry.meta {
        Some(meta) => {
            if !meta.is_file {
                return None;
            }
            match &entry.name {
                Some(name) => Some(
                    ReceivedFile {
                        name: name.clone(),
                        size: meta.size,
                        modified: unix_millis(meta.modified),
                        path: entry.path.clone(),
                    },
                ),
                None => None,
            }
        },
        None => None,
    }
}

fn insert_sorted(list: &mut Vec<ReceivedFile>, file: ReceivedFile)
    ensures
        file_views(final(list)@) == file_views(old(list)@).insert(
            slot(file_views(old(list)@), file@.modified),
            file@,
        ),
{
    let ghost before = file_views(list@);
    let mut i: usize = list.len();
    assert(before.take(i as int) =~= before);
    while i > 0 && list[i - 1].modified < file.modified
        invariant
            i <= list@.len(),
            before == file_views(list@),
            list@ == old(list)@,
            slot(before, file@.modified) == slot(before.take(i as int), file@.modified),
        decreases i,
    {
        assert(before.take(i as int).drop_last() =~= before.take(i - 1));
        assert(before.take(i as int).last() == list@[i - 1]@);
        i -= 1;
    }
    assert(i > 0 ==> before.take(i as int).last() == list@[i - 1]@);
    list.insert(i, file);
    assert(file_views(list@) =~= before.insert(i as int, file@));
}

/// The files among the entries of the download directory, the newest first.
pub fn list_received_files(entries: &Vec<FoundEntry>) -> (r: Vec<ReceivedFile>)
    ensures
        file_views(r@) == newest_first(files(entries@)),
{
    let mut out: Vec<ReceivedFile> = Vec::new();
    let mut i: usize = 0;
    assert(file_views(out@) =~= seq![]);
    while i < entries.len()
        invariant
            i <= entries@.len(),
            file_views(out@) == newest_first(files(entries@.take(i as int))),
        decreases entries@.len() - i,
    {
        assert(entries@.take(i + 1).drop_last() =~= entries@.take(i as int));
        let ghost known = files(entries@.take(i as int));
        match received_file(&entries[i]) {
            Some(file) => {
                assert(known.push(file@).drop_last() =~= known);
                insert_sorted(&mut out, file);
            },
            None => {},
        }
        i += 1;
    }
    assert(entries@.take(i as int) =~= entries@);
    out
}

proof fn lemma_slot(list: Seq<ReceivedView>, modified: u64)
    requires
        forall|i: int, j: int|
            0 <= i < j < list.len() ==> (#[trigger] list[i]).modified >= (#[trigger] list[j]).modified,
    ensures
        0 <= slot(list, modified) <= list.len(),
        forall|i: int| 0 <= i < slot(list, modified) ==> (#[trigger] list[i]).modified >= modified,
        forall|i: int| slot(list, modified) <= i < list.len() ==> (#[trigger] list[i]).modified < modified,
    decreases list.len(),
{
    if list.len() > 0 && list.last().modified < modified {
        let shorter = list.drop_last();
        lemma_slot(shorter, modified);
        assert forall|i: int| 0 <= i < slot(list, modified) implies (#[trigger] list[i]).modified
            >= modified by {
            assert(shorter[i] == list[i]);
        }
        assert forall|i: int| slot(list, modified) <= i < list.len() implies (
        #[trigger] list[i]).modified < modified by {
            if i < shorter.len() {
                assert(shorter[i] == list[i]);
            }
        }
    }
}

/// The list is sorted: no file is newer than one before it.
pub proof fn newest_first_is_sorted(list: Seq<ReceivedView>)
    ensures
        forall|i: int, j: int|
            0 <= i < j < newest_first(list).len() ==> (#[trigger] newest_first(list)[i]).modified >= (
            #[trigger] newest_first(list)[j]).modified,
    decreases list.len(),
{
    if list.len() > 0 {
        let sorted = newest_first(list.drop_last());
        newest_first_is_sorted(list.drop_last());
        lemma_slot(sorted, list.last().modified);
        let k = slot(sorted, list.last().modified);
        let all = sorted.insert(k, list.last());
        assert forall|i: int, j: int| 0 <= i < j < all.len() implies (#[trigger] all[i]).modified >= (
        #[trigger] all[j]).modified by {
            let si = if i < k {
                i
            } else {
                i - 1
            };
            let sj = if j < k {
                j
            } else {
                j - 1
            };
            if i == k {
                assert(all[j] == sorted[sj]);
            } else if j == k {
                assert(all[i] == sorted[si]);
            } else {
                assert(all[i] == sorted[si] && all[j] == sorted[sj]);
            }
        }
    }
}

/// Sorting shows every file once: none is lost and none is made up.
pub proof fn newest_first_keeps_every_file(list: Seq<ReceivedView>)
    ensures
        newest_first(list).to_multiset() == list.to_multiset(),
        newest_first(list).len() == list.len(),
    decreases list.len(),
{
    broadcast use vstd::seq_lib::group_to_multiset_ensures;

    if list.len() > 0 {
        let sorted = newest_first(list.drop_last());
        newest_first_keeps_every_file(list.drop_last());
        newest_first_is_sorted(list.drop_last());
        lemma_slot(sorted, list.last().modified);
        let k = slot(sorted, list.last().modified);
        vstd::seq_lib::to_multiset_insert(sorted, k, list.last());
        assert(list.drop_last().push(list.last()) =~= list);
    }
}

/// The files of the time `t`, in order.
pub open spec fn of_time(list: Seq<ReceivedView>, t: u64) -> Seq<ReceivedView>
    decreases list.len(),
{
    if list.len() == 0 {
        seq![]
    } else if list.last().modified == t {
        of_time(list.drop_last(), t).push(list.last())
    } else {
        of_time(list.drop_last(), t)
    }
}

proof fn lemma_of_time_sum(a: Seq<ReceivedView>, b: Seq<ReceivedView>, t: u64)
    ensures
        of_time(a + b, t) == of_time(a, t) + of_time(b, t),
    decreases b.len(),
{
    if b.len() == 0 {
        assert(a + b =~= a);
        assert(of_time(a, t) + of_time(b, t) =~= of_time(a, t));
    } else {
        lemma_of_time_sum(a, b.drop_last(), t);
        assert((a + b).drop_last() =~= a + b.drop_last());
        assert((a + b).last() == b.last());
        assert(of_time(a + b, t) =~= of_time(a, t) + of_time(b, t));
    }
}

proof fn lemma_of_time_none(list: Seq<ReceivedView>, t: u64)
    requires
        forall|i: int| 0 <= i < list.len() ==> (#[trigger] list[i]).modified != t,
    ensures
        of_time(list, t) == Seq::<ReceivedView>::empty(),
    decreases list.len(),
{
    if list.len() > 0 {
        assert(list.last() == list[list.len() - 1]);
        assert forall|i: int| 0 <= i < list.len() - 1 implies (
        #[trigger] list.drop_last()[i]).modified != t by {
            assert(list.drop_last()[i] == list[i]);
        }
        lemma_of_time_none(list.drop_last(), t);
    }
}

/// Files of the same time stay in the order in which they were found.
pub proof fn newest_first_is_stable(list: Seq<ReceivedView>, t: u64)
    ensures
        of_time(newest_first(list), t) == of_time(list, t),
    decreases list.len(),
{
    if list.len() > 0 {
        let x = list.last();
        let sorted = newest_first(list.drop_last());
        newest_first_is_stable(list.drop_last(), t);
        newest_first_is_sorted(list.drop_last());
        lemma_slot(sorted, x.modified);
        let k = slot(sorted, x.modified);
        let front = sorted.take(k);
        let back = sorted.skip(k);
        assert(sorted =~= front + back);
        assert(sorted.insert(k, x) =~= front.push(x) + back);
        lemma_of_time_sum(front, back, t);
        lemma_of_time_sum(front.push(x), back, t);
        assert(front.push(x).drop_last() =~= front);
        if x.modified == t {
            assert forall|i: int| 0 <= i < back.len() implies (#[trigger] back[i]).modified != t by {
                assert(back[i] == sorted[k + i]);
            }
            lemma_of_time_none(back, t);
            assert(of_time(newest_first(list), t) =~= of_time(list, t));
        }
    }
}

// ---- What entries come to -----------------------------------------------

/// A time is its milliseconds as far as 64 bits hold them, and beyond that what is left of
/// them; an unknown time is zero.
pub proof fn times_are_milliseconds(m: u128)
    ensures
        m <= u64::MAX ==> millis(Some(m)) == m,
        (m - millis(Some(m))) % 0x1_0000_0000_0000_0000 == 0,
        millis(None) == 0,
{
}

/// A file says what it holds, field by field.
pub proof fn a_received_file_says_what_it_holds(file: ReceivedFile, list: Seq<ReceivedFile>)
    ensures
        file@.name == file.name@,
        file@.size == file.size,
        file@.modified == file.modified,
        file@.path == file.path@,
        file_views(list).len() == list.len(),
        forall|i: int| 0 <= i < list.len() ==> file_views(list)[i] == (#[trigger] list[i])@,
{
}

/// Every plain file with a name that can be read is shown, whatever it is called and however
/// long it is, with its name, size, time and path; nothing else is.
pub proof fn every_plain_file_is_shown(entries: Seq<FoundEntry>, entry: FoundEntry)
    ensures
        files(Seq::empty()).len() == 0,
        (entry.meta matches Some(meta) && meta.is_file && entry.name is Some) ==> {
            let shown = files(entries.push(entry));
            &&& shown.len() == files(entries).len() + 1
            &&& shown.drop_last() == files(entries)
            &&& shown.last().name == entry.name->0@
            &&& shown.last().size == entry.meta->0.size
            &&& shown.last().modified == millis(entry.meta->0.modified)
            &&& shown.last().path == entry.path@
        },
        !(entry.meta matches Some(meta) && meta.is_file && entry.name is Some) ==> files(
            entries.push(entry),
        ) == files(entries),
{
    assert(entries.push(entry).drop_last() =~= entries);
    if entry.meta matches Some(meta) && meta.is_file && entry.name is Some {
        let shown = files(entries.push(entry));
        assert(shown.drop_last() =~= files(entries));
    }
}

} // verus!
