//! One file on its way: what the two sides do with each chunk, and what they report.

use vstd::prelude::*;
use vstd::string::*;

use crate::names::{
    file_name, file_name_of, is_no_name, joined, named_files_land_in_the_directory, no_place,
    plain_name, plain_name_of, plain_names_name_a_file, settles_on, unique_path,
};
use crate::resume::{FileKey, Leftover, LeftoverView};

verus! {

/// How many bytes are moved at a time, and how many pass at least between two reports
/// of progress.
pub const CHUNK: usize = 65536;

/// The longest offer that is read, in bytes.
pub const OFFER_LIMIT: u32 = 65536;

/// The longest answer to an offer that is read, in bytes.
pub const RESPONSE_LIMIT: u32 = 1024;

// ---- Counting -----------------------------------------------------------

/// How much of a file has been moved, and how much of that has been reported.
#[derive(Debug, Clone, Copy, PartialEq, Eq, Structural)]
pub struct Progress {
    pub done: u64,
    pub reported: u64,
}

/// The progress once `n` more bytes have been moved. It is reported where a chunk or
/// more has passed since the last report.
pub open spec fn advanced(p: Progress, n: nat) -> Progress {
    let done = (p.done + n) as u64;
    Progress {
        done,
        reported: if done - p.reported >= CHUNK {
            done
        } else {
            p.reported
        },
    }
}

/// Whether moving `n` more bytes is reported.
pub open spec fn is_reported(p: Progress, n: nat) -> bool {
    p.done + n - p.reported >= CHUNK
}

impl Progress {
    /// What holds at any time: less than a chunk has gone unreported.
    pub open spec fn wf(self) -> bool {
        self.reported <= self.done < self.reported + CHUNK
    }

    /// The first `offset` bytes were moved and reported before; nothing since.
    pub fn start(offset: u64) -> (p: Progress)
        ensures
            p.wf(),
            p == (Progress { done: offset, reported: offset }),
    {
        Progress { done: offset, reported: offset }
    }

    /// Counts `n` more bytes. Tells whether to report.
    pub fn advance(&mut self, n: usize) -> (report: bool)
        requires
            old(self).wf(),
            old(self).done + n <= u64::MAX,
        ensures
            final(self).wf(),
            *final(self) == advanced(*old(self), n as nat),
            report == is_reported(*old(self), n as nat),
    {
        self.done = self.done + n as u64;
        if self.done - self.reported >= CHUNK as u64 {
            self.reported = self.done;
            true
        } else {
            false
        }
    }
}

/// The sum of the numbers in `ns`.
pub open spec fn total(ns: Seq<nat>) -> nat
    decreases ns.len(),
{
    if ns.len() == 0 {
        0
    } else {
        total(ns.drop_last()) + ns.last()
    }
}

/// The progress after chunks of these sizes, from `offset` on.
pub open spec fn progress_after(offset: u64, ns: Seq<nat>) -> Progress
    decreases ns.len(),
{
    if ns.len() == 0 {
        Progress { done: offset, reported: offset }
    } else {
        advanced(progress_after(offset, ns.drop_last()), ns.last())
    }
}

/// How many of these chunks are reported.
pub open spec fn reports(offset: u64, ns: Seq<nat>) -> nat
    decreases ns.len(),
{
    if ns.len() == 0 {
        0
    } else if is_reported(progress_after(offset, ns.drop_last()), ns.last()) {
        reports(offset, ns.drop_last()) + 1
    } else {
        reports(offset, ns.drop_last())
    }
}

/// Over a whole transfer every byte is counted once, less than a chunk is ever left
/// unreported, and there are no more reports than whole chunks.
pub proof fn every_byte_is_counted_once(offset: u64, ns: Seq<nat>)
    requires
        offset + total(ns) <= u64::MAX,
    ensures
        progress_after(offset, ns).done == offset + total(ns),
        progress_after(offset, ns).wf(),
        reports(offset, ns) * CHUNK <= progress_after(offset, ns).reported - offset,
    decreases ns.len(),
{
    if ns.len() > 0 {
        every_byte_is_counted_once(offset, ns.drop_last());
        let p = progress_after(offset, ns.drop_last());
        if is_reported(p, ns.last()) {
            let n = reports(offset, ns.drop_last());
            assert(reports(offset, ns) * CHUNK == n * CHUNK + CHUNK) by (nonlinear_arith)
                requires
                    reports(offset, ns) == n + 1,
            ;
        }
    }
}

/// What is sent of `content` in chunks of these sizes, each read where the one before it
/// ended, from `offset` on.
pub open spec fn sent_bytes(content: Seq<u8>, offset: int, ns: Seq<nat>) -> Seq<u8>
    decreases ns.len(),
{
    if ns.len() == 0 {
        seq![]
    } else {
        let before = offset + total(ns.drop_last());
        sent_bytes(content, offset, ns.drop_last()) + content.subrange(before, before + ns.last())
    }
}

proof fn lemma_sent_bytes(content: Seq<u8>, offset: int, ns: Seq<nat>)
    requires
        0 <= offset,
        offset + total(ns) <= content.len(),
    ensures
        sent_bytes(content, offset, ns) == content.subrange(offset, offset + total(ns)),
    decreases ns.len(),
{
    if ns.len() > 0 {
        lemma_sent_bytes(content, offset, ns.drop_last());
    }
    assert(sent_bytes(content, offset, ns) =~= content.subrange(offset, offset + total(ns)));
}

/// A transfer that broke off is taken up where it left off: where the receiver holds the
/// first `offset` bytes of the file, only the rest is sent, however it is cut into chunks,
/// and the receiver ends up with all of the file and reports it as done.
pub proof fn a_taken_up_file_is_whole(content: Seq<u8>, offset: u64, ns: Seq<nat>)
    requires
        content.len() <= u64::MAX,
        offset + total(ns) == content.len(),
    ensures
        sent_bytes(content, offset as int, ns) == content.skip(offset as int),
        content.take(offset as int) + sent_bytes(content, offset as int, ns) == content,
        progress_after(offset, ns).done == content.len(),
        ending(progress_after(offset, ns).done, content.len() as u64) is Done,
{
    lemma_sent_bytes(content, offset as int, ns);
    every_byte_is_counted_once(offset, ns);
    assert(content.subrange(offset as int, content.len() as int) =~= content.skip(offset as int));
    assert(content.take(offset as int) + content.skip(offset as int) =~= content);
}

// ---- Offers -------------------------------------------------------------

/// A file that one side would like to send.
#[derive(Debug, PartialEq, Eq)]
pub struct Offer {
    pub name: String,
    pub size: u64,
    /// When the file was last changed, in milliseconds since the Unix epoch. It tells the
    /// file from a later one of the same name and size; a sender that gives it can send the
    /// file from any byte on.
    pub modified: Option<u64>,
}

/// An offer as it is shown to the user.
#[derive(Debug, PartialEq, Eq)]
pub struct FileOffered {
    pub offer_id: u64,
    pub name: String,
    pub size: u64,
    pub modified: Option<u64>,
    pub peer_id: String,
}

/// The answer to an offer.
#[derive(Debug, Clone, Copy, PartialEq, Eq, Structural)]
pub struct OfferResponse {
    pub accepted: bool,
    /// How many bytes of the file the receiver has already.
    pub offset: u64,
}

// ---- Sending ------------------------------------------------------------

/// What the sender tells the user. A status speaks of the transfer that it came from.
#[derive(Debug, Clone, Copy, PartialEq, Eq, Structural)]
pub enum SendStatus {
    Waiting,
    Rejected,
    Sending { sent: u64 },
    Done,
}

/// The name of a phase of sending.
pub open spec fn send_phase(status: SendStatus) -> Seq<char> {
    match status {
        SendStatus::Waiting => "waiting"@,
        SendStatus::Rejected => "rejected"@,
        SendStatus::Sending { .. } => "sending"@,
        SendStatus::Done => "done"@,
    }
}

impl SendStatus {
    /// The name of the phase.
    pub fn phase(&self) -> (r: &'static str)
        ensures
            r@ == send_phase(*self),
    {
        match self {
            SendStatus::Waiting => "waiting",
            SendStatus::Rejected => "rejected",
            SendStatus::Sending { .. } => "sending",
            SendStatus::Done => "done",
        }
    }
}

/// What to do with the bytes that were read from the file.
#[derive(Debug, Clone, Copy, PartialEq, Eq, Structural)]
pub enum SendStep {
    /// The file is at its end: close the stream.
    Finish,
    /// Write the bytes, then give this report if there is one.
    Forward { report: Option<SendStatus> },
}

/// How far a file on its way out has come.
#[derive(Debug, Clone, Copy, PartialEq, Eq, Structural)]
pub enum SendStage {
    /// The offer is out, the peer has not answered.
    Offered,
    /// The peer declined: nothing is sent.
    Declined,
    /// The file is being read and sent.
    Sending,
    /// All of the file was read; the peer may still be taking it.
    Ending,
    /// The peer has closed the stream.
    Finished,
}

/// A file on its way out.
#[derive(Debug)]
pub struct SendTransfer {
    name: String,
    size: u64,
    modified: Option<u64>,
    peer_id: String,
    stage: SendStage,
    progress: Progress,
}

impl SendTransfer {
    pub closed spec fn name(self) -> Seq<char> {
        self.name@
    }

    pub closed spec fn size(self) -> u64 {
        self.size
    }

    pub closed spec fn modified(self) -> Option<u64> {
        self.modified
    }

    pub closed spec fn peer_id(self) -> Seq<char> {
        self.peer_id@
    }

    pub closed spec fn stage(self) -> SendStage {
        self.stage
    }

    pub closed spec fn progress(self) -> Progress {
        self.progress
    }

    /// Less than a chunk has gone unreported, and nothing is sent before the peer
    /// accepts.
    pub open spec fn wf(self) -> bool {
        &&& self.progress().wf()
        &&& (self.stage() == SendStage::Offered || self.stage() == SendStage::Declined)
            ==> self.progress().done == 0
    }

    /// The same file for the same peer.
    pub open spec fn same_file(self, other: SendTransfer) -> bool {
        &&& self.name() == other.name()
        &&& self.size() == other.size()
        &&& self.modified() == other.modified()
        &&& self.peer_id() == other.peer_id()
    }

    /// A file called `name` of `size` bytes for `peer_id`, last changed at `modified`.
    pub fn new(name: &str, size: u64, modified: Option<u64>, peer_id: &str) -> (t: SendTransfer)
        ensures
            t.wf(),
            t.name() == name@,
            t.size() == size,
            t.modified() == modified,
            t.peer_id() == peer_id@,
            t.stage() == SendStage::Offered,
            t.progress() == (Progress { done: 0, reported: 0 }),
    {
        SendTransfer {
            name: name.to_owned(),
            size,
            modified,
            peer_id: peer_id.to_owned(),
            stage: SendStage::Offered,
            progress: Progress::start(0),
        }
    }

    /// The offer to make.
    pub fn offer(&self) -> (offer: Offer)
        ensures
            offer.name@ == self.name(),
            offer.size == self.size(),
            offer.modified == self.modified(),
    {
        Offer { name: self.name.clone(), size: self.size, modified: self.modified }
    }

    /// The name of the file.
    pub fn file(&self) -> (r: &str)
        ensures
            r@ == self.name(),
    {
        self.name.as_str()
    }

    /// The size that was announced.
    pub fn announced(&self) -> (r: u64)
        ensures
            r == self.size(),
    {
        self.size
    }

    /// The node id of the receiver.
    pub fn peer(&self) -> (r: &str)
        ensures
            r@ == self.peer_id(),
    {
        self.peer_id.as_str()
    }

    /// How many bytes have been sent, counting those that the receiver had already: where
    /// to read on in the file.
    pub fn sent(&self) -> (r: u64)
        ensures
            r == self.progress().done,
    {
        self.progress.done
    }

    /// What to report once the offer is out.
    pub fn offered(&self) -> (status: SendStatus)
        requires
            self.stage() == SendStage::Offered,
        ensures
            status == SendStatus::Waiting,
    {
        SendStatus::Waiting
    }

    /// What to report once the peer has answered. Sending begins only where it accepted,
    /// and behind the bytes that it has already. A peer that claims to have more than there
    /// is has not accepted this file.
    pub fn on_response(&mut self, response: OfferResponse) -> (status: SendStatus)
        requires
            old(self).wf(),
            old(self).stage() == SendStage::Offered,
        ensures
            final(self).wf(),
            final(self).same_file(*old(self)),
            response.accepted && response.offset <= old(self).size() ==> {
                &&& final(self).stage() == SendStage::Sending
                &&& final(self).progress() == (Progress {
                    done: response.offset,
                    reported: response.offset,
                })
                &&& status == (SendStatus::Sending { sent: response.offset })
            },
            !(response.accepted && response.offset <= old(self).size()) ==> {
                &&& final(self).stage() == SendStage::Declined
                &&& final(self).progress() == old(self).progress()
                &&& status == SendStatus::Rejected
            },
    {
        if response.accepted && response.offset <= self.size {
            self.stage = SendStage::Sending;
            self.progress = Progress::start(response.offset);
            SendStatus::Sending { sent: response.offset }
        } else {
            self.stage = SendStage::Declined;
            SendStatus::Rejected
        }
    }

    /// What to do with `n` bytes that were read from the file.
    pub fn on_read(&mut self, n: usize) -> (step: SendStep)
        requires
            old(self).wf(),
            old(self).stage() == SendStage::Sending,
            old(self).progress().done + n <= u64::MAX,
        ensures
            final(self).wf(),
            final(self).same_file(*old(self)),
            n == 0 ==> step == SendStep::Finish && final(self).stage() == SendStage::Ending
                && final(self).progress() == old(self).progress(),
            n > 0 ==> final(self).stage() == SendStage::Sending && final(self).progress() == advanced(
                old(self).progress(),
                n as nat,
            ) && step == (SendStep::Forward {
                report: if is_reported(old(self).progress(), n as nat) {
                    Some(SendStatus::Sending { sent: final(self).progress().done })
                } else {
                    None
                },
            }),
    {
        if n == 0 {
            self.stage = SendStage::Ending;
            return SendStep::Finish;
        }
        let mut progress = self.progress;
        let report = progress.advance(n);
        self.progress = progress;
        SendStep::Forward {
            report: if report {
                Some(SendStatus::Sending { sent: progress.done })
            } else {
                None
            },
        }
    }

    /// What to report once the peer has closed the stream.
    pub fn on_closed(&mut self) -> (status: SendStatus)
        requires
            old(self).wf(),
            old(self).stage() == SendStage::Ending,
        ensures
            final(self).wf(),
            final(self).same_file(*old(self)),
            final(self).progress() == old(self).progress(),
            final(self).stage() == SendStage::Finished,
            status == SendStatus::Done,
    {
        self.stage = SendStage::Finished;
        SendStatus::Done
    }
}

// ---- Receiving ----------------------------------------------------------

/// What the receiver tells the user. A status speaks of the transfer that it came from.
#[derive(Debug, Clone, Copy, PartialEq, Eq, Structural)]
pub enum RecvStatus {
    Receiving { got: u64 },
    Done { got: u64 },
    Partial { got: u64 },
}

/// The name of a phase of receiving.
pub open spec fn recv_phase(status: RecvStatus) -> Seq<char> {
    match status {
        RecvStatus::Receiving { .. } => "receiving"@,
        RecvStatus::Done { .. } => "done"@,
        RecvStatus::Partial { .. } => "partial"@,
    }
}

impl RecvStatus {
    /// The name of the phase.
    pub fn phase(&self) -> (r: &'static str)
        ensures
            r@ == recv_phase(*self),
    {
        match self {
            RecvStatus::Receiving { .. } => "receiving",
            RecvStatus::Done { .. } => "done",
            RecvStatus::Partial { .. } => "partial",
        }
    }
}

/// What to do with the bytes that came in.
#[derive(Debug, Clone, Copy, PartialEq, Eq, Structural)]
pub enum RecvStep {
    /// The stream is at its end: nothing more comes.
    Stop,
    /// Write the bytes to the file, then give this report if there is one.
    Store { report: Option<RecvStatus> },
}

/// What is reported at the end of a file of `size` bytes of which `got` came.
pub open spec fn ending(got: u64, size: u64) -> RecvStatus {
    if got == size {
        RecvStatus::Done { got }
    } else {
        RecvStatus::Partial { got }
    }
}

/// A file on its way in.
#[derive(Debug)]
pub struct ReceiveTransfer {
    offer_id: u64,
    offered: String,
    name: String,
    size: u64,
    modified: Option<u64>,
    peer_id: String,
    path: String,
    progress: Progress,
    ended: bool,
}

impl ReceiveTransfer {
    pub closed spec fn offer_id(self) -> u64 {
        self.offer_id
    }

    pub closed spec fn name(self) -> Seq<char> {
        self.name@
    }

    pub closed spec fn size(self) -> u64 {
        self.size
    }

    pub closed spec fn peer_id(self) -> Seq<char> {
        self.peer_id@
    }

    pub closed spec fn path(self) -> Seq<char> {
        self.path@
    }

    pub closed spec fn progress(self) -> Progress {
        self.progress
    }

    /// The name that was offered.
    pub closed spec fn offered(self) -> Seq<char> {
        self.offered@
    }

    pub closed spec fn modified(self) -> Option<u64> {
        self.modified
    }

    /// The stream has come to its end.
    pub closed spec fn ended(self) -> bool {
        self.ended
    }

    /// Less than a chunk has gone unreported, no more came than was announced, and the file
    /// is shown under the last component of its path.
    pub open spec fn wf(self) -> bool {
        &&& self.progress().wf()
        &&& self.progress().done <= self.size()
        &&& file_name(self.path()) == Some(self.name())
    }

    /// Nothing more comes: the stream has ended, or all of the file is there.
    pub open spec fn is_over(self) -> bool {
        self.ended() || self.progress().done == self.size()
    }

    /// The file goes into `dir` itself, under the name that it is shown under.
    pub open spec fn lands_in(self, dir: Seq<char>) -> bool {
        &&& self.path() == joined(dir, self.name())
        &&& !self.name().contains('/')
        &&& !is_no_name(self.name())
    }

    /// It is the file that was offered.
    pub open spec fn is_of(self, offer: FileOffered) -> bool {
        &&& self.offer_id() == offer.offer_id
        &&& self.offered() == offer.name@
        &&& self.size() == offer.size
        &&& self.modified() == offer.modified
        &&& self.peer_id() == offer.peer_id@
    }

    /// The same file from the same peer.
    pub open spec fn same_file(self, other: ReceiveTransfer) -> bool {
        &&& self.offer_id() == other.offer_id()
        &&& self.offered() == other.offered()
        &&& self.name() == other.name()
        &&& self.size() == other.size()
        &&& self.modified() == other.modified()
        &&& self.peer_id() == other.peer_id()
        &&& self.path() == other.path()
    }

    /// How many bytes to ask the stream for next.
    pub open spec fn next(self) -> int {
        if self.size() - self.progress().done < CHUNK {
            self.size() - self.progress().done
        } else {
            CHUNK as int
        }
    }

    /// An accepted offer. Whatever name the peer offers, the file goes into `dir` under a
    /// plain name that is not taken, and is shown under that name; `None` where every name
    /// that it could go under is taken.
    pub(crate) fn begin<F: Fn(&str) -> bool>(
        offer: &FileOffered,
        dir: &str,
        now_millis: u128,
        taken: F,
    ) -> (r: Option<ReceiveTransfer>)
        requires
            forall|p: &str| call_requires(taken, (p,)),
        ensures
            r matches Some(t) ==> {
                &&& t.wf()
                &&& t.is_of(*offer)
                &&& !t.ended()
                &&& t.lands_in(dir@)
                &&& settles_on(dir@, plain_name(offer.name@), now_millis as nat, taken, t.path())
                &&& t.progress() == (Progress { done: 0, reported: 0 })
            },
            r is None ==> no_place(dir@, plain_name(offer.name@), now_millis as nat, taken),
    {
        let plain = plain_name_of(offer.name.as_str());
        let path = match unique_path(dir, plain.as_str(), now_millis, taken) {
            Some(path) => path,
            None => {
                return None;
            },
        };
        proof {
            plain_names_name_a_file(offer.name@);
            named_files_land_in_the_directory(
                dir@,
                plain_name(offer.name@),
                now_millis as nat,
                taken,
                path@,
            );
        }
        let name = match file_name_of(path.as_str()) {
            Some(text) => text,
            None => plain,
        };
        Some(
            ReceiveTransfer {
                offer_id: offer.offer_id,
                offered: offer.name.clone(),
                name,
                size: offer.size,
                modified: offer.modified,
                peer_id: offer.peer_id.clone(),
                path,
                progress: Progress::start(0),
                ended: false,
            },
        )
    }

    /// An accepted offer of a file of which a part came before: it goes on behind that part.
    pub(crate) fn take_up(offer: &FileOffered, part: Leftover) -> (t: ReceiveTransfer)
        requires
            part@.wf(),
            crate::resume::key_of_offer(*offer) == Some(part@.key),
        ensures
            t.wf(),
            t.is_of(*offer),
            !t.ended(),
            t.path() == part@.path,
            t.name() == part@.name,
            t.progress() == (Progress { done: part@.got, reported: part@.got }),
    {
        let got = part.got();
        let (name, path) = part.into_place();
        ReceiveTransfer {
            offer_id: offer.offer_id,
            offered: offer.name.clone(),
            name,
            size: offer.size,
            modified: offer.modified,
            peer_id: offer.peer_id.clone(),
            path,
            progress: Progress::start(got),
            ended: false,
        }
    }

    /// The number of the offer.
    pub fn id(&self) -> (r: u64)
        ensures
            r == self.offer_id(),
    {
        self.offer_id
    }

    /// The name under which the file is shown.
    pub fn file(&self) -> (r: &str)
        ensures
            r@ == self.name(),
    {
        self.name.as_str()
    }

    /// The size that was announced.
    pub fn announced(&self) -> (r: u64)
        ensures
            r == self.size(),
    {
        self.size
    }

    /// The node id of the sender.
    pub fn peer(&self) -> (r: &str)
        ensures
            r@ == self.peer_id(),
    {
        self.peer_id.as_str()
    }

    /// Where the file goes.
    pub fn destination(&self) -> (r: &str)
        ensures
            r@ == self.path(),
    {
        self.path.as_str()
    }

    /// How many bytes of the file have come: where to write on in it.
    pub fn received(&self) -> (r: u64)
        ensures
            r == self.progress().done,
    {
        self.progress.done
    }

    /// How many bytes to ask the stream for next; `None` once nothing more comes.
    pub fn want(&self) -> (r: Option<usize>)
        requires
            self.wf(),
        ensures
            r is None <==> self.is_over(),
            r matches Some(n) ==> n == self.next() && 0 < n <= CHUNK,
    {
        if self.ended || self.progress.done >= self.size {
            return None;
        }
        let left = self.size - self.progress.done;
        if left < CHUNK as u64 {
            Some(left as usize)
        } else {
            Some(CHUNK)
        }
    }

    /// What to do with `n` bytes that came in.
    pub fn on_read(&mut self, n: usize) -> (step: RecvStep)
        requires
            old(self).wf(),
            !old(self).is_over(),
            n <= old(self).next(),
        ensures
            final(self).wf(),
            final(self).same_file(*old(self)),
            final(self).ended() == (n == 0),
            n == 0 ==> step == RecvStep::Stop && final(self).progress() == old(self).progress(),
            n > 0 ==> final(self).progress() == advanced(old(self).progress(), n as nat) && step == (
            RecvStep::Store {
                report: if is_reported(old(self).progress(), n as nat) {
                    Some(RecvStatus::Receiving { got: final(self).progress().done })
                } else {
                    None
                },
            }),
    {
        if n == 0 {
            self.ended = true;
            return RecvStep::Stop;
        }
        let mut progress = self.progress;
        let report = progress.advance(n);
        self.progress = progress;
        RecvStep::Store {
            report: if report {
                Some(RecvStatus::Receiving { got: progress.done })
            } else {
                None
            },
        }
    }

    /// What to report at the end: whether all of the file came.
    pub fn finish(&self) -> (status: RecvStatus)
        requires
            self.is_over(),
        ensures
            status == ending(self.progress().done, self.size()),
    {
        let got = self.progress.done;
        if got == self.size {
            RecvStatus::Done { got }
        } else {
            RecvStatus::Partial { got }
        }
    }

    /// What there is to take up later, where the transfer breaks off now: a part of a file
    /// that can be told from a later one.
    pub fn leftover(&self) -> (r: Option<Leftover>)
        requires
            self.wf(),
        ensures
            r is Some <==> self.modified() is Some && 0 < self.progress().done < self.size(),
            r matches Some(part) ==> part@.wf() && part@ == (LeftoverView {
                key: FileKey {
                    peer_id: self.peer_id(),
                    name: self.offered(),
                    size: self.size(),
                    modified: self.modified()->0,
                },
                name: self.name(),
                path: self.path(),
                got: self.progress().done,
            }),
    {
        let got = self.progress.done;
        match self.modified {
            Some(modified) => {
                if got == 0 || got >= self.size {
                    return None;
                }
                Some(
                    Leftover::new(
                        self.peer_id.as_str(),
                        self.offered.as_str(),
                        self.size,
                        modified,
                        self.name.as_str(),
                        self.path.as_str(),
                        got,
                    ),
                )
            },
            None => None,
        }
    }
}

/// Whatever name a peer offers, a received file lands in `dir` itself, and is shown under
/// the name that it has there.
pub proof fn offers_land_in_the_directory<F: Fn(&str) -> bool>(
    transfer: ReceiveTransfer,
    dir: Seq<char>,
    offered: Seq<char>,
    now_millis: nat,
    taken: F,
)
    requires
        transfer.wf(),
        settles_on(dir, plain_name(offered), now_millis, taken, transfer.path()),
    ensures
        transfer.lands_in(dir),
{
    plain_names_name_a_file(offered);
    named_files_land_in_the_directory(
        dir,
        plain_name(offered),
        now_millis,
        taken,
        transfer.path(),
    );
}

/// However a file comes in, in pieces that are never longer than what is still missing,
/// every byte is counted once and none beyond the announced size, and it is reported as
/// done exactly where all of it came.
pub proof fn all_of_the_file_and_no_more(size: u64, offset: u64, ns: Seq<nat>)
    requires
        offset <= size,
        forall|k: int|
            0 <= k < ns.len() ==> #[trigger] ns[k] <= size - offset - total(ns.take(k)),
    ensures
        progress_after(offset, ns).done == offset + total(ns) <= size,
        progress_after(offset, ns).wf(),
        ending(progress_after(offset, ns).done, size) is Done <==> offset + total(ns) == size,
    decreases ns.len(),
{
    if ns.len() > 0 {
        let shorter = ns.drop_last();
        assert forall|k: int| 0 <= k < shorter.len() implies #[trigger] shorter[k] <= size - offset
            - total(shorter.take(k)) by {
            assert(shorter.take(k) =~= ns.take(k));
            assert(ns[k] <= size - offset - total(ns.take(k)));
        }
        all_of_the_file_and_no_more(size, offset, shorter);
        assert(ns.take(ns.len() - 1) =~= shorter);
        assert(ns[ns.len() - 1] <= size - offset - total(ns.take(ns.len() - 1)));
    }
    every_byte_is_counted_once(offset, ns);
}

// ---- What transfers come to ---------------------------------------------

/// Counting a chunk adds its bytes, and reports exactly where 64 KiB or more have passed
/// since the last report, which then covers all that was moved.
pub proof fn a_report_comes_every_64_kib(p: Progress, n: nat)
    requires
        p.reported <= p.done,
        p.done + n <= u64::MAX,
    ensures
        advanced(p, n).done == p.done + n,
        is_reported(p, n) <==> p.done + n - p.reported >= 65536,
        is_reported(p, n) ==> advanced(p, n).reported == p.done + n,
        !is_reported(p, n) ==> advanced(p, n).reported == p.reported,
{
}

/// A file is done where as much came as was announced, and partial where not; either way the
/// report says how much came.
pub proof fn a_file_is_done_where_all_of_it_came(got: u64, size: u64)
    ensures
        got == size ==> ending(got, size) == (RecvStatus::Done { got }),
        got != size ==> ending(got, size) == (RecvStatus::Partial { got }),
{
}

/// The receiver asks for all that is missing, 64 KiB at a time.
pub proof fn the_receiver_asks_for_what_is_missing(t: ReceiveTransfer)
    requires
        t.wf(),
    ensures
        t.next() <= 65536,
        t.next() <= t.size() - t.progress().done,
        t.next() == 65536 || t.next() == t.size() - t.progress().done,
        t.is_over() <==> t.ended() || t.progress().done == t.size(),
{
}

/// A transfer is of the file that was offered, in every respect, and stays so.
pub proof fn a_transfer_is_of_the_offered_file(
    t: ReceiveTransfer,
    later: ReceiveTransfer,
    offer: FileOffered,
)
    requires
        t.is_of(offer),
        later.same_file(t),
    ensures
        later.offer_id() == offer.offer_id,
        later.offered() == offer.name@,
        later.size() == offer.size,
        later.modified() == offer.modified,
        later.peer_id() == offer.peer_id@,
        later.name() == t.name(),
        later.path() == t.path(),
{
}

/// A file on its way out stays the same, in every respect.
pub proof fn a_sent_file_stays_the_same(t: SendTransfer, later: SendTransfer)
    requires
        later.same_file(t),
    ensures
        later.name() == t.name(),
        later.size() == t.size(),
        later.modified() == t.modified(),
        later.peer_id() == t.peer_id(),
{
}

/// Offers of up to 64 KiB and answers of up to 1 KiB are read, and longer ones are not.
pub proof fn short_offers_and_answers_are_read(body: Seq<u8>, rest: Seq<u8>)
    requires
        body.len() <= u32::MAX,
    ensures
        body.len() <= 65536 <==> crate::frame::read(crate::frame::framed(body) + rest, OFFER_LIMIT)
            == Ok::<Seq<u8>, crate::frame::FrameError>(body),
        body.len() <= 1024 <==> crate::frame::read(
            crate::frame::framed(body) + rest,
            RESPONSE_LIMIT,
        ) == Ok::<Seq<u8>, crate::frame::FrameError>(body),
{
    if body.len() <= 65536 {
        crate::frame::reading_gives_back_what_was_written(body, rest, OFFER_LIMIT);
    } else {
        crate::frame::long_frames_are_refused(body, rest, OFFER_LIMIT);
    }
    if body.len() <= 1024 {
        crate::frame::reading_gives_back_what_was_written(body, rest, RESPONSE_LIMIT);
    } else {
        crate::frame::long_frames_are_refused(body, rest, RESPONSE_LIMIT);
    }
}

/// A file that lands in a directory is there under one plain name, the one that it is shown
/// under.
pub proof fn a_file_lands_under_one_plain_name(t: ReceiveTransfer, dir: Seq<char>)
    requires
        t.lands_in(dir),
    ensures
        t.path() == joined(dir, t.name()),
        !t.name().contains('/'),
        t.name().len() > 0,
        t.name() != seq!['.'],
        t.name() != seq!['.', '.'],
{
}

} // verus!
