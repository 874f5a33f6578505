use krill_file_drop::resume::{Leftovers, Reply};
use krill_file_drop::transfer::{
    FileOffered, OfferResponse, Progress, ReceiveTransfer, RecvStatus, RecvStep, SendStatus,
    SendStep, SendTransfer, CHUNK,
};

fn offered(name: &str, size: u64, modified: Option<u64>) -> FileOffered {
    FileOffered {
        offer_id: 4,
        name: name.to_string(),
        size,
        modified,
        peer_id: "peer".to_string(),
    }
}

fn decide(decision: Option<bool>, name: &str) -> Reply {
    let offer = offered(name, 9, None);
    Leftovers::new().answer(decision, &offer, "/d", 5, |_: &str| false, |_: &str| None)
}

fn accept(size: u64) -> ReceiveTransfer {
    let offer = offered("photo.jpg", size, None);
    let mut parts = Leftovers::default();
    let reply = parts.answer(Some(true), &offer, "/d", 5, |_: &str| false, |_: &str| None);
    assert_eq!(reply.response, OfferResponse { accepted: true, offset: 0 });
    reply.transfer.unwrap()
}

#[test]
fn progress_is_reported_every_chunk() {
    let mut p = Progress::start(0);
    assert!(!p.advance(CHUNK - 1));
    assert!(p.advance(1));
    assert_eq!((p.done, p.reported), (65536, 65536));
    assert!(!p.advance(1));
    assert!(p.advance(CHUNK));
    assert_eq!((p.done, p.reported), (131073, 131073));
    assert!(p.advance(3 * CHUNK));
}

#[test]
fn a_declined_file_is_not_sent() {
    let mut t = SendTransfer::new("a", 10, None, "peer");
    assert_eq!(t.offered(), SendStatus::Waiting);
    assert_eq!(t.on_response(OfferResponse { accepted: false, offset: 0 }), SendStatus::Rejected);
    assert_eq!(t.sent(), 0);
}

#[test]
fn an_accepted_file_is_sent_and_reported() {
    let mut t = SendTransfer::new("a", 150000, None, "peer");
    assert_eq!((t.file(), t.announced(), t.peer()), ("a", 150000, "peer"));
    let response = OfferResponse { accepted: true, offset: 0 };
    assert_eq!(t.on_response(response), SendStatus::Sending { sent: 0 });
    assert_eq!(
        t.on_read(65536),
        SendStep::Forward { report: Some(SendStatus::Sending { sent: 65536 }) }
    );
    assert_eq!(t.on_read(18928), SendStep::Forward { report: None });
    assert_eq!(
        t.on_read(65536),
        SendStep::Forward { report: Some(SendStatus::Sending { sent: 150000 }) }
    );
    assert_eq!(t.sent(), 150000);
    assert_eq!(t.on_read(0), SendStep::Finish);
    assert_eq!(t.on_closed(), SendStatus::Done);
}

#[test]
fn phases_have_names() {
    assert_eq!(SendStatus::Waiting.phase(), "waiting");
    assert_eq!(SendStatus::Rejected.phase(), "rejected");
    assert_eq!(SendStatus::Sending { sent: 1 }.phase(), "sending");
    assert_eq!(SendStatus::Done.phase(), "done");
    assert_eq!(RecvStatus::Receiving { got: 1 }.phase(), "receiving");
    assert_eq!(RecvStatus::Done { got: 1 }.phase(), "done");
    assert_eq!(RecvStatus::Partial { got: 1 }.phase(), "partial");
}

#[test]
fn there_is_a_transfer_only_where_the_offer_is_accepted() {
    for decision in [None, Some(false)] {
        let reply = decide(decision, "photo.jpg");
        assert_eq!(reply.response, OfferResponse { accepted: false, offset: 0 });
        assert!(reply.transfer.is_none());
    }
    let reply = decide(Some(true), "photo.jpg");
    assert!(reply.response.accepted);
    assert!(reply.transfer.is_some());
}

#[test]
fn an_accepted_offer_goes_to_a_free_name() {
    let offer = offered("photo.jpg", 9, None);
    let reply = Leftovers::new().answer(
        Some(true),
        &offer,
        "/d",
        5,
        |p: &str| p == "/d/photo.jpg",
        |_: &str| None,
    );
    let t = reply.transfer.unwrap();
    assert_eq!(t.destination(), "/d/photo (2).jpg");
    assert_eq!(t.file(), "photo (2).jpg");
    assert_eq!((t.id(), t.announced(), t.peer()), (4, 9, "peer"));
}

#[test]
fn an_offer_lands_in_the_directory_whatever_it_is_called() {
    let samples = [
        ("/tmp/evil.txt", "evil.txt"),
        ("../../evil.txt", "evil.txt"),
        ("..", "file"),
        ("", "file"),
        ("a/b/", "file"),
        (" photo.jpg ", " photo.jpg "),
        ("a\\b.txt", "a\\b.txt"),
    ];
    for (name, landed) in samples {
        let t = decide(Some(true), name).transfer.unwrap();
        assert_eq!(t.destination(), format!("/d/{landed}"));
        assert_eq!(t.file(), landed);
    }
}

#[test]
fn an_offer_without_a_free_name_is_rejected() {
    let offer = offered("photo.jpg", 9, None);
    let reply =
        Leftovers::new().answer(Some(true), &offer, "/d", 5, |_: &str| true, |_: &str| None);
    assert_eq!(reply.response, OfferResponse { accepted: false, offset: 0 });
    assert!(reply.transfer.is_none());
}

/// Receives `n` bytes of an offered file, then breaks off.
fn break_off(parts: &mut Leftovers, offer: &FileOffered, n: usize) {
    let reply = parts.answer(Some(true), offer, "/d", 5, |_: &str| false, |_: &str| None);
    let mut t = reply.transfer.unwrap();
    t.on_read(n);
    if let Some(part) = t.leftover() {
        assert_eq!(part.got(), n as u64);
        parts.keep(part);
    }
}

#[test]
fn a_broken_transfer_is_taken_up_where_it_left_off() {
    let content: Vec<u8> = (0..100000u32).map(|i| i as u8).collect();
    let offer = offered("big.bin", 100000, Some(77));
    let mut parts = Leftovers::new();
    break_off(&mut parts, &offer, 60000);
    let mut on_disk = content[..60000].to_vec();

    let length = |p: &str| if p == "/d/big.bin" { Some(60000) } else { None };
    let reply = parts.answer(Some(true), &offer, "/d", 9, |_: &str| true, length);
    assert_eq!(reply.response, OfferResponse { accepted: true, offset: 60000 });
    let mut receiver = reply.transfer.unwrap();
    assert_eq!((receiver.destination(), receiver.received()), ("/d/big.bin", 60000));

    let mut sender = SendTransfer::new("big.bin", 100000, Some(77), "me");
    assert_eq!(sender.on_response(reply.response), SendStatus::Sending { sent: 60000 });
    let mut sent = 0;
    while let Some(want) = receiver.want() {
        let from = sender.sent() as usize;
        let chunk = &content[from..from + want.min(30000)];
        sender.on_read(chunk.len());
        sent += chunk.len();
        receiver.on_read(chunk.len());
        on_disk.extend_from_slice(chunk);
    }
    assert_eq!(sent, 40000);
    assert_eq!(on_disk, content);
    assert_eq!(receiver.finish(), RecvStatus::Done { got: 100000 });
    assert!(receiver.leftover().is_none());
}

#[test]
fn only_the_same_file_is_taken_up() {
    let offer = offered("big.bin", 1000, Some(77));
    let others = [
        offered("big.bin", 1000, Some(78)),
        offered("big.bin", 1001, Some(77)),
        offered("small.bin", 1000, Some(77)),
        offered("big.bin", 1000, None),
        FileOffered { peer_id: "someone".to_string(), ..offered("big.bin", 1000, Some(77)) },
    ];
    let mut parts = Leftovers::new();
    break_off(&mut parts, &offer, 600);
    for other in &others {
        let reply =
            parts.answer(Some(true), other, "/d", 9, |_: &str| false, |_: &str| Some(600));
        assert_eq!(reply.response, OfferResponse { accepted: true, offset: 0 });
    }
    let refused = parts.answer(Some(false), &offer, "/d", 9, |_: &str| false, |_: &str| Some(600));
    assert!(!refused.response.accepted);
    let reply = parts.answer(Some(true), &offer, "/d", 9, |_: &str| false, |_: &str| Some(600));
    assert_eq!(reply.response.offset, 600);
    let again = parts.answer(Some(true), &offer, "/d", 9, |_: &str| false, |_: &str| Some(600));
    assert_eq!(again.response.offset, 0);
}

#[test]
fn a_part_that_has_changed_is_not_taken_up() {
    let offer = offered("big.bin", 1000, Some(77));
    for len in [None, Some(599), Some(601), Some(0)] {
        let mut parts = Leftovers::new();
        break_off(&mut parts, &offer, 600);
        let taken = |p: &str| p == "/d/big.bin";
        let reply = parts.answer(Some(true), &offer, "/d", 9, taken, |_: &str| len);
        assert_eq!(reply.response, OfferResponse { accepted: true, offset: 0 });
        assert_eq!(reply.transfer.unwrap().destination(), "/d/big (2).bin");
    }
}

#[test]
fn a_part_in_another_directory_is_not_taken_up() {
    let offer = offered("big.bin", 1000, Some(77));
    let mut parts = Leftovers::new();
    break_off(&mut parts, &offer, 600);
    let reply = parts.answer(Some(true), &offer, "/e", 9, |_: &str| false, |_: &str| Some(600));
    assert_eq!(reply.response.offset, 0);
    assert_eq!(reply.transfer.unwrap().destination(), "/e/big.bin");
}

#[test]
fn the_last_part_of_a_file_counts() {
    let offer = offered("big.bin", 1000, Some(77));
    let mut parts = Leftovers::new();
    break_off(&mut parts, &offer, 300);
    break_off(&mut parts, &offer, 600);
    break_off(&mut parts, &offered("other", 10, Some(1)), 5);
    let reply = parts.answer(Some(true), &offer, "/d", 9, |_: &str| false, |_: &str| Some(600));
    assert_eq!(reply.response.offset, 600);
}

#[test]
fn there_is_nothing_to_take_up_of_a_file_that_has_not_begun_or_cannot_be_told() {
    let mut parts = Leftovers::new();
    let offer = offered("big.bin", 1000, Some(77));
    let reply = parts.answer(Some(true), &offer, "/d", 5, |_: &str| false, |_: &str| None);
    assert!(reply.transfer.unwrap().leftover().is_none());
    let offer = offered("big.bin", 1000, None);
    let reply = parts.answer(Some(true), &offer, "/d", 5, |_: &str| false, |_: &str| None);
    let mut t = reply.transfer.unwrap();
    t.on_read(10);
    assert!(t.leftover().is_none());
}

#[test]
fn a_peer_cannot_have_more_than_there_is() {
    let mut t = SendTransfer::new("a", 10, Some(1), "peer");
    assert_eq!(t.offer().modified, Some(1));
    let response = OfferResponse { accepted: true, offset: 11 };
    assert_eq!(t.on_response(response), SendStatus::Rejected);
    assert_eq!(t.sent(), 0);
    let mut t = SendTransfer::new("a", 10, Some(1), "peer");
    let response = OfferResponse { accepted: true, offset: 10 };
    assert_eq!(t.on_response(response), SendStatus::Sending { sent: 10 });
    assert_eq!(t.on_read(0), SendStep::Finish);
}

#[test]
fn a_whole_file_is_received_and_no_more() {
    let mut t = accept(150000);
    let mut got = 0;
    while let Some(want) = t.want() {
        assert!(want <= CHUNK);
        let n = want.min(40000);
        got += n as u64;
        let expected = match got {
            80000 => Some(RecvStatus::Receiving { got: 80000 }),
            150000 => Some(RecvStatus::Receiving { got: 150000 }),
            _ => None,
        };
        assert_eq!(t.on_read(n), RecvStep::Store { report: expected });
    }
    assert_eq!(got, 150000);
    assert_eq!(t.finish(), RecvStatus::Done { got: 150000 });
}

#[test]
fn a_file_that_breaks_off_is_partial() {
    let mut t = accept(100);
    assert_eq!(t.want(), Some(100));
    assert_eq!(t.on_read(60), RecvStep::Store { report: None });
    assert_eq!(t.want(), Some(40));
    assert_eq!(t.on_read(0), RecvStep::Stop);
    assert_eq!(t.want(), None);
    assert_eq!(t.finish(), RecvStatus::Partial { got: 60 });
}

#[test]
fn an_empty_file_is_done_at_once() {
    let t = accept(0);
    assert_eq!(t.want(), None);
    assert_eq!(t.finish(), RecvStatus::Done { got: 0 });
}
