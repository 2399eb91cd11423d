use chat_relay::registry::{Delivery, Event, Registry};

fn bytes(s: &str) -> Vec<u8> {
    s.as_bytes().to_vec()
}

fn deliveries_to(out: &[Delivery], target: u64) -> Vec<Vec<u8>> {
    out.iter().filter(|d| d.target == target).map(|d| d.text.clone()).collect()
}

fn join(r: &mut Registry, id: u64, addr: &str) {
    let out = r.handle_event(Event::Join(id, bytes(addr)));
    assert!(out.deliveries.is_empty());
    assert!(out.stats.is_none());
}

#[test]
fn broadcast_reaches_every_other_client_exactly_once() {
    let mut r = Registry::new();
    join(&mut r, 1, "c1");
    join(&mut r, 2, "c2");
    join(&mut r, 3, "c3");
    let out = r.handle_event(Event::Broadcast(1, bytes("hello\n")));
    assert_eq!(out.deliveries.len(), 2);
    assert_eq!(deliveries_to(&out.deliveries, 1).len(), 0);
    assert_eq!(deliveries_to(&out.deliveries, 2), vec![bytes("c1: hello\n")]);
    assert_eq!(deliveries_to(&out.deliveries, 3), vec![bytes("c1: hello\n")]);
}

#[test]
fn broadcast_before_join_never_reaches_the_late_client() {
    let mut r = Registry::new();
    join(&mut r, 1, "c1");
    join(&mut r, 2, "c2");
    let out = r.handle_event(Event::Broadcast(1, bytes("early\n")));
    assert_eq!(deliveries_to(&out.deliveries, 3).len(), 0);
    join(&mut r, 3, "c3");
    let out = r.handle_event(Event::Broadcast(1, bytes("late\n")));
    assert_eq!(deliveries_to(&out.deliveries, 3), vec![bytes("c1: late\n")]);
}

#[test]
fn nickname_replaces_the_fallback_name() {
    let mut r = Registry::new();
    join(&mut r, 1, "127.0.0.1:4000");
    join(&mut r, 2, "127.0.0.1:4001");
    let out = r.handle_event(Event::Broadcast(1, bytes("hi\n")));
    assert_eq!(deliveries_to(&out.deliveries, 2), vec![bytes("127.0.0.1:4000: hi\n")]);
    let out = r.handle_event(
        Event::Command(1, vec![bytes("/setnickname"), bytes("bob")]),
    );
    assert_eq!(out.deliveries.len(), 1);
    assert_eq!(out.deliveries[0].target, 1);
    assert_eq!(out.deliveries[0].text, bytes("ok\n"));
    let out = r.handle_event(Event::Broadcast(1, bytes("hi\n")));
    assert_eq!(deliveries_to(&out.deliveries, 2), vec![bytes("bob: hi\n")]);
}

#[test]
fn setnickname_with_wrong_arity_is_rejected_and_changes_nothing() {
    let mut r = Registry::new();
    join(&mut r, 1, "c1");
    join(&mut r, 2, "c2");
    let out = r.handle_event(Event::Command(1, vec![bytes("/setnickname")]));
    assert_eq!(out.deliveries.len(), 1);
    assert_eq!(out.deliveries[0].target, 1);
    assert_eq!(out.deliveries[0].text, bytes("invalid args or no match pattern\n"));
    let out = r.handle_event(
        Event::Command(1, vec![bytes("/setnickname"), bytes("a"), bytes("b")]),
    );
    assert_eq!(out.deliveries.len(), 1);
    assert_eq!(out.deliveries[0].text, bytes("invalid args or no match pattern\n"));
    let out = r.handle_event(Event::Broadcast(1, bytes("hi\n")));
    assert_eq!(deliveries_to(&out.deliveries, 2), vec![bytes("c1: hi\n")]);
}

#[test]
fn unknown_command_is_rejected_and_broadcast_to_nobody() {
    let mut r = Registry::new();
    join(&mut r, 1, "c1");
    join(&mut r, 2, "c2");
    let out = r.handle_event(Event::Command(1, vec![bytes("/foo"), bytes("bar")]));
    assert_eq!(out.deliveries.len(), 1);
    assert_eq!(out.deliveries[0].target, 1);
    assert_eq!(out.deliveries[0].text, bytes("invalid args or no match pattern\n"));
}

#[test]
fn command_from_unregistered_client_is_dropped() {
    let mut r = Registry::new();
    join(&mut r, 1, "c1");
    let out = r.handle_event(Event::Command(9, vec![bytes("/setnickname"), bytes("x")]));
    assert!(out.deliveries.is_empty());
}

#[test]
fn broadcast_from_unregistered_sender_delivers_nothing() {
    let mut r = Registry::new();
    join(&mut r, 1, "c1");
    let out = r.handle_event(Event::Broadcast(9, bytes("ghost\n")));
    assert!(out.deliveries.is_empty());
}

#[test]
fn leave_is_idempotent() {
    let mut r = Registry::new();
    join(&mut r, 1, "c1");
    join(&mut r, 2, "c2");
    let out = r.handle_event(Event::Leave(2));
    assert!(out.deliveries.is_empty());
    let out = r.handle_event(Event::Leave(2));
    assert!(out.deliveries.is_empty());
    let out = r.handle_event(Event::Broadcast(1, bytes("still here\n")));
    assert!(out.deliveries.is_empty());
}

#[test]
fn broadcast_payload_survives_byte_identical() {
    let mut r = Registry::new();
    join(&mut r, 1, "c1");
    join(&mut r, 2, "c2");
    let payload = b"weird \xc3\xa9 bytes\r\n\ttail".to_vec();
    let out = r.handle_event(Event::Broadcast(1, payload.clone()));
    let got = &deliveries_to(&out.deliveries, 2)[0];
    let prefix = bytes("c1: ");
    assert_eq!(&got[..prefix.len()], &prefix[..]);
    assert_eq!(&got[prefix.len()..], &payload[..]);
}

#[test]
fn disconnect_mid_fanout_does_not_starve_the_rest() {
    let mut r = Registry::new();
    join(&mut r, 1, "c1");
    join(&mut r, 2, "c2");
    join(&mut r, 3, "c3");
    let out = r.handle_event(Event::Broadcast(1, bytes("fan\n")));
    // The queue of client 2 turns out to be closed: its delivery is dropped
    // and a leave is scheduled; the delivery for client 3 is unaffected.
    let mut undeliverable = Vec::new();
    for d in &out.deliveries {
        if d.target == 2 {
            undeliverable.push(d.target);
        }
    }
    for failed in undeliverable {
        let out = r.handle_event(Event::Leave(failed));
        assert!(out.deliveries.is_empty());
    }
    assert_eq!(deliveries_to(&out.deliveries, 3), vec![bytes("c1: fan\n")]);
    let out = r.handle_event(Event::Broadcast(1, bytes("again\n")));
    assert_eq!(out.deliveries.len(), 1);
    assert_eq!(deliveries_to(&out.deliveries, 3), vec![bytes("c1: again\n")]);
}

#[test]
fn rejoin_overwrites_the_stale_entry() {
    let mut r = Registry::new();
    join(&mut r, 1, "c1");
    join(&mut r, 2, "c2");
    let out = r.handle_event(Event::Command(1, vec![bytes("/setnickname"), bytes("bob")]));
    assert_eq!(out.deliveries[0].text, bytes("ok\n"));
    join(&mut r, 1, "c1");
    let out = r.handle_event(Event::Broadcast(1, bytes("hi\n")));
    assert_eq!(deliveries_to(&out.deliveries, 2), vec![bytes("c1: hi\n")]);
    let stats = r.handle_event(Event::StatsRequest).stats.unwrap();
    assert_eq!(stats.len(), 2);
}

#[test]
fn stats_lists_the_registered_ids() {
    let mut r = Registry::new();
    join(&mut r, 5, "c5");
    join(&mut r, 7, "c7");
    let out = r.handle_event(Event::StatsRequest);
    assert!(out.deliveries.is_empty());
    let mut ids = out.stats.unwrap();
    ids.sort();
    assert_eq!(ids, vec![5, 7]);
    let out = r.handle_event(Event::Leave(5));
    assert!(out.stats.is_none());
    let ids = r.handle_event(Event::StatsRequest).stats.unwrap();
    assert_eq!(ids, vec![7]);
}
