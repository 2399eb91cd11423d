use vstd::prelude::*;
use crate::registry::{
    broadcast_out, display_name, fanout, find_entry, has_id, line_for, remove_id, set_nick_step,
    unique_ids, DeliveryModel, EntryModel,
};

verus! {

// ---------------------------------------------------------------------------
// Delivery laws
//
// These proofs state, over the registry's model, what the coordinator
// guarantees across events: who a broadcast reaches, what it carries, and
// that teardown is idempotent.
// ---------------------------------------------------------------------------

/// How many texts of a delivery list are aimed at one target.
pub open spec fn count_for(ds: Seq<DeliveryModel>, target: u64) -> nat
    decreases ds.len(),
{
    if ds.len() == 0 {
        0
    } else {
        (if ds[0].target == target {
            1nat
        } else {
            0nat
        }) + count_for(ds.drop_first(), target)
    }
}

/// A fanned-out line is aimed exactly once at every registered client other
/// than the sender, and never at the sender.
proof fn lemma_fanout_count(s: Seq<EntryModel>, sender: u64, line: Seq<u8>, target: u64)
    requires
        unique_ids(s),
    ensures
        count_for(fanout(s, sender, line), target) == (if has_id(s, target) && target != sender {
            1nat
        } else {
            0nat
        }),
    decreases s.len(),
{
    if s.len() == 0 {
    } else {
        lemma_fanout_count(s.drop_first(), sender, line, target);
        if s[0].id == sender {
        } else {
            let d = DeliveryModel { target: s[0].id, text: line };
            assert((seq![d] + fanout(s.drop_first(), sender, line))[0] == d);
            assert((seq![d] + fanout(s.drop_first(), sender, line)).drop_first() =~= fanout(
                s.drop_first(),
                sender,
                line,
            ));
        }
    }
}

/// Every client registered when a broadcast is processed, other than the
/// sender, receives the formatted line exactly once; the sender receives
/// nothing.
pub proof fn lemma_broadcast_exactly_once(
    s: Seq<EntryModel>,
    sender: u64,
    text: Seq<u8>,
    target: u64,
)
    requires
        unique_ids(s),
        has_id(s, sender),
    ensures
        count_for(broadcast_out(s, sender, text), target) == (if has_id(s, target) && target
            != sender {
            1nat
        } else {
            0nat
        }),
{
    lemma_fanout_count(
        s,
        sender,
        line_for(display_name(find_entry(s, sender)->Some_0), text),
        target,
    );
}

/// A client whose join the coordinator has not yet processed receives
/// nothing from a broadcast, whoever sends it.
pub proof fn lemma_unjoined_receives_nothing(
    s: Seq<EntryModel>,
    sender: u64,
    text: Seq<u8>,
    target: u64,
)
    requires
        unique_ids(s),
        !has_id(s, target),
    ensures
        count_for(broadcast_out(s, sender, text), target) == 0,
{
    if find_entry(s, sender) is Some {
        lemma_fanout_count(
            s,
            sender,
            line_for(display_name(find_entry(s, sender)->Some_0), text),
            target,
        );
    }
}

/// Every delivery of a fanned-out line carries the line verbatim and is
/// aimed away from the sender.
pub proof fn lemma_fanout_line(s: Seq<EntryModel>, sender: u64, line: Seq<u8>)
    ensures
        forall|k: int|
            0 <= k < fanout(s, sender, line).len() ==> (#[trigger] fanout(s, sender, line)[k]).text
                == line && fanout(s, sender, line)[k].target != sender,
    decreases s.len(),
{
    if s.len() == 0 {
    } else {
        lemma_fanout_line(s.drop_first(), sender, line);
        if s[0].id == sender {
            assert forall|k: int|
                0 <= k < fanout(s, sender, line).len() implies (#[trigger] fanout(
                s,
                sender,
                line,
            )[k]).text == line && fanout(s, sender, line)[k].target != sender by {
                assert(fanout(s, sender, line)[k] == fanout(s.drop_first(), sender, line)[k]);
            }
        } else {
            let d = DeliveryModel { target: s[0].id, text: line };
            assert forall|k: int|
                0 <= k < fanout(s, sender, line).len() implies (#[trigger] fanout(
                s,
                sender,
                line,
            )[k]).text == line && fanout(s, sender, line)[k].target != sender by {
                assert(fanout(s, sender, line) == seq![d] + fanout(s.drop_first(), sender, line));
                if k > 0 {
                    assert(fanout(s, sender, line)[k] == fanout(s.drop_first(), sender, line)[k
                        - 1]);
                }
            }
        }
    }
}

/// After a successful nickname command, every text a broadcast from that
/// client delivers opens with the nickname; its payload follows unchanged.
pub proof fn lemma_nickname_shown(s: Seq<EntryModel>, sender: u64, nick: Seq<u8>, text: Seq<u8>)
    requires
        unique_ids(s),
        has_id(s, sender),
    ensures
        forall|k: int|
            0 <= k < broadcast_out(set_nick_step(s, sender, nick), sender, text).len() ==> (
            #[trigger] broadcast_out(set_nick_step(s, sender, nick), sender, text)[k]).text
                == line_for(nick, text),
{
    let s2 = set_nick_step(s, sender, nick);
    crate::registry::lemma_set_nick_find(s, sender, nick);
    assert(display_name(find_entry(s2, sender)->Some_0) == nick);
    lemma_fanout_line(s2, sender, line_for(nick, text));
}

/// Before any renaming, every text a broadcast delivers opens with the
/// fallback rendering of the sender's address.
pub proof fn lemma_fallback_shown(s: Seq<EntryModel>, sender: u64, text: Seq<u8>)
    requires
        unique_ids(s),
        find_entry(s, sender) is Some,
        find_entry(s, sender)->Some_0.nick is None,
    ensures
        forall|k: int|
            0 <= k < broadcast_out(s, sender, text).len() ==> (#[trigger] broadcast_out(
                s,
                sender,
                text,
            )[k]).text == line_for(find_entry(s, sender)->Some_0.addr, text),
{
    lemma_fanout_line(s, sender, line_for(find_entry(s, sender)->Some_0.addr, text));
}

/// Teardown is idempotent: processing a second leave for the same id, as a
/// racing disconnect produces, changes nothing.
pub proof fn lemma_leave_idempotent(s: Seq<EntryModel>, id: u64)
    ensures
        remove_id(remove_id(s, id), id) == remove_id(s, id),
{
    crate::registry::lemma_remove_all(s, id);
    crate::registry::lemma_remove_absent(remove_id(s, id), id);
}

/// Round trip: each delivered text is the sender's display name, a colon
/// and a space, then the broadcast payload byte for byte.
pub proof fn lemma_broadcast_round_trip(s: Seq<EntryModel>, sender: u64, text: Seq<u8>, k: int)
    requires
        unique_ids(s),
        find_entry(s, sender) is Some,
        0 <= k < broadcast_out(s, sender, text).len(),
    ensures
        broadcast_out(s, sender, text)[k].text == line_for(
            display_name(find_entry(s, sender)->Some_0),
            text,
        ),
        broadcast_out(s, sender, text)[k].text.skip(
            display_name(find_entry(s, sender)->Some_0).len() as int + 2,
        ) == text,
        broadcast_out(s, sender, text)[k].text.take(
            display_name(find_entry(s, sender)->Some_0).len() as int,
        ) == display_name(find_entry(s, sender)->Some_0),
{
    let name = display_name(find_entry(s, sender)->Some_0);
    lemma_fanout_line(s, sender, line_for(name, text));
    assert(line_for(name, text).skip(name.len() as int + 2) =~= text);
    assert(line_for(name, text).take(name.len() as int) =~= name);
}

} // verus!
