use vstd::prelude::*;

verus! {

// ---------------------------------------------------------------------------
// Mathematical model
//
// The registry is the single serialized owner of the client table. Its state
// is modelled as a sequence of entries, one per registered client, with
// pairwise distinct ids. All text is modelled as byte sequences: the wire
// protocol is plain bytes, newline conventions included.
// ---------------------------------------------------------------------------

/// Model of one registered client: its id, the textual rendering of its
/// transport address (the fallback display name), and the optional nickname.
#[verifier::ext_equal]
pub ghost struct EntryModel {
    pub id: u64,
    pub addr: Seq<u8>,
    pub nick: Option<Seq<u8>>,
}

/// Model of one outbound text handed to a client's private queue.
#[verifier::ext_equal]
pub ghost struct DeliveryModel {
    pub target: u64,
    pub text: Seq<u8>,
}

/// First entry with the given id, if any.
pub open spec fn find_entry(s: Seq<EntryModel>, id: u64) -> Option<EntryModel>
    decreases s.len(),
{
    if s.len() == 0 {
        None
    } else if s[0].id == id {
        Some(s[0])
    } else {
        find_entry(s.drop_first(), id)
    }
}

/// Whether a client with the given id is registered.
pub open spec fn has_id(s: Seq<EntryModel>, id: u64) -> bool {
    find_entry(s, id) is Some
}

/// Every id occurs at most once.
pub open spec fn unique_ids(s: Seq<EntryModel>) -> bool
    decreases s.len(),
{
    s.len() == 0 || (find_entry(s.drop_first(), s[0].id) is None && unique_ids(s.drop_first()))
}

/// The table with every entry of the given id removed.
pub open spec fn remove_id(s: Seq<EntryModel>, id: u64) -> Seq<EntryModel>
    decreases s.len(),
{
    if s.len() == 0 {
        Seq::empty()
    } else if s[0].id == id {
        remove_id(s.drop_first(), id)
    } else {
        seq![s[0]] + remove_id(s.drop_first(), id)
    }
}

/// Effect of a join: any stale entry for the id is dropped and a fresh
/// entry, with no nickname yet, becomes visible.
pub open spec fn join_step(s: Seq<EntryModel>, id: u64, addr: Seq<u8>) -> Seq<EntryModel> {
    remove_id(s, id).push(EntryModel { id, addr, nick: None })
}

/// Effect of a successful nickname command: the entry for the id carries the
/// new nickname; every other entry is untouched.
pub open spec fn set_nick_step(s: Seq<EntryModel>, id: u64, nick: Seq<u8>) -> Seq<EntryModel>
    decreases s.len(),
{
    if s.len() == 0 {
        Seq::empty()
    } else if s[0].id == id {
        seq![EntryModel { id: s[0].id, addr: s[0].addr, nick: Some(nick) }]
            + set_nick_step(s.drop_first(), id, nick)
    } else {
        seq![s[0]] + set_nick_step(s.drop_first(), id, nick)
    }
}

/// The display name shown for a sender: its nickname when set, otherwise the
/// textual rendering of its address.
pub open spec fn display_name(e: EntryModel) -> Seq<u8> {
    match e.nick {
        Some(n) => n,
        None => e.addr,
    }
}

/// A broadcast line as put on the wire: `name`, a colon and a space, then
/// the payload exactly as received.
pub open spec fn line_for(name: Seq<u8>, text: Seq<u8>) -> Seq<u8> {
    name + seq![58u8, 32u8] + text
}

/// One delivery of `line` to every registered client but the sender, in
/// table order.
pub open spec fn fanout(s: Seq<EntryModel>, sender: u64, line: Seq<u8>) -> Seq<DeliveryModel>
    decreases s.len(),
{
    if s.len() == 0 {
        Seq::empty()
    } else if s[0].id == sender {
        fanout(s.drop_first(), sender, line)
    } else {
        seq![DeliveryModel { target: s[0].id, text: line }] + fanout(s.drop_first(), sender, line)
    }
}

/// Everything a broadcast event emits: nothing when the sender is not
/// registered, else the formatted line fanned out to every other client.
pub open spec fn broadcast_out(s: Seq<EntryModel>, sender: u64, text: Seq<u8>) -> Seq<
    DeliveryModel,
> {
    match find_entry(s, sender) {
        Some(e) => fanout(s, sender, line_for(display_name(e), text)),
        None => Seq::empty(),
    }
}

/// The nickname command with exactly one argument.
pub open spec fn is_setnick(toks: Seq<Seq<u8>>) -> bool {
    toks.len() == 2 && toks[0] == setnickname_cmd()
}

/// New table after a command event: only a well-formed nickname command from
/// a registered client changes anything.
pub open spec fn command_state(s: Seq<EntryModel>, id: u64, toks: Seq<Seq<u8>>) -> Seq<
    EntryModel,
> {
    if !has_id(s, id) {
        s
    } else if is_setnick(toks) {
        set_nick_step(s, id, toks[1])
    } else {
        s
    }
}

/// Replies a command event emits: nothing for an unregistered sender, the
/// confirmation for a well-formed nickname command, the rejection text for
/// everything else. Replies go to the sender alone.
pub open spec fn command_out(s: Seq<EntryModel>, id: u64, toks: Seq<Seq<u8>>) -> Seq<
    DeliveryModel,
> {
    if !has_id(s, id) {
        Seq::empty()
    } else if is_setnick(toks) {
        seq![DeliveryModel { target: id, text: ok_reply() }]
    } else {
        seq![DeliveryModel { target: id, text: invalid_reply() }]
    }
}

/// The ids of all registered clients, in table order.
pub open spec fn ids_of(s: Seq<EntryModel>) -> Seq<u64> {
    s.map_values(|e: EntryModel| e.id)
}

/// The bytes of the command word `/setnickname`.
pub open spec fn setnickname_cmd() -> Seq<u8> {
    seq![47u8, 115u8, 101u8, 116u8, 110u8, 105u8, 99u8, 107u8, 110u8, 97u8, 109u8, 101u8]
}

/// The bytes of the confirmation reply `ok\n`.
pub open spec fn ok_reply() -> Seq<u8> {
    seq![111u8, 107u8, 10u8]
}

/// The bytes of the rejection reply `invalid args or no match pattern\n`.
pub open spec fn invalid_reply() -> Seq<u8> {
    seq![
        105u8, 110u8, 118u8, 97u8, 108u8, 105u8, 100u8, 32u8, 97u8, 114u8, 103u8, 115u8, 32u8,
        111u8, 114u8, 32u8, 110u8, 111u8, 32u8, 109u8, 97u8, 116u8, 99u8, 104u8, 32u8, 112u8,
        97u8, 116u8, 116u8, 101u8, 114u8, 110u8, 10u8,
    ]
}

// ---------------------------------------------------------------------------
// Executable types
// ---------------------------------------------------------------------------

/// One registered client as held by the registry.
pub struct ClientEntry {
    pub id: u64,
    pub addr_text: Vec<u8>,
    pub nickname: Option<Vec<u8>>,
}

impl View for ClientEntry {
    type V = EntryModel;

    open spec fn view(&self) -> EntryModel {
        EntryModel {
            id: self.id,
            addr: self.addr_text@,
            nick: match self.nickname {
                Some(n) => Some(n@),
                None => None,
            },
        }
    }
}

/// One outbound text for one client's private queue.
pub struct Delivery {
    pub target: u64,
    pub text: Vec<u8>,
}

impl View for Delivery {
    type V = DeliveryModel;

    open spec fn view(&self) -> DeliveryModel {
        DeliveryModel { target: self.target, text: self.text@ }
    }
}

/// An event handed to the registry by a connection's reader or by the
/// acceptor. `Join` carries the textual rendering of the client's address,
/// used as its fallback display name.
pub enum Event {
    Join(u64, Vec<u8>),
    Leave(u64),
    Broadcast(u64, Vec<u8>),
    Command(u64, Vec<Vec<u8>>),
    StatsRequest,
}

/// Everything one event produces: texts for individual outbound queues, and,
/// for a stats request, the listing of registered ids.
pub struct Effects {
    pub deliveries: Vec<Delivery>,
    pub stats: Option<Vec<u64>>,
}

/// The views of a delivery list.
pub open spec fn delivered(ds: Seq<Delivery>) -> Seq<DeliveryModel> {
    ds.map_values(|d: Delivery| d@)
}

/// The views of a token list.
pub open spec fn toks_views(ts: Seq<Vec<u8>>) -> Seq<Seq<u8>> {
    ts.map_values(|t: Vec<u8>| t@)
}

// ---------------------------------------------------------------------------
// Byte helpers
// ---------------------------------------------------------------------------

/// A fresh vector with the same bytes.
pub fn copy_bytes(v: &Vec<u8>) -> (r: Vec<u8>)
    ensures
        r@ == v@,
{
    let mut r: Vec<u8> = Vec::new();
    let n = v.len();
    let mut i: usize = 0;
    while i < n
        invariant
            i <= n,
            n == v.len(),
            r@ =~= v@.take(i as int),
        decreases n - i,
    {
        r.push(v[i]);
        i = i + 1;
    }
    proof {
        assert(v@.take(n as int) =~= v@);
    }
    r
}

/// Byte-wise equality of two vectors.
pub fn bytes_eq(a: &Vec<u8>, b: &Vec<u8>) -> (r: bool)
    ensures
        r == (a@ == b@),
{
    if a.len() != b.len() {
        return false;
    }
    let n = a.len();
    let mut i: usize = 0;
    while i < n
        invariant
            i <= n,
            n == a.len(),
            n == b.len(),
            forall|j: int| 0 <= j < i ==> a@[j] == b@[j],
        decreases n - i,
    {
        if a[i] != b[i] {
            return false;
        }
        i = i + 1;
    }
    proof {
        assert(a@ =~= b@);
    }
    true
}

/// The broadcast line for one sender name and one payload.
fn make_line(name: &Vec<u8>, text: &Vec<u8>) -> (r: Vec<u8>)
    ensures
        r@ == line_for(name@, text@),
{
    let mut r = copy_bytes(name);
    r.push(58u8);
    r.push(32u8);
    let n = text.len();
    let mut i: usize = 0;
    while i < n
        invariant
            i <= n,
            n == text.len(),
            r@ =~= name@ + seq![58u8, 32u8] + text@.take(i as int),
        decreases n - i,
    {
        r.push(text[i]);
        i = i + 1;
    }
    proof {
        assert(name@ + seq![58u8, 32u8] + text@.take(n as int) =~= line_for(name@, text@));
    }
    r
}

/// The command word `/setnickname` as bytes.
fn setnickname_bytes() -> (r: Vec<u8>)
    ensures
        r@ == setnickname_cmd(),
{
    let mut r: Vec<u8> = Vec::new();
    r.push(47u8);
    r.push(115u8);
    r.push(101u8);
    r.push(116u8);
    r.push(110u8);
    r.push(105u8);
    r.push(99u8);
    r.push(107u8);
    r.push(110u8);
    r.push(97u8);
    r.push(109u8);
    r.push(101u8);
    proof {
        assert(r@ =~= setnickname_cmd());
    }
    r
}

/// The confirmation reply `ok\n` as bytes.
fn ok_bytes() -> (r: Vec<u8>)
    ensures
        r@ == ok_reply(),
{
    let mut r: Vec<u8> = Vec::new();
    r.push(111u8);
    r.push(107u8);
    r.push(10u8);
    proof {
        assert(r@ =~= ok_reply());
    }
    r
}

/// The rejection reply `invalid args or no match pattern\n` as bytes.
fn invalid_bytes() -> (r: Vec<u8>)
    ensures
        r@ == invalid_reply(),
{
    let mut r: Vec<u8> = Vec::new();
    r.push(105u8);
    r.push(110u8);
    r.push(118u8);
    r.push(97u8);
    r.push(108u8);
    r.push(105u8);
    r.push(100u8);
    r.push(32u8);
    r.push(97u8);
    r.push(114u8);
    r.push(103u8);
    r.push(115u8);
    r.push(32u8);
    r.push(111u8);
    r.push(114u8);
    r.push(32u8);
    r.push(110u8);
    r.push(111u8);
    r.push(32u8);
    r.push(109u8);
    r.push(97u8);
    r.push(116u8);
    r.push(99u8);
    r.push(104u8);
    r.push(32u8);
    r.push(112u8);
    r.push(97u8);
    r.push(116u8);
    r.push(116u8);
    r.push(101u8);
    r.push(114u8);
    r.push(110u8);
    r.push(10u8);
    proof {
        assert(r@ =~= invalid_reply());
    }
    r
}

// ---------------------------------------------------------------------------
// The registry
// ---------------------------------------------------------------------------

/// The single serialized owner of the client table. Events reach it one at a
/// time; it never touches the transport itself, it only decides which texts
/// go to which client's private outbound queue.
pub struct Registry {
    clients: Vec<ClientEntry>,
}

impl View for Registry {
    type V = Seq<EntryModel>;

    closed spec fn view(&self) -> Seq<EntryModel> {
        self.clients@.map_values(|e: ClientEntry| e@)
    }
}

impl Registry {
    /// Table well-formedness: ids are pairwise distinct.
    pub open spec fn wf(&self) -> bool {
        unique_ids(self@)
    }

    /// A registry with no clients.
    pub fn new() -> (r: Registry)
        ensures
            r@ == Seq::<EntryModel>::empty(),
            r.wf(),
    {
        let r = Registry { clients: Vec::new() };
        proof {
            assert(r@ =~= Seq::<EntryModel>::empty());
        }
        r
    }

    /// Index of the entry for `id`, if the client is registered.
    fn find_index(&self, id: u64) -> (r: Option<usize>)
        ensures
            match r {
                Some(i) => i < self@.len() && self@[i as int].id == id && find_entry(self@, id)
                    == Some(self@[i as int]),
                None => find_entry(self@, id) is None,
            },
    {
        let n = self.clients.len();
        let mut i: usize = 0;
        proof {
            assert(self@.skip(0) =~= self@);
        }
        while i < n
            invariant
                i <= n,
                n == self.clients.len(),
                find_entry(self@, id) == find_entry(self@.skip(i as int), id),
        decreases n - i,
        {
            proof {
                assert(self@.skip(i as int)[0] == self@[i as int]);
                assert(self@.skip(i as int).drop_first() =~= self@.skip(i as int + 1));
            }
            if self.clients[i].id == id {
                return Some(i);
            }
            i = i + 1;
        }
        proof {
            assert(self@.skip(n as int) =~= Seq::<EntryModel>::empty());
        }
        None
    }

    /// Drops every entry for `id` from the table.
    fn remove_client(&mut self, id: u64)
        ensures
            final(self)@ == remove_id(old(self)@, id),
    {
        let ghost s = self@;
        let mut kept: Vec<ClientEntry> = Vec::new();
        loop
            invariant
                remove_id(s, id) == delivered_entries(kept@) + remove_id(
                    self.clients@.map_values(|e: ClientEntry| e@),
                    id,
                ),
            ensures
                self.clients@.len() == 0,
                remove_id(s, id) == delivered_entries(kept@),
            decreases self.clients@.len(),
        {
            let ghost cur = self.clients@.map_values(|e: ClientEntry| e@);
            if self.clients.len() == 0 {
                proof {
                    assert(remove_id(cur, id) =~= Seq::<EntryModel>::empty());
                    assert(delivered_entries(kept@) + Seq::<EntryModel>::empty() =~= delivered_entries(kept@));
                }
                break;
            }
            let e = self.clients.remove(0);
            proof {
                assert(cur[0] == e@);
                assert(self.clients@.map_values(|x: ClientEntry| x@) =~= cur.drop_first());
            }
            if e.id != id {
                let ghost k0 = delivered_entries(kept@);
                kept.push(e);
                proof {
                    assert(delivered_entries(kept@) =~= k0 + seq![e@]);
                    assert((k0 + seq![e@]) + remove_id(cur.drop_first(), id) =~= k0 + (seq![e@]
                        + remove_id(cur.drop_first(), id)));
                    assert(seq![e@] + remove_id(cur.drop_first(), id) =~= remove_id(cur, id));
                }
            }
        }
        self.clients = kept;
    }
}

impl Registry {
    /// Rewrites the nickname of every entry for `id` (with distinct ids:
    /// of the one entry).
    fn set_nick(&mut self, id: u64, nick: &Vec<u8>)
        ensures
            final(self)@ == set_nick_step(old(self)@, id, nick@),
    {
        let ghost s = self@;
        let mut kept: Vec<ClientEntry> = Vec::new();
        loop
            invariant
                set_nick_step(s, id, nick@) == delivered_entries(kept@) + set_nick_step(
                    self.clients@.map_values(|e: ClientEntry| e@),
                    id,
                    nick@,
                ),
            ensures
                set_nick_step(s, id, nick@) == delivered_entries(kept@),
            decreases self.clients@.len(),
        {
            let ghost cur = self.clients@.map_values(|e: ClientEntry| e@);
            if self.clients.len() == 0 {
                proof {
                    assert(set_nick_step(cur, id, nick@) =~= Seq::<EntryModel>::empty());
                    assert(delivered_entries(kept@) + Seq::<EntryModel>::empty()
                        =~= delivered_entries(kept@));
                }
                break;
            }
            let e = self.clients.remove(0);
            proof {
                assert(cur[0] == e@);
                assert(self.clients@.map_values(|x: ClientEntry| x@) =~= cur.drop_first());
            }
            let ghost k0 = delivered_entries(kept@);
            let ghost head = if e.id == id {
                EntryModel { id: e@.id, addr: e@.addr, nick: Some(nick@) }
            } else {
                e@
            };
            if e.id == id {
                let renamed = ClientEntry {
                    id: e.id,
                    addr_text: e.addr_text,
                    nickname: Some(copy_bytes(nick)),
                };
                proof {
                    assert(renamed@ == head);
                }
                kept.push(renamed);
            } else {
                kept.push(e);
            }
            proof {
                assert(delivered_entries(kept@) =~= k0 + seq![head]);
                assert(set_nick_step(cur, id, nick@) == seq![head] + set_nick_step(
                    cur.drop_first(),
                    id,
                    nick@,
                ));
                assert((k0 + seq![head]) + set_nick_step(cur.drop_first(), id, nick@) =~= k0 + (
                seq![head] + set_nick_step(cur.drop_first(), id, nick@)));
            }
        }
        self.clients = kept;
    }

    /// The ids of all registered clients, in table order.
    fn collect_ids(&self) -> (r: Vec<u64>)
        ensures
            r@ == ids_of(self@),
    {
        let mut r: Vec<u64> = Vec::new();
        let n = self.clients.len();
        let mut i: usize = 0;
        while i < n
            invariant
                i <= n,
                n == self.clients.len(),
                r@ =~= ids_of(self@).take(i as int),
            decreases n - i,
        {
            r.push(self.clients[i].id);
            i = i + 1;
        }
        proof {
            assert(ids_of(self@).take(n as int) =~= ids_of(self@));
        }
        r
    }

    /// Processes one event to completion and returns everything it emits.
    ///
    /// This is the whole decision logic of the coordinator: the caller's
    /// event loop only moves bytes between the transport, this function,
    /// and the per-client outbound queues. A delivery that cannot be
    /// handed over is the target's failure alone: the caller drops it and
    /// schedules a `Leave` for that target, and this function stays
    /// available for every later event.
    pub fn handle_event(&mut self, ev: Event) -> (out: Effects)
        requires
            old(self).wf(),
            ev matches Event::Command(id, toks) ==> toks@.len() > 0,
        ensures
            final(self).wf(),
            ev matches Event::Join(id, addr) ==> final(self)@ == join_step(old(self)@, id, addr@)
                && delivered(out.deliveries@) == Seq::<DeliveryModel>::empty() && out.stats
                is None,
            ev matches Event::Leave(id) ==> final(self)@ == remove_id(old(self)@, id)
                && delivered(out.deliveries@) == Seq::<DeliveryModel>::empty() && out.stats
                is None,
            ev matches Event::Broadcast(id, text) ==> final(self)@ == old(self)@ && delivered(
                out.deliveries@,
            ) == broadcast_out(old(self)@, id, text@) && out.stats is None,
            ev matches Event::Command(id, toks) ==> final(self)@ == command_state(
                old(self)@,
                id,
                toks_views(toks@),
            ) && delivered(out.deliveries@) == command_out(old(self)@, id, toks_views(toks@))
                && out.stats is None,
            ev matches Event::StatsRequest ==> final(self)@ == old(self)@ && delivered(
                out.deliveries@,
            ) == Seq::<DeliveryModel>::empty() && (out.stats matches Some(ids) && ids@ == ids_of(
                old(self)@,
            )),
    {
        let ghost s0 = self@;
        match ev {
            Event::Join(id, addr_text) => {
                self.remove_client(id);
                let ghost removed = self@;
                let fresh = ClientEntry { id, addr_text, nickname: None };
                proof {
                    assert(fresh@ == (EntryModel { id, addr: fresh.addr_text@, nick: None }));
                }
                self.clients.push(fresh);
                proof {
                    assert(self@ =~= removed.push(fresh@));
                    lemma_remove_unique(s0, id);
                    lemma_remove_all(s0, id);
                    lemma_unique_push(removed, fresh@);
                    assert(delivered(Seq::<Delivery>::empty()) =~= Seq::<DeliveryModel>::empty());
                }
                Effects { deliveries: Vec::new(), stats: None }
            },
            Event::Leave(id) => {
                self.remove_client(id);
                proof {
                    lemma_remove_unique(s0, id);
                    assert(delivered(Seq::<Delivery>::empty()) =~= Seq::<DeliveryModel>::empty());
                }
                Effects { deliveries: Vec::new(), stats: None }
            },
            Event::Broadcast(id, text) => {
                match self.find_index(id) {
                    None => {
                        proof {
                            assert(delivered(Seq::<Delivery>::empty()) =~= Seq::<
                                DeliveryModel,
                            >::empty());
                        }
                        Effects { deliveries: Vec::new(), stats: None }
                    },
                    Some(i) => {
                        let name: Vec<u8> = match &self.clients[i].nickname {
                            Some(n) => copy_bytes(n),
                            None => copy_bytes(&self.clients[i].addr_text),
                        };
                        proof {
                            assert(self@[i as int] == self.clients@[i as int]@);
                            assert(name@ == display_name(find_entry(s0, id)->Some_0));
                        }
                        let line = make_line(&name, &text);
                        let mut ds: Vec<Delivery> = Vec::new();
                        let n = self.clients.len();
                        let mut k: usize = 0;
                        proof {
                            assert(self@.skip(0) =~= self@);
                            assert(delivered(ds@) =~= Seq::<DeliveryModel>::empty());
                            assert(Seq::<DeliveryModel>::empty() + fanout(self@, id, line@)
                                =~= fanout(self@, id, line@));
                        }
                        while k < n
                            invariant
                                k <= n,
                                n == self.clients.len(),
                                line@ == line_for(display_name(find_entry(s0, id)->Some_0), text@),
                                s0 == self@,
                                find_entry(s0, id) is Some,
                                fanout(self@, id, line@) == delivered(ds@) + fanout(
                                    self@.skip(k as int),
                                    id,
                                    line@,
                                ),
                            decreases n - k,
                        {
                            let ghost suffix = self@.skip(k as int);
                            proof {
                                assert(suffix[0] == self@[k as int]);
                                assert(self@[k as int] == self.clients@[k as int]@);
                                assert(suffix.drop_first() =~= self@.skip(k as int + 1));
                            }
                            let target = self.clients[k].id;
                            if target != id {
                                let ghost d0 = delivered(ds@);
                                ds.push(Delivery { target, text: copy_bytes(&line) });
                                proof {
                                    assert(delivered(ds@) =~= d0 + seq![
                                        DeliveryModel { target, text: line@ },
                                    ]);
                                    assert((d0 + seq![DeliveryModel { target, text: line@ }])
                                        + fanout(self@.skip(k as int + 1), id, line@) =~= d0 + (
                                    seq![DeliveryModel { target, text: line@ }] + fanout(
                                        self@.skip(k as int + 1),
                                        id,
                                        line@,
                                    )));
                                }
                            }
                            k = k + 1;
                        }
                        proof {
                            assert(self@.skip(n as int) =~= Seq::<EntryModel>::empty());
                            assert(delivered(ds@) + Seq::<DeliveryModel>::empty() =~= delivered(
                                ds@,
                            ));
                        }
                        Effects { deliveries: ds, stats: None }
                    },
                }
            },
            Event::Command(id, toks) => {
                match self.find_index(id) {
                    None => {
                        proof {
                            assert(delivered(Seq::<Delivery>::empty()) =~= Seq::<
                                DeliveryModel,
                            >::empty());
                        }
                        Effects { deliveries: Vec::new(), stats: None }
                    },
                    Some(_i) => {
                        let word = setnickname_bytes();
                        let is_set = bytes_eq(&toks[0], &word);
                        proof {
                            assert(toks_views(toks@)[0] == toks@[0]@);
                        }
                        if is_set && toks.len() == 2 {
                            proof {
                                assert(toks_views(toks@)[1] == toks@[1]@);
                            }
                            self.set_nick(id, &toks[1]);
                            proof {
                                lemma_set_nick_unique(s0, id, toks@[1]@);
                            }
                            let mut ds: Vec<Delivery> = Vec::new();
                            ds.push(Delivery { target: id, text: ok_bytes() });
                            proof {
                                assert(delivered(ds@) =~= seq![
                                    DeliveryModel { target: id, text: ok_reply() },
                                ]);
                            }
                            Effects { deliveries: ds, stats: None }
                        } else {
                            let mut ds: Vec<Delivery> = Vec::new();
                            ds.push(Delivery { target: id, text: invalid_bytes() });
                            proof {
                                assert(delivered(ds@) =~= seq![
                                    DeliveryModel { target: id, text: invalid_reply() },
                                ]);
                            }
                            Effects { deliveries: ds, stats: None }
                        }
                    },
                }
            },
            Event::StatsRequest => {
                let ids = self.collect_ids();
                proof {
                    assert(delivered(Seq::<Delivery>::empty()) =~= Seq::<DeliveryModel>::empty());
                }
                Effects { deliveries: Vec::new(), stats: Some(ids) }
            },
        }
    }
}

/// The views of an entry list.
pub open spec fn delivered_entries(es: Seq<ClientEntry>) -> Seq<EntryModel> {
    es.map_values(|e: ClientEntry| e@)
}

// ---------------------------------------------------------------------------
// Lemmas about the table operations
// ---------------------------------------------------------------------------

/// Appending an entry leaves every earlier lookup untouched; a lookup of the
/// appended id that used to fail now finds the new entry.
pub proof fn lemma_find_push(s: Seq<EntryModel>, e: EntryModel)
    ensures
        forall|x: u64|
            #[trigger] find_entry(s.push(e), x) == (if find_entry(s, x) is Some {
                find_entry(s, x)
            } else if e.id == x {
                Some(e)
            } else {
                None::<EntryModel>
            }),
    decreases s.len(),
{
    if s.len() == 0 {
        assert forall|x: u64|
            #[trigger] find_entry(s.push(e), x) == (if find_entry(s, x) is Some {
                find_entry(s, x)
            } else if e.id == x {
                Some(e)
            } else {
                None::<EntryModel>
            }) by {
            reveal_with_fuel(find_entry, 3);
            assert(s.push(e)[0] == e);
            assert(s.push(e).drop_first() =~= Seq::<EntryModel>::empty());
        }
    } else {
        lemma_find_push(s.drop_first(), e);
        assert forall|x: u64|
            #[trigger] find_entry(s.push(e), x) == (if find_entry(s, x) is Some {
                find_entry(s, x)
            } else if e.id == x {
                Some(e)
            } else {
                None::<EntryModel>
            }) by {
            reveal_with_fuel(find_entry, 3);
            assert(s.push(e)[0] == s[0]);
            assert(s.push(e).drop_first() =~= s.drop_first().push(e));
            assert(find_entry(s.drop_first().push(e), x) == (if find_entry(s.drop_first(), x)
                is Some {
                find_entry(s.drop_first(), x)
            } else if e.id == x {
                Some(e)
            } else {
                None::<EntryModel>
            }));
        }
    }
}

/// No entry of the removed id survives a removal.
pub proof fn lemma_remove_all(s: Seq<EntryModel>, id: u64)
    ensures
        find_entry(remove_id(s, id), id) is None,
    decreases s.len(),
{
    if s.len() == 0 {
    } else if s[0].id == id {
        lemma_remove_all(s.drop_first(), id);
    } else {
        lemma_remove_all(s.drop_first(), id);
        assert((seq![s[0]] + remove_id(s.drop_first(), id))[0] == s[0]);
        assert((seq![s[0]] + remove_id(s.drop_first(), id)).drop_first() =~= remove_id(
            s.drop_first(),
            id,
        ));
    }
}

/// Removing one id leaves the lookup of every other id unchanged.
pub proof fn lemma_remove_find(s: Seq<EntryModel>, id: u64)
    ensures
        forall|x: u64|
            x != id ==> #[trigger] find_entry(remove_id(s, id), x) == find_entry(s, x),
    decreases s.len(),
{
    if s.len() == 0 {
    } else {
        lemma_remove_find(s.drop_first(), id);
        if s[0].id == id {
        } else {
            assert forall|x: u64|
                x != id implies #[trigger] find_entry(remove_id(s, id), x) == find_entry(
                s,
                x,
            ) by {
                reveal_with_fuel(find_entry, 3);
                reveal_with_fuel(remove_id, 2);
                assert(find_entry(remove_id(s.drop_first(), id), x) == find_entry(
                    s.drop_first(),
                    x,
                ));
                assert((seq![s[0]] + remove_id(s.drop_first(), id))[0] == s[0]);
                assert((seq![s[0]] + remove_id(s.drop_first(), id)).drop_first() =~= remove_id(
                    s.drop_first(),
                    id,
                ));
            }
        }
    }
}

/// A removal keeps the ids pairwise distinct.
pub proof fn lemma_remove_unique(s: Seq<EntryModel>, id: u64)
    requires
        unique_ids(s),
    ensures
        unique_ids(remove_id(s, id)),
    decreases s.len(),
{
    if s.len() == 0 {
    } else if s[0].id == id {
        lemma_remove_unique(s.drop_first(), id);
    } else {
        lemma_remove_unique(s.drop_first(), id);
        lemma_remove_find(s.drop_first(), id);
        assert((seq![s[0]] + remove_id(s.drop_first(), id))[0] == s[0]);
        assert((seq![s[0]] + remove_id(s.drop_first(), id)).drop_first() =~= remove_id(
            s.drop_first(),
            id,
        ));
    }
}

/// Removing an id that is not in the table changes nothing.
pub proof fn lemma_remove_absent(s: Seq<EntryModel>, id: u64)
    requires
        find_entry(s, id) is None,
    ensures
        remove_id(s, id) == s,
    decreases s.len(),
{
    if s.len() == 0 {
        assert(remove_id(s, id) =~= s);
    } else {
        lemma_remove_absent(s.drop_first(), id);
        assert(seq![s[0]] + s.drop_first() =~= s);
    }
}

/// Appending an entry whose id is fresh keeps the ids pairwise distinct.
pub proof fn lemma_unique_push(s: Seq<EntryModel>, e: EntryModel)
    requires
        unique_ids(s),
        find_entry(s, e.id) is None,
    ensures
        unique_ids(s.push(e)),
    decreases s.len(),
{
    if s.len() == 0 {
        reveal_with_fuel(unique_ids, 3);
        reveal_with_fuel(find_entry, 3);
        assert(s.push(e)[0] == e);
        assert(s.push(e).drop_first() =~= Seq::<EntryModel>::empty());
    } else {
        reveal_with_fuel(unique_ids, 3);
        reveal_with_fuel(find_entry, 3);
        lemma_unique_push(s.drop_first(), e);
        lemma_find_push(s.drop_first(), e);
        assert(s.push(e)[0] == s[0]);
        assert(s.push(e).drop_first() =~= s.drop_first().push(e));
    }
}

/// A nickname update rewrites the entry of its id and leaves every other
/// lookup untouched.
pub proof fn lemma_set_nick_find(s: Seq<EntryModel>, id: u64, nick: Seq<u8>)
    ensures
        forall|x: u64|
            x != id ==> #[trigger] find_entry(set_nick_step(s, id, nick), x) == find_entry(s, x),
        find_entry(set_nick_step(s, id, nick), id) == (match find_entry(s, id) {
            Some(e) => Some(EntryModel { id: e.id, addr: e.addr, nick: Some(nick) }),
            None => None::<EntryModel>,
        }),
    decreases s.len(),
{
    if s.len() == 0 {
    } else {
        lemma_set_nick_find(s.drop_first(), id, nick);
        let head = if s[0].id == id {
            EntryModel { id: s[0].id, addr: s[0].addr, nick: Some(nick) }
        } else {
            s[0]
        };
        assert(set_nick_step(s, id, nick) == seq![head] + set_nick_step(s.drop_first(), id, nick));
        assert((seq![head] + set_nick_step(s.drop_first(), id, nick))[0] == head);
        assert((seq![head] + set_nick_step(s.drop_first(), id, nick)).drop_first()
            =~= set_nick_step(s.drop_first(), id, nick));
        assert forall|x: u64|
            x != id implies #[trigger] find_entry(set_nick_step(s, id, nick), x) == find_entry(
            s,
            x,
        ) by {
            reveal_with_fuel(find_entry, 3);
            assert(find_entry(set_nick_step(s.drop_first(), id, nick), x) == find_entry(
                s.drop_first(),
                x,
            ));
        }
        assert(find_entry(set_nick_step(s, id, nick), id) == (match find_entry(s, id) {
            Some(e) => Some(EntryModel { id: e.id, addr: e.addr, nick: Some(nick) }),
            None => None::<EntryModel>,
        })) by {
            reveal_with_fuel(find_entry, 3);
            assert(find_entry(set_nick_step(s, id, nick), id) == (if head.id == id {
                Some(head)
            } else {
                find_entry(set_nick_step(s.drop_first(), id, nick), id)
            }));
        }
    }
}

/// A nickname update keeps the ids pairwise distinct.
pub proof fn lemma_set_nick_unique(s: Seq<EntryModel>, id: u64, nick: Seq<u8>)
    requires
        unique_ids(s),
    ensures
        unique_ids(set_nick_step(s, id, nick)),
    decreases s.len(),
{
    if s.len() == 0 {
    } else {
        reveal_with_fuel(find_entry, 3);
        reveal_with_fuel(set_nick_step, 2);
        reveal_with_fuel(unique_ids, 2);
        lemma_set_nick_unique(s.drop_first(), id, nick);
        lemma_set_nick_find(s.drop_first(), id, nick);
        let head = if s[0].id == id {
            EntryModel { id: s[0].id, addr: s[0].addr, nick: Some(nick) }
        } else {
            s[0]
        };
        assert((seq![head] + set_nick_step(s.drop_first(), id, nick))[0] == head);
        assert((seq![head] + set_nick_step(s.drop_first(), id, nick)).drop_first()
            =~= set_nick_step(s.drop_first(), id, nick));
        assert(set_nick_step(s, id, nick) == seq![head] + set_nick_step(s.drop_first(), id, nick));
    }
}

} // verus!
