use vstd::prelude::*;
use crate::device::{owned_by, DeviceRegistry, DeviceView};
use crate::error::{HandlerError, InternalError};
use crate::session::SessionInfo;
use crate::system::{now_seconds, random_uuid};

verus! {

/// A message as submitted: the sender comes from the verified identity, never
/// from the client. The payload is an opaque JSON text.
#[derive(Debug, Clone)]
pub struct NewMessage {
    pub recipient: u128,
    pub message_type: String,
    pub sender: u128,
    pub payload: String,
}

/// A stored message; it never changes once stored.
pub struct MessageView {
    pub recipient: u128,
    pub sender: u128,
    pub reception_time: i64,
    pub message_type: Seq<char>,
    pub payload: Seq<char>,
}

#[derive(Debug)]
struct MessageRow {
    id: u128,
    recipient: u128,
    sender: u128,
    reception_time: i64,
    message_type: String,
    payload: String,
}

impl MessageRow {
    spec fn view(&self) -> MessageView {
        MessageView {
            recipient: self.recipient,
            sender: self.sender,
            reception_time: self.reception_time,
            message_type: self.message_type@,
            payload: self.payload@,
        }
    }
}

/// A message handed to a device.
#[derive(Debug, Clone)]
pub struct MailboxReturn {
    pub sender: u128,
    pub message_type: String,
    pub timestamp: i64,
    pub payload: String,
}

/// A message that a device has not yet been handed.
#[derive(Debug, Clone, Copy)]
struct MailboxEntry {
    device_id: u128,
    message_id: u128,
}

/// The stored messages, by id, and the backlog: one (device, message) pair for
/// each message that the device has not yet been handed.
pub struct MailboxView {
    pub messages: Map<u128, MessageView>,
    pub backlog: Set<(u128, u128)>,
}

/// The stored messages and the backlog of every device.
#[derive(Debug)]
pub struct Mailbox {
    messages: Vec<MessageRow>,
    entries: Vec<MailboxEntry>,
}

/// The message that `msg` becomes when it is received at `now`.
pub open spec fn received(msg: NewMessage, now: i64) -> MessageView {
    MessageView {
        recipient: msg.recipient,
        sender: msg.sender,
        reception_time: now,
        message_type: msg.message_type@,
        payload: msg.payload@,
    }
}

/// The backlog entries that submitting message `id` to `recipient` creates: one
/// for each device that the recipient owns at that moment.
pub open spec fn fan_out(devices: Map<u128, DeviceView>, recipient: u128, id: u128) -> Set<
    (u128, u128),
> {
    owned_by(devices, recipient).map(|d: u128| (d, id))
}

/// The ids of the messages waiting for `device`.
pub open spec fn pending(backlog: Set<(u128, u128)>, device: u128) -> Set<u128> {
    Set::new(|m: u128| backlog.contains((device, m)))
}

/// The backlog once every entry of `device` is gone.
pub open spec fn drained(backlog: Set<(u128, u128)>, device: u128) -> Set<(u128, u128)> {
    backlog.filter(|e: (u128, u128)| e.0 != device)
}

/// Every backlog entry names a stored message.
pub open spec fn backlog_stored(mailbox: MailboxView) -> bool {
    forall|e: (u128, u128)| #[trigger] mailbox.backlog.contains(e) ==> mailbox.messages.contains_key(e.1)
}

/// Whether `r` hands out the stored message `m`.
pub open spec fn delivers(r: MailboxReturn, m: MessageView) -> bool {
    &&& r.sender == m.sender
    &&& r.message_type@ == m.message_type
    &&& r.timestamp == m.reception_time
    &&& r.payload@ == m.payload
}

impl Mailbox {
    /// Message ids are unique, no entry is held twice, and every entry refers to a
    /// stored message.
    pub closed spec fn wf(&self) -> bool {
        &&& forall|i: int, j: int|
            0 <= i < j < self.messages@.len() ==> #[trigger] self.messages@[i].id
                != #[trigger] self.messages@[j].id
        &&& forall|i: int, j: int|
            0 <= i < j < self.entries@.len() ==> #[trigger] self.entries@[i] != #[trigger] self.entries@[j]
        &&& forall|i: int|
            0 <= i < self.entries@.len() ==> self.has(#[trigger] self.entries@[i].message_id)
    }

    closed spec fn has(&self, id: u128) -> bool {
        exists|i: int| 0 <= i < self.messages@.len() && #[trigger] self.messages@[i].id == id
    }

    closed spec fn index_of(&self, id: u128) -> int {
        choose|i: int| 0 <= i < self.messages@.len() && #[trigger] self.messages@[i].id == id
    }

    closed spec fn holds(&self, e: (u128, u128)) -> bool {
        exists|i: int|
            0 <= i < self.entries@.len() && #[trigger] self.entries@[i].device_id == e.0
                && self.entries@[i].message_id == e.1
    }

    proof fn lemma_row(&self, i: int)
        requires
            self.wf(),
            0 <= i < self.messages@.len(),
        ensures
            self@.messages.contains_key(self.messages@[i].id),
            self@.messages[self.messages@[i].id] == self.messages@[i].view(),
    {
        let id = self.messages@[i].id;
        assert(self.has(id));
        let j = self.index_of(id);
        if i < j {
            assert(self.messages@[i].id != self.messages@[j].id);
        } else if j < i {
            assert(self.messages@[j].id != self.messages@[i].id);
        }
    }

    proof fn lemma_backlog_stored(&self)
        requires
            self.wf(),
        ensures
            backlog_stored(self@),
    {
        assert forall|e: (u128, u128)| #[trigger] self@.backlog.contains(e) implies self@.messages.contains_key(e.1) by {
            let k = choose|k: int|
                0 <= k < self.entries@.len() && #[trigger] self.entries@[k].device_id == e.0
                    && self.entries@[k].message_id == e.1;
            assert(self.has(self.entries@[k].message_id));
        }
    }

    pub fn new() -> (r: Mailbox)
        ensures
            r.wf(),
            backlog_stored(r@),
            r@.messages == Map::<u128, MessageView>::empty(),
            r@.backlog == Set::<(u128, u128)>::empty(),
    {
        let r = Mailbox { messages: Vec::new(), entries: Vec::new() };
        assert(r@.messages =~= Map::<u128, MessageView>::empty());
        assert(r@.backlog =~= Set::<(u128, u128)>::empty());
        r
    }

    fn find(&self, id: u128) -> (r: Option<usize>)
        requires
            self.wf(),
        ensures
            match r {
                Some(i) => i < self.messages@.len() && self.messages@[i as int].id == id,
                None => !self@.messages.contains_key(id),
            },
    {
        let mut i: usize = 0;
        while i < self.messages.len()
            invariant
                i <= self.messages@.len(),
                forall|k: int| 0 <= k < i ==> #[trigger] self.messages@[k].id != id,
            decreases self.messages@.len() - i,
        {
            if self.messages[i].id == id {
                return Some(i);
            }
            i = i + 1;
        }
        None
    }
}

impl Mailbox {
    /// Stores `msg` as message `id`, received at `now`, and puts it in the backlog
    /// of every device that the recipient owns now, all in one step. An `id` that
    /// is already taken is refused by the store, and then nothing at all is written.
    pub fn submit(&mut self, devices: &DeviceRegistry, msg: NewMessage, id: u128, now: i64) -> (r:
        Result<u128, HandlerError>)
        requires
            old(self).wf(),
            devices.wf(),
        ensures
            final(self).wf(),
            backlog_stored(final(self)@),
            old(self)@.messages.contains_key(id) ==> r == Err::<u128, HandlerError>(
                HandlerError::InternalError { error: InternalError::DatabaseError },
            ) && final(self)@ == old(self)@,
            !old(self)@.messages.contains_key(id) ==> r == Ok::<u128, HandlerError>(id)
                && final(self)@.messages == old(self)@.messages.insert(id, received(msg, now))
                && final(self)@.backlog == old(self)@.backlog.union(
                fan_out(devices@, msg.recipient, id),
            ),
    {
        if self.find(id).is_some() {
            proof {
                self.lemma_backlog_stored();
            }
            return Err(HandlerError::InternalError { error: InternalError::DatabaseError });
        }
        let targets = devices.devices_of(msg.recipient);
        let ghost old_self = *self;
        let ghost msg_view = received(msg, now);
        self.messages.push(
            MessageRow {
                id,
                recipient: msg.recipient,
                sender: msg.sender,
                reception_time: now,
                message_type: msg.message_type,
                payload: msg.payload,
            },
        );
        let ghost len = old_self.messages@.len();
        proof {
            assert(self.messages@[len as int].id == id);
            assert forall|m: u128| old_self.has(m) implies #[trigger] self.has(m) by {
                let k = choose|k: int| 0 <= k < old_self.messages@.len() && #[trigger] old_self.messages@[k].id == m;
                assert(self.messages@[k].id == m);
            }
            assert forall|a: int, b: int| 0 <= a < b < self.messages@.len() implies #[trigger] self.messages@[a].id
                != #[trigger] self.messages@[b].id by {
                if b == len {
                    if self.messages@[a].id == id {
                        old_self.lemma_row(a);
                    }
                } else {
                    assert(old_self.messages@[a].id != old_self.messages@[b].id);
                }
            }
        }
        let ghost mid = *self;
        let mut i: usize = 0;
        while i < targets.len()
            invariant
                mid.messages@ == self.messages@,
                mid.has(id),
                forall|m: u128| old_self.has(m) ==> #[trigger] mid.has(m),
                !old_self.has(id),
                old_self.wf(),
                targets@.no_duplicates(),
                i <= targets@.len(),
                self.entries@.len() == old_self.entries@.len() + i,
                forall|k: int| 0 <= k < old_self.entries@.len() ==> #[trigger] self.entries@[k] == old_self.entries@[k],
                forall|k: int|
                    0 <= k < i ==> #[trigger] self.entries@[old_self.entries@.len() + k] == (MailboxEntry {
                        device_id: targets@[k],
                        message_id: id,
                    }),
            decreases targets@.len() - i,
        {
            self.entries.push(MailboxEntry { device_id: targets[i], message_id: id });
            i = i + 1;
        }
        proof {
            let n = old_self.entries@.len();
            assert(forall|k: int| 0 <= k < self.entries@.len() ==> mid.has(#[trigger] self.entries@[k].message_id)) by {
                assert forall|k: int| 0 <= k < self.entries@.len() implies mid.has(#[trigger] self.entries@[k].message_id) by {
                    if k < n {
                        assert(old_self.has(old_self.entries@[k].message_id));
                    } else {
                        assert(self.entries@[n + (k - n)].message_id == id);
                    }
                }
            }
            assert forall|a: int, b: int| 0 <= a < b < self.entries@.len() implies #[trigger] self.entries@[a]
                != #[trigger] self.entries@[b] by {
                if b < n {
                    assert(old_self.entries@[a] != old_self.entries@[b]);
                } else if a < n {
                    assert(old_self.has(old_self.entries@[a].message_id));
                    assert(self.entries@[n + (b - n)].message_id == id);
                } else {
                    assert(self.entries@[n + (a - n)].device_id == targets@[a - n]);
                    assert(self.entries@[n + (b - n)].device_id == targets@[b - n]);
                }
            }
            assert(self.wf());
            let target_msgs = old_self@.messages.insert(id, msg_view);
            assert forall|m: u128| #[trigger] self@.messages.contains_key(m) == target_msgs.contains_key(m) by {
                if self.has(m) {
                    let k = choose|k: int| 0 <= k < self.messages@.len() && #[trigger] self.messages@[k].id == m;
                    if k < len {
                        assert(old_self.messages@[k].id == m);
                    }
                }
                if old_self.has(m) || m == id {
                    assert(mid.has(m));
                    let k = choose|k: int| 0 <= k < mid.messages@.len() && #[trigger] mid.messages@[k].id == m;
                    assert(self.messages@[k].id == m);
                }
            }
            assert forall|m: u128| #[trigger] self@.messages.contains_key(m) implies self@.messages[m]
                == target_msgs[m] by {
                let k = choose|k: int| 0 <= k < self.messages@.len() && #[trigger] self.messages@[k].id == m;
                self.lemma_row(k);
                if k < len {
                    old_self.lemma_row(k);
                }
            }
            assert(self@.messages =~= target_msgs);
            let fan = fan_out(devices@, msg.recipient, id);
            let target_backlog = old_self@.backlog.union(fan);
            assert forall|e: (u128, u128)| #[trigger] self@.backlog.contains(e) == target_backlog.contains(e) by {
                if self.holds(e) {
                    let k = choose|k: int|
                        0 <= k < self.entries@.len() && #[trigger] self.entries@[k].device_id == e.0
                            && self.entries@[k].message_id == e.1;
                    if k < n {
                        assert(old_self.entries@[k].device_id == e.0);
                        assert(old_self.holds(e));
                    } else {
                        assert(self.entries@[n + (k - n)].device_id == targets@[k - n]);
                        assert(targets@.contains(e.0));
                        assert(owned_by(devices@, msg.recipient).contains(e.0));
                        assert(fan.contains(e));
                    }
                }
                if old_self.holds(e) {
                    let k = choose|k: int|
                        0 <= k < old_self.entries@.len() && #[trigger] old_self.entries@[k].device_id == e.0
                            && old_self.entries@[k].message_id == e.1;
                    assert(self.entries@[k].device_id == e.0);
                }
                if fan.contains(e) {
                    let d = choose|d: u128| owned_by(devices@, msg.recipient).contains(d) && (d, id) == e;
                    assert(targets@.contains(d));
                    let a = choose|a: int| 0 <= a < targets@.len() && targets@[a] == d;
                    assert(self.entries@[n + a] == (MailboxEntry { device_id: targets@[a], message_id: id }));
                    assert(self.entries@[n + a].device_id == e.0);
                }
            }
            assert(self@.backlog =~= target_backlog);
            self.lemma_backlog_stored();
        }
        Ok(id)
    }
}

impl Mailbox {
    /// Deletes every backlog entry of `device_id` and returns the ids of their messages.
    fn take_entries(&mut self, device_id: u128) -> (taken: Vec<u128>)
        requires
            old(self).wf(),
        ensures
            final(self).wf(),
            final(self)@.messages == old(self)@.messages,
            final(self)@.backlog == drained(old(self)@.backlog, device_id),
            taken@.no_duplicates(),
            forall|m: u128| taken@.contains(m) <==> #[trigger] pending(old(self)@.backlog, device_id).contains(m),
            forall|m: u128| #[trigger] taken@.contains(m) ==> old(self)@.messages.contains_key(m),
    {
        let mut kept: Vec<MailboxEntry> = Vec::new();
        let mut taken: Vec<u128> = Vec::new();
        let ghost mut ksrc: Seq<int> = Seq::empty();
        let ghost mut tsrc: Seq<int> = Seq::empty();
        let mut i: usize = 0;
        while i < self.entries.len()
            invariant
                self.wf(),
                i <= self.entries@.len(),
                ksrc.len() == kept@.len(),
                tsrc.len() == taken@.len(),
                forall|a: int|
                    0 <= a < kept@.len() ==> 0 <= #[trigger] ksrc[a] < i && self.entries@[ksrc[a]]
                        == kept@[a] && kept@[a].device_id != device_id,
                forall|a: int, b: int| 0 <= a < b < kept@.len() ==> #[trigger] ksrc[a] < #[trigger] ksrc[b],
                forall|a: int|
                    0 <= a < taken@.len() ==> 0 <= #[trigger] tsrc[a] < i && self.entries@[tsrc[a]].device_id
                        == device_id && self.entries@[tsrc[a]].message_id == taken@[a],
                forall|a: int, b: int| 0 <= a < b < taken@.len() ==> #[trigger] tsrc[a] < #[trigger] tsrc[b],
                forall|k: int|
                    0 <= k < i && #[trigger] self.entries@[k].device_id != device_id ==> kept@.contains(
                        self.entries@[k],
                    ),
                forall|k: int|
                    0 <= k < i && #[trigger] self.entries@[k].device_id == device_id ==> taken@.contains(
                        self.entries@[k].message_id,
                    ),
            decreases self.entries@.len() - i,
        {
            let e = self.entries[i];
            if e.device_id == device_id {
                let ghost before = taken@;
                taken.push(e.message_id);
                proof {
                    tsrc = tsrc.push(i as int);
                    assert forall|k: int|
                        0 <= k < i + 1 && #[trigger] self.entries@[k].device_id == device_id implies taken@.contains(
                        self.entries@[k].message_id,
                    ) by {
                        if k < i {
                            let a = choose|a: int| 0 <= a < before.len() && before[a] == self.entries@[k].message_id;
                            assert(taken@[a] == before[a]);
                        } else {
                            assert(taken@[before.len() as int] == e.message_id);
                        }
                    }
                }
            } else {
                let ghost before = kept@;
                kept.push(e);
                proof {
                    ksrc = ksrc.push(i as int);
                    assert forall|k: int|
                        0 <= k < i + 1 && #[trigger] self.entries@[k].device_id != device_id implies kept@.contains(
                        self.entries@[k],
                    ) by {
                        if k < i {
                            let a = choose|a: int| 0 <= a < before.len() && before[a] == self.entries@[k];
                            assert(kept@[a] == before[a]);
                        } else {
                            assert(kept@[before.len() as int] == e);
                        }
                    }
                }
            }
            i = i + 1;
        }
        let ghost old_self = *self;
        self.entries = kept;
        proof {
            assert forall|a: int, b: int| 0 <= a < b < taken@.len() implies taken@[a] != taken@[b] by {
                assert(tsrc[a] < tsrc[b]);
                assert(old_self.entries@[tsrc[a]] != old_self.entries@[tsrc[b]]);
            }
            assert forall|a: int, b: int| 0 <= a < b < self.entries@.len() implies #[trigger] self.entries@[a]
                != #[trigger] self.entries@[b] by {
                assert(ksrc[a] < ksrc[b]);
                assert(old_self.entries@[ksrc[a]] != old_self.entries@[ksrc[b]]);
            }
            assert forall|a: int| 0 <= a < self.entries@.len() implies self.has(#[trigger] self.entries@[a].message_id) by {
                let m = old_self.entries@[ksrc[a]].message_id;
                assert(old_self.has(m));
                let k = choose|k: int| 0 <= k < old_self.messages@.len() && #[trigger] old_self.messages@[k].id == m;
                assert(self.messages@[k].id == m);
            }
            assert(self@.messages =~= old_self@.messages);
            let target = drained(old_self@.backlog, device_id);
            assert forall|e: (u128, u128)| #[trigger] self@.backlog.contains(e) == target.contains(e) by {
                if self.holds(e) {
                    let a = choose|a: int|
                        0 <= a < self.entries@.len() && #[trigger] self.entries@[a].device_id == e.0
                            && self.entries@[a].message_id == e.1;
                    assert(old_self.entries@[ksrc[a]].device_id == e.0);
                    assert(old_self.holds(e));
                }
                if old_self.holds(e) && e.0 != device_id {
                    let k = choose|k: int|
                        0 <= k < old_self.entries@.len() && #[trigger] old_self.entries@[k].device_id == e.0
                            && old_self.entries@[k].message_id == e.1;
                    assert(self.entries@.contains(old_self.entries@[k]));
                    let a = choose|a: int| 0 <= a < self.entries@.len() && self.entries@[a] == old_self.entries@[k];
                    assert(self.entries@[a].device_id == e.0);
                }
            }
            assert(self@.backlog =~= target);
            assert forall|m: u128| taken@.contains(m) <==> #[trigger] pending(old_self@.backlog, device_id).contains(m) by {
                if taken@.contains(m) {
                    let a = choose|a: int| 0 <= a < taken@.len() && taken@[a] == m;
                    assert(old_self.entries@[tsrc[a]].device_id == device_id);
                    assert(old_self.holds((device_id, m)));
                }
                if old_self.holds((device_id, m)) {
                    let k = choose|k: int|
                        0 <= k < old_self.entries@.len() && #[trigger] old_self.entries@[k].device_id == device_id
                            && old_self.entries@[k].message_id == m;
                    assert(old_self.entries@[k].device_id == device_id);
                }
            }
            assert forall|m: u128| #[trigger] taken@.contains(m) implies old_self@.messages.contains_key(m) by {
                let a = choose|a: int| 0 <= a < taken@.len() && taken@[a] == m;
                assert(old_self.has(old_self.entries@[tsrc[a]].message_id));
            }
        }
        taken
    }
}

/// Whether `r` hands out the stored messages `order`, one for one, in ascending
/// order of reception time.
pub open spec fn in_delivery_order(
    r: Seq<MailboxReturn>,
    order: Seq<u128>,
    messages: Map<u128, MessageView>,
) -> bool {
    &&& order.len() == r.len()
    &&& order.no_duplicates()
    &&& forall|i: int|
        0 <= i < r.len() ==> messages.contains_key(#[trigger] order[i]) && delivers(
            r[i],
            messages[order[i]],
        )
    &&& forall|i: int, j: int| 0 <= i < j < r.len() ==> #[trigger] r[i].timestamp <= #[trigger] r[j].timestamp
}

proof fn lemma_insert_fresh(s: Seq<u128>, p: int, x: u128)
    requires
        0 <= p <= s.len(),
        s.no_duplicates(),
        !s.contains(x),
    ensures
        s.insert(p, x).no_duplicates(),
        forall|m: u128| #[trigger] s.insert(p, x).contains(m) <==> (s.contains(m) || m == x),
{
    s.insert_ensures(p, x);
    let t = s.insert(p, x);
    let at = |k: int| if k < p { s[k] } else if k == p { x } else { s[k - 1] };
    assert forall|k: int| 0 <= k < t.len() implies t[k] == at(k) by {
        if k > p {
            assert(t[(k - 1) + 1] == s[k - 1]);
        }
    }
    assert forall|a: int, b: int| 0 <= a < t.len() && 0 <= b < t.len() && a != b implies t[a] != t[b] by {
        assert(t[a] == at(a));
        assert(t[b] == at(b));
        if a != p && b != p {
            let sa = if a < p { a } else { a - 1 };
            let sb = if b < p { b } else { b - 1 };
            assert(s[sa] != s[sb]);
        } else if a == p {
            let sb = if b < p { b } else { b - 1 };
            assert(s.contains(s[sb]));
        } else {
            let sa = if a < p { a } else { a - 1 };
            assert(s.contains(s[sa]));
        }
    }
    assert forall|m: u128| #[trigger] t.contains(m) <==> (s.contains(m) || m == x) by {
        if t.contains(m) {
            let k = choose|k: int| 0 <= k < t.len() && t[k] == m;
            assert(t[k] == at(k));
            if k < p {
                assert(s[k] == m);
            } else if k > p {
                assert(s[k - 1] == m);
            }
        }
        if s.contains(m) {
            let k = choose|k: int| 0 <= k < s.len() && s[k] == m;
            if k < p {
                assert(t[k] == m);
            } else {
                assert(t[k + 1] == m);
            }
        }
        if m == x {
            assert(t[p] == x);
        }
    }
}

impl Mailbox {
    /// The messages `ids`, ordered by reception time.
    fn collect_sorted(&self, ids: &Vec<u128>) -> (r: Vec<MailboxReturn>)
        requires
            self.wf(),
            ids@.no_duplicates(),
            forall|i: int| 0 <= i < ids@.len() ==> self@.messages.contains_key(#[trigger] ids@[i]),
        ensures
            exists|order: Seq<u128>|
                in_delivery_order(r@, order, self@.messages) && #[trigger] order.to_set() == ids@.to_set(),
    {
        let mut out: Vec<MailboxReturn> = Vec::new();
        let ghost mut order: Seq<u128> = Seq::empty();
        let mut j: usize = 0;
        while j < ids.len()
            invariant
                self.wf(),
                ids@.no_duplicates(),
                forall|i: int| 0 <= i < ids@.len() ==> self@.messages.contains_key(#[trigger] ids@[i]),
                j <= ids@.len(),
                in_delivery_order(out@, order, self@.messages),
                forall|m: u128| #[trigger] order.contains(m) <==> ids@.subrange(0, j as int).contains(m),
            decreases ids@.len() - j,
        {
            let id = ids[j];
            let k = match self.find(id) {
                Some(k) => k,
                None => {
                    proof {
                        assert(false);
                    }
                    return out;
                },
            };
            proof {
                self.lemma_row(k as int);
            }
            let item = MailboxReturn {
                sender: self.messages[k].sender,
                message_type: self.messages[k].message_type.clone(),
                timestamp: self.messages[k].reception_time,
                payload: self.messages[k].payload.clone(),
            };
            let t = self.messages[k].reception_time;
            let mut p: usize = 0;
            while p < out.len() && out[p].timestamp <= t
                invariant
                    p <= out@.len(),
                    forall|q: int| 0 <= q < p ==> #[trigger] out@[q].timestamp <= t,
                decreases out@.len() - p,
            {
                p = p + 1;
            }
            let ghost old_out = out@;
            let ghost old_order = order;
            proof {
                assert forall|q: int| p <= q < old_out.len() implies #[trigger] old_out[q].timestamp > t by {
                    if q > p {
                        assert(old_out[p as int].timestamp <= old_out[q].timestamp);
                    }
                }
                assert(!ids@.subrange(0, j as int).contains(id)) by {
                    if ids@.subrange(0, j as int).contains(id) {
                        let a = choose|a: int| 0 <= a < j && ids@.subrange(0, j as int)[a] == id;
                        assert(ids@[a] == ids@[j as int]);
                    }
                }
                lemma_insert_fresh(old_order, p as int, id);
                old_out.insert_ensures(p as int, item);
                old_order.insert_ensures(p as int, id);
            }
            out.insert(p, item);
            proof {
                order = old_order.insert(p as int, id);
                let at = |q: int| if q < p { q } else { q - 1 };
                assert forall|q: int| 0 <= q < out@.len() && q != p implies out@[q] == old_out[at(q)]
                    && order[q] == old_order[at(q)] by {
                    if q > p {
                        assert(out@[(q - 1) + 1] == old_out[q - 1]);
                        assert(order[(q - 1) + 1] == old_order[q - 1]);
                    }
                }
                assert forall|i: int|
                    0 <= i < out@.len() implies self@.messages.contains_key(#[trigger] order[i]) && delivers(
                    out@[i],
                    self@.messages[order[i]],
                ) by {
                    if i != p {
                        assert(self@.messages.contains_key(old_order[at(i)]));
                    }
                }
                assert forall|a: int, b: int| 0 <= a < b < out@.len() implies #[trigger] out@[a].timestamp
                    <= #[trigger] out@[b].timestamp by {
                    if a != p && b != p {
                        assert(old_out[at(a)].timestamp <= old_out[at(b)].timestamp);
                    } else if a == p {
                        assert(old_out[at(b)].timestamp > t);
                    } else {
                        assert(old_out[at(a)].timestamp <= t);
                    }
                }
                assert forall|m: u128| #[trigger] order.contains(m) <==> ids@.subrange(0, j + 1).contains(m) by {
                    let before = ids@.subrange(0, j as int);
                    let after = ids@.subrange(0, j + 1);
                    assert(after =~= before.push(id));
                    assert(order.contains(m) <==> (old_order.contains(m) || m == id));
                    assert(old_order.contains(m) <==> before.contains(m));
                    if m == id {
                        assert(after[j as int] == id);
                    }
                    if before.contains(m) {
                        let a = choose|a: int| 0 <= a < before.len() && before[a] == m;
                        assert(after[a] == m);
                    }
                    if after.contains(m) && m != id {
                        let a = choose|a: int| 0 <= a < after.len() && after[a] == m;
                        assert(before[a] == m);
                    }
                }
            }
            j = j + 1;
        }
        proof {
            assert(ids@.subrange(0, ids@.len() as int) =~= ids@);
            assert(order.to_set() =~= ids@.to_set());
        }
        out
    }
}

impl View for Mailbox {
    type V = MailboxView;

    closed spec fn view(&self) -> MailboxView {
        MailboxView {
            messages: Map::new(
                |id: u128| self.has(id),
                |id: u128| self.messages@[self.index_of(id)].view(),
            ),
            backlog: Set::new(|e: (u128, u128)| self.holds(e)),
        }
    }
}

/// Hands every message waiting for `device_id` to it, ordered by reception time,
/// and deletes them from its backlog in the same step, so that no message is ever
/// handed to a device twice. The stored messages stay as they are.
pub fn check_mailbox(mailbox: &mut Mailbox, device_id: u128) -> (r: Vec<MailboxReturn>)
    requires
        old(mailbox).wf(),
    ensures
        final(mailbox).wf(),
        backlog_stored(final(mailbox)@),
        final(mailbox)@.messages == old(mailbox)@.messages,
        final(mailbox)@.backlog == drained(old(mailbox)@.backlog, device_id),
        exists|order: Seq<u128>|
            in_delivery_order(r@, order, old(mailbox)@.messages) && #[trigger] order.to_set() == pending(
                old(mailbox)@.backlog,
                device_id,
            ),
{
    let ghost before = mailbox@;
    let taken = mailbox.take_entries(device_id);
    proof {
        assert forall|i: int| 0 <= i < taken@.len() implies mailbox@.messages.contains_key(#[trigger] taken@[i]) by {
            assert(taken@.contains(taken@[i]));
        }
        assert(taken@.to_set() =~= pending(before.backlog, device_id));
        mailbox.lemma_backlog_stored();
    }
    mailbox.collect_sorted(&taken)
}

/// Submits `msg` under a fresh random id at the current time; see `Mailbox::submit`.
/// Whatever the id and the time: on success the message is stored under an id
/// that was free, and in the backlog of exactly the devices that the recipient
/// owned; on failure (of the randomness source, of the clock, or an id that is
/// taken) it is an internal error and nothing was written.
pub fn add_message(
    mailbox: &mut Mailbox,
    devices: &DeviceRegistry,
    msg: NewMessage,
    rng: &ring::rand::SystemRandom,
) -> (r: Result<u128, HandlerError>)
    requires
        old(mailbox).wf(),
        devices.wf(),
    ensures
        final(mailbox).wf(),
        backlog_stored(final(mailbox)@),
        match r {
            Ok(id) => !old(mailbox)@.messages.contains_key(id) && final(mailbox)@.backlog == old(
                mailbox,
            )@.backlog.union(fan_out(devices@, msg.recipient, id)) && exists|now: i64|
                final(mailbox)@.messages == #[trigger] old(mailbox)@.messages.insert(
                    id,
                    received(msg, now),
                ),
            Err(e) => e is InternalError && final(mailbox)@ == old(mailbox)@,
        },
{
    let id = match random_uuid(rng) {
        None => {
            proof {
                mailbox.lemma_backlog_stored();
            }
            return Err(HandlerError::InternalError { error: InternalError::RNGError });
        },
        Some(id) => id,
    };
    let now = match now_seconds() {
        None => {
            proof {
                mailbox.lemma_backlog_stored();
            }
            return Err(HandlerError::InternalError { error: InternalError::JustAnError });
        },
        Some(t) => t,
    };
    let ghost m = msg;
    let ghost before = mailbox@;
    let r = mailbox.submit(devices, msg, id, now);
    proof {
        if r is Ok {
            assert(!before.messages.contains_key(id));
            assert(mailbox@.messages == before.messages.insert(id, received(m, now)));
            assert(exists|t: i64| mailbox@.messages == #[trigger] before.messages.insert(id, received(m, t)));
        }
    }
    r
}

impl NewMessage {
    /// The message that the verified identity `session` sends: its sender is the
    /// user who owns the device, never a value the client chose. A device with
    /// no owner cannot send.
    pub fn from_session(session: SessionInfo, recipient: u128, message_type: String, payload: String) -> (r:
        Result<NewMessage, HandlerError>)
        ensures
            match session.user_id {
                None => r == Err::<NewMessage, HandlerError>(HandlerError::AuthenticationError),
                Some(u) => r matches Ok(m) && m.sender == u && m.recipient == recipient
                    && m.message_type@ == message_type@ && m.payload@ == payload@,
            },
    {
        match session.user_id {
            None => Err(HandlerError::AuthenticationError),
            Some(u) => Ok(NewMessage { recipient, message_type, sender: u, payload }),
        }
    }
}

/// A message submitted to a recipient waits for every device that the recipient
/// owns. The first poll of such a device hands it out; after that poll it is
/// no longer waiting for that device, so a second poll cannot hand it out again,
/// while it still waits for every other device of the recipient.
pub proof fn lemma_at_most_once_delivery(
    devices: Map<u128, DeviceView>,
    backlog: Set<(u128, u128)>,
    recipient: u128,
    id: u128,
    device: u128,
    other: u128,
)
    requires
        owned_by(devices, recipient).contains(device),
    ensures
        ({
            let submitted = backlog.union(fan_out(devices, recipient, id));
            &&& pending(submitted, device).contains(id)
            &&& pending(drained(submitted, device), device) == Set::<u128>::empty()
            &&& other != device && owned_by(devices, recipient).contains(other) ==> pending(
                drained(submitted, device),
                other,
            ).contains(id)
        }),
{
    let submitted = backlog.union(fan_out(devices, recipient, id));
    assert(fan_out(devices, recipient, id).contains((device, id)));
    assert(pending(drained(submitted, device), device) =~= Set::<u128>::empty());
    if other != device && owned_by(devices, recipient).contains(other) {
        assert(fan_out(devices, recipient, id).contains((other, id)));
    }
}

/// Fan-out is fixed when a message is submitted: a device that the recipient did
/// not own at that moment never has the message waiting, whatever devices are
/// registered, whatever other messages are submitted and whatever mailboxes are
/// polled afterwards.
pub proof fn lemma_fan_out_frozen(
    mailbox: MailboxView,
    devices: Map<u128, DeviceView>,
    recipient: u128,
    id: u128,
    device: u128,
    later_devices: Map<u128, DeviceView>,
    later_recipient: u128,
    later_id: u128,
    polled: u128,
)
    requires
        backlog_stored(mailbox),
        !mailbox.messages.contains_key(id),
        !owned_by(devices, recipient).contains(device),
        later_id != id,
    ensures
        ({
            let submitted = mailbox.backlog.union(fan_out(devices, recipient, id));
            let later = submitted.union(fan_out(later_devices, later_recipient, later_id));
            &&& !pending(submitted, device).contains(id)
            &&& !pending(later, device).contains(id)
            &&& !pending(drained(later, polled), device).contains(id)
        }),
{
    assert(!mailbox.backlog.contains((device, id)));
}

} // verus!
