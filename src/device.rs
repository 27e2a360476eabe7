use vstd::prelude::*;
use crate::error::{HandlerError, InternalError};
use crate::system::random_uuid;

verus! {

/// What the registry knows of one device.
pub struct DeviceView {
    pub owner: Option<u128>,
    pub public_key: Seq<u8>,
}

/// One registered device: its verification key and, once a user was created on
/// it, its owner.
#[derive(Debug)]
struct DeviceRow {
    id: u128,
    owner: Option<u128>,
    public_key: Vec<u8>,
}

impl DeviceRow {
    spec fn view(&self) -> DeviceView {
        DeviceView { owner: self.owner, public_key: self.public_key@ }
    }
}

/// The devices known to the service, keyed by id.
#[derive(Debug)]
pub struct DeviceRegistry {
    rows: Vec<DeviceRow>,
}

/// The devices that `user` owns.
pub open spec fn owned_by(devices: Map<u128, DeviceView>, user: u128) -> Set<u128> {
    devices.dom().filter(|d: u128| devices[d].owner == Some(user))
}

impl DeviceRegistry {
    /// No two rows share an id.
    pub closed spec fn wf(&self) -> bool {
        forall|i: int, j: int|
            0 <= i < j < self.rows@.len() ==> #[trigger] self.rows@[i].id != #[trigger] self.rows@[j].id
    }

    closed spec fn has(&self, id: u128) -> bool {
        exists|i: int| 0 <= i < self.rows@.len() && #[trigger] self.rows@[i].id == id
    }

    closed spec fn index_of(&self, id: u128) -> int {
        choose|i: int| 0 <= i < self.rows@.len() && #[trigger] self.rows@[i].id == id
    }

    proof fn lemma_row(&self, i: int)
        requires
            self.wf(),
            0 <= i < self.rows@.len(),
        ensures
            self@.contains_key(self.rows@[i].id),
            self@[self.rows@[i].id] == self.rows@[i].view(),
    {
        let id = self.rows@[i].id;
        assert(self.has(id));
        let j = self.index_of(id);
        assert(self.rows@[j].id == id);
        if i < j {
            assert(self.rows@[i].id != self.rows@[j].id);
        } else if j < i {
            assert(self.rows@[j].id != self.rows@[i].id);
        }
    }

    pub fn new() -> (r: DeviceRegistry)
        ensures
            r.wf(),
            r@ == Map::<u128, DeviceView>::empty(),
    {
        let r = DeviceRegistry { rows: Vec::new() };
        assert(r@ =~= Map::<u128, DeviceView>::empty());
        r
    }

    fn find(&self, id: u128) -> (r: Option<usize>)
        requires
            self.wf(),
        ensures
            match r {
                Some(i) => i < self.rows@.len() && self.rows@[i as int].id == id,
                None => !self@.contains_key(id),
            },
    {
        let mut i: usize = 0;
        while i < self.rows.len()
            invariant
                i <= self.rows@.len(),
                forall|k: int| 0 <= k < i ==> #[trigger] self.rows@[k].id != id,
            decreases self.rows@.len() - i,
        {
            if self.rows[i].id == id {
                return Some(i);
            }
            i = i + 1;
        }
        None
    }

    /// The public key and the owner of device `id`, if it is registered.
    pub fn lookup(&self, id: u128) -> (r: Option<(Vec<u8>, Option<u128>)>)
        requires
            self.wf(),
        ensures
            match r {
                Some((key, owner)) => self@.contains_key(id) && key@ == self@[id].public_key
                    && owner == self@[id].owner,
                None => !self@.contains_key(id),
            },
    {
        match self.find(id) {
            Some(i) => {
                proof {
                    self.lemma_row(i as int);
                }
                let key = self.rows[i].public_key.clone();
                assert(key@ =~= self.rows@[i as int].public_key@);
                Some((key, self.rows[i].owner))
            },
            None => None,
        }
    }

    /// Adds a device with no owner under `id`; an id already taken is refused by
    /// the store and nothing changes.
    pub fn register(&mut self, id: u128, public_key: Vec<u8>) -> (r: Result<u128, HandlerError>)
        requires
            old(self).wf(),
        ensures
            final(self).wf(),
            old(self)@.contains_key(id) ==> r == Err::<u128, HandlerError>(
                HandlerError::InternalError { error: InternalError::DatabaseError },
            ) && final(self)@ == old(self)@,
            !old(self)@.contains_key(id) ==> r == Ok::<u128, HandlerError>(id) && final(self)@
                == old(self)@.insert(id, DeviceView { owner: None, public_key: public_key@ }),
    {
        if self.find(id).is_some() {
            return Err(HandlerError::InternalError { error: InternalError::DatabaseError });
        }
        let ghost old_self = *self;
        self.rows.push(DeviceRow { id, owner: None, public_key });
        proof {
            let n = old_self.rows@.len();
            assert forall|i: int, j: int| 0 <= i < j < self.rows@.len() implies #[trigger] self.rows@[i].id
                != #[trigger] self.rows@[j].id by {
                if j == n {
                    assert(!old_self.has(self.rows@[i].id) || old_self.rows@[i].id != id);
                    if self.rows@[i].id == id {
                        assert(old_self.rows@[i].id == id);
                        assert(old_self.has(id));
                        old_self.lemma_row(i);
                    }
                } else {
                    assert(old_self.rows@[i].id != old_self.rows@[j].id);
                }
            }
            let target = old_self@.insert(id, DeviceView { owner: None, public_key: public_key@ });
            assert forall|d: u128| #[trigger] self@.contains_key(d) == target.contains_key(d) by {
                if self.has(d) {
                    let k = choose|k: int| 0 <= k < self.rows@.len() && #[trigger] self.rows@[k].id == d;
                    if k < n {
                        assert(old_self.rows@[k].id == d);
                        assert(old_self.has(d));
                    }
                }
                if old_self.has(d) {
                    let k = choose|k: int| 0 <= k < old_self.rows@.len() && #[trigger] old_self.rows@[k].id == d;
                    assert(self.rows@[k].id == d);
                }
                if d == id {
                    assert(self.rows@[n as int].id == id);
                }
            }
            assert forall|d: u128| #[trigger] self@.contains_key(d) implies self@[d] == target[d] by {
                let k = choose|k: int| 0 <= k < self.rows@.len() && #[trigger] self.rows@[k].id == d;
                self.lemma_row(k);
                if k < n {
                    old_self.lemma_row(k);
                }
            }
            assert(self@ =~= target);
        }
        Ok(id)
    }

    /// Records that device `id` belongs to `user`; false when no such device exists.
    pub fn set_owner(&mut self, id: u128, user: u128) -> (r: bool)
        requires
            old(self).wf(),
        ensures
            final(self).wf(),
            r == old(self)@.contains_key(id),
            r ==> final(self)@ == old(self)@.insert(
                id,
                DeviceView { owner: Some(user), public_key: old(self)@[id].public_key },
            ),
            !r ==> final(self)@ == old(self)@,
    {
        match self.find(id) {
            None => false,
            Some(i) => {
                let ghost old_self = *self;
                proof {
                    old_self.lemma_row(i as int);
                }
                let key = self.rows[i].public_key.clone();
                assert(key@ =~= old_self.rows@[i as int].public_key@);
                self.rows.set(i, DeviceRow { id, owner: Some(user), public_key: key });
                proof {
                    let target = old_self@.insert(
                        id,
                        DeviceView { owner: Some(user), public_key: old_self@[id].public_key },
                    );
                    assert forall|a: int, b: int| 0 <= a < b < self.rows@.len() implies #[trigger] self.rows@[a].id
                        != #[trigger] self.rows@[b].id by {
                        assert(old_self.rows@[a].id != old_self.rows@[b].id);
                    }
                    assert forall|d: u128| #[trigger] self@.contains_key(d) == target.contains_key(d) by {
                        if self.has(d) {
                            let k = choose|k: int| 0 <= k < self.rows@.len() && #[trigger] self.rows@[k].id == d;
                            assert(old_self.rows@[k].id == d);
                        }
                        if old_self.has(d) {
                            let k = choose|k: int| 0 <= k < old_self.rows@.len() && #[trigger] old_self.rows@[k].id == d;
                            assert(self.rows@[k].id == d);
                        }
                    }
                    assert forall|d: u128| #[trigger] self@.contains_key(d) implies self@[d] == target[d] by {
                        let k = choose|k: int| 0 <= k < self.rows@.len() && #[trigger] self.rows@[k].id == d;
                        self.lemma_row(k);
                        old_self.lemma_row(k);
                    }
                    assert(self@ =~= target);
                }
                true
            },
        }
    }
}

impl DeviceRegistry {
    /// The ids of the devices that `user` owns, each once.
    pub fn devices_of(&self, user: u128) -> (r: Vec<u128>)
        requires
            self.wf(),
        ensures
            r@.no_duplicates(),
            forall|d: u128| r@.contains(d) <==> #[trigger] owned_by(self@, user).contains(d),
    {
        let mut r: Vec<u128> = Vec::new();
        let ghost mut src: Seq<int> = Seq::empty();
        let mut i: usize = 0;
        while i < self.rows.len()
            invariant
                self.wf(),
                i <= self.rows@.len(),
                r@.no_duplicates(),
                src.len() == r@.len(),
                forall|k: int|
                    0 <= k < i && #[trigger] self.rows@[k].owner == Some(user) ==> r@.contains(
                        self.rows@[k].id,
                    ),
                forall|a: int|
                    0 <= a < r@.len() ==> 0 <= #[trigger] src[a] < i && self.rows@[src[a]].id == r@[a]
                        && self.rows@[src[a]].owner == Some(user),
            decreases self.rows@.len() - i,
        {
            if self.rows[i].owner == Some(user) {
                let ghost before = r@;
                proof {
                    assert forall|a: int| 0 <= a < before.len() implies before[a] != self.rows@[i as int].id by {
                        assert(self.rows@[src[a]].id != self.rows@[i as int].id);
                    }
                }
                r.push(self.rows[i].id);
                proof {
                    src = src.push(i as int);
                    assert forall|k: int|
                        0 <= k < i + 1 && #[trigger] self.rows@[k].owner == Some(user) implies r@.contains(
                        self.rows@[k].id,
                    ) by {
                        if k < i {
                            assert(before.contains(self.rows@[k].id));
                            let a = choose|a: int| 0 <= a < before.len() && before[a] == self.rows@[k].id;
                            assert(r@[a] == before[a]);
                        } else {
                            assert(r@[before.len() as int] == self.rows@[k].id);
                        }
                    }
                }
            }
            i = i + 1;
        }
        proof {
            assert forall|d: u128| r@.contains(d) <==> #[trigger] owned_by(self@, user).contains(d) by {
                if r@.contains(d) {
                    let a = choose|a: int| 0 <= a < r@.len() && r@[a] == d;
                    self.lemma_row(src[a]);
                }
                if owned_by(self@, user).contains(d) {
                    assert(self.has(d));
                    let k = self.index_of(d);
                    assert(self.rows@[k].id == d);
                    self.lemma_row(k);
                }
            }
        }
        r
    }
}

/// Registers a device with `public_key` under a fresh random identifier, with no
/// owner yet. A failure of the randomness source is an internal error; so is an
/// identifier that is already taken. Either way nothing is written.
pub fn create_device(
    registry: &mut DeviceRegistry,
    public_key: &Vec<u8>,
    rng: &ring::rand::SystemRandom,
) -> (r: Result<u128, HandlerError>)
    requires
        old(registry).wf(),
    ensures
        final(registry).wf(),
        match r {
            Ok(id) => !old(registry)@.contains_key(id) && final(registry)@ == old(registry)@.insert(
                id,
                DeviceView { owner: None, public_key: public_key@ },
            ),
            Err(e) => (e == (HandlerError::InternalError { error: InternalError::DatabaseError })
                || e == (HandlerError::InternalError { error: InternalError::RNGError }))
                && final(registry)@ == old(registry)@,
        },
{
    let id = match random_uuid(rng) {
        None => {
            return Err(HandlerError::InternalError { error: InternalError::RNGError });
        },
        Some(id) => id,
    };
    let key = public_key.clone();
    assert(key@ =~= public_key@);
    registry.register(id, key)
}

impl View for DeviceRegistry {
    type V = Map<u128, DeviceView>;

    closed spec fn view(&self) -> Map<u128, DeviceView> {
        Map::new(|id: u128| self.has(id), |id: u128| self.rows@[self.index_of(id)].view())
    }
}

} // verus!
