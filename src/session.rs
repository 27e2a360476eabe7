use vstd::prelude::*;
use crate::device::{DeviceRegistry, DeviceView};
use crate::error::{Entity, HandlerError, InternalError};
use crate::keys::{ed25519_accepts, verify};
use crate::system::{fill_random, now_seconds};

verus! {

/// How long a nonce stays valid after it was issued or rotated, in seconds.
pub const SESSION_DURATION: i64 = 3600;

/// The length of a nonce in bytes.
pub const NONCE_LEN: usize = 16;

/// The latest time, in seconds, at which an expiry can still be computed.
pub const LATEST_TIME: i64 = i64::MAX - SESSION_DURATION;

/// Whether `a` and `b` hold the same bytes.
pub fn bytes_equal(a: &[u8], b: &[u8]) -> (r: bool)
    ensures
        r == (a@ == b@),
{
    if a.len() != b.len() {
        return false;
    }
    let mut i: usize = 0;
    while i < a.len()
        invariant
            a@.len() == b@.len(),
            i <= a@.len(),
            forall|k: int| 0 <= k < i ==> a@[k] == b@[k],
        decreases a@.len() - i,
    {
        if a[i] != b[i] {
            return false;
        }
        i = i + 1;
    }
    assert(a@ =~= b@);
    true
}

/// One outstanding challenge: a nonce and the time after which it is no longer accepted.
#[derive(Debug)]
struct SessionRow {
    nonce: Vec<u8>,
    expires: i64,
}

/// The table of outstanding challenges; no two of them share a nonce.
#[derive(Debug)]
pub struct SessionStore {
    rows: Vec<SessionRow>,
}

impl SessionStore {
    /// No two rows share a nonce.
    pub closed spec fn wf(&self) -> bool {
        forall|i: int, j: int|
            0 <= i < j < self.rows@.len() ==> #[trigger] self.rows@[i].nonce@
                != #[trigger] self.rows@[j].nonce@
    }

    closed spec fn has(&self, n: Seq<u8>) -> bool {
        exists|i: int| 0 <= i < self.rows@.len() && #[trigger] self.rows@[i].nonce@ == n
    }

    closed spec fn index_of(&self, n: Seq<u8>) -> int {
        choose|i: int| 0 <= i < self.rows@.len() && #[trigger] self.rows@[i].nonce@ == n
    }

    proof fn lemma_row(&self, i: int)
        requires
            self.wf(),
            0 <= i < self.rows@.len(),
        ensures
            self@.contains_key(self.rows@[i].nonce@),
            self@[self.rows@[i].nonce@] == self.rows@[i].expires,
    {
        let n = self.rows@[i].nonce@;
        assert(self.has(n));
        let j = self.index_of(n);
        if i < j {
            assert(self.rows@[i].nonce@ != self.rows@[j].nonce@);
        } else if j < i {
            assert(self.rows@[j].nonce@ != self.rows@[i].nonce@);
        }
    }

    pub fn new() -> (r: SessionStore)
        ensures
            r.wf(),
            r@ == Map::<Seq<u8>, i64>::empty(),
    {
        let r = SessionStore { rows: Vec::new() };
        assert(r@ =~= Map::<Seq<u8>, i64>::empty());
        r
    }

    fn find(&self, nonce: &[u8]) -> (r: Option<usize>)
        requires
            self.wf(),
        ensures
            match r {
                Some(i) => i < self.rows@.len() && self.rows@[i as int].nonce@ == nonce@,
                None => !self@.contains_key(nonce@),
            },
    {
        let mut i: usize = 0;
        while i < self.rows.len()
            invariant
                i <= self.rows@.len(),
                forall|k: int| 0 <= k < i ==> #[trigger] self.rows@[k].nonce@ != nonce@,
            decreases self.rows@.len() - i,
        {
            if bytes_equal(self.rows[i].nonce.as_slice(), nonce) {
                return Some(i);
            }
            i = i + 1;
        }
        None
    }

    /// The expiry of the session that holds `nonce`, if there is one.
    pub fn lookup(&self, nonce: &[u8]) -> (r: Option<i64>)
        requires
            self.wf(),
        ensures
            r == (if self@.contains_key(nonce@) {
                Some(self@[nonce@])
            } else {
                None::<i64>
            }),
    {
        match self.find(nonce) {
            Some(i) => {
                proof {
                    self.lemma_row(i as int);
                }
                Some(self.rows[i].expires)
            },
            None => None,
        }
    }

    /// Adds a session; a nonce that is already held is refused by the store and
    /// nothing changes.
    pub fn insert(&mut self, nonce: Vec<u8>, expires: i64) -> (r: Result<(), HandlerError>)
        requires
            old(self).wf(),
        ensures
            final(self).wf(),
            old(self)@.contains_key(nonce@) ==> r == Err::<(), HandlerError>(
                HandlerError::InternalError { error: InternalError::DatabaseError },
            ) && final(self)@ == old(self)@,
            !old(self)@.contains_key(nonce@) ==> r is Ok && final(self)@ == old(self)@.insert(
                nonce@,
                expires,
            ),
    {
        if self.find(nonce.as_slice()).is_some() {
            return Err(HandlerError::InternalError { error: InternalError::DatabaseError });
        }
        let ghost old_self = *self;
        let ghost n = nonce@;
        self.rows.push(SessionRow { nonce, expires });
        proof {
            let len = old_self.rows@.len();
            assert forall|i: int, j: int| 0 <= i < j < self.rows@.len() implies #[trigger] self.rows@[i].nonce@
                != #[trigger] self.rows@[j].nonce@ by {
                if j == len {
                    if self.rows@[i].nonce@ == n {
                        old_self.lemma_row(i);
                    }
                } else {
                    assert(old_self.rows@[i].nonce@ != old_self.rows@[j].nonce@);
                }
            }
            let target = old_self@.insert(n, expires);
            assert forall|m: Seq<u8>| #[trigger] self@.contains_key(m) == target.contains_key(m) by {
                if self.has(m) {
                    let k = choose|k: int| 0 <= k < self.rows@.len() && #[trigger] self.rows@[k].nonce@ == m;
                    if k < len {
                        assert(old_self.rows@[k].nonce@ == m);
                    }
                }
                if old_self.has(m) {
                    let k = choose|k: int|
                        0 <= k < old_self.rows@.len() && #[trigger] old_self.rows@[k].nonce@ == m;
                    assert(self.rows@[k].nonce@ == m);
                }
                if m == n {
                    assert(self.rows@[len as int].nonce@ == n);
                }
            }
            assert forall|m: Seq<u8>| #[trigger] self@.contains_key(m) implies self@[m] == target[m] by {
                let k = choose|k: int| 0 <= k < self.rows@.len() && #[trigger] self.rows@[k].nonce@ == m;
                self.lemma_row(k);
                if k < len {
                    old_self.lemma_row(k);
                }
            }
            assert(self@ =~= target);
        }
        Ok(())
    }
}

impl SessionStore {
    /// Deletes the session that holds `nonce`, if there is one.
    pub fn remove(&mut self, nonce: &[u8])
        requires
            old(self).wf(),
        ensures
            final(self).wf(),
            final(self)@ == old(self)@.remove(nonce@),
    {
        match self.find(nonce) {
            None => {
                assert(self@ =~= self@.remove(nonce@));
            },
            Some(i) => {
                let ghost old_self = *self;
                let _ = self.rows.remove(i);
                proof {
                    let target = old_self@.remove(nonce@);
                    let shift = |k: int| if k < i { k } else { k + 1 };
                    assert forall|a: int, b: int| 0 <= a < b < self.rows@.len() implies #[trigger] self.rows@[a].nonce@
                        != #[trigger] self.rows@[b].nonce@ by {
                        assert(self.rows@[a] == old_self.rows@[shift(a)]);
                        assert(self.rows@[b] == old_self.rows@[shift(b)]);
                        assert(old_self.rows@[shift(a)].nonce@ != old_self.rows@[shift(b)].nonce@);
                    }
                    assert forall|m: Seq<u8>| #[trigger] self@.contains_key(m) == target.contains_key(m) by {
                        if self.has(m) {
                            let k = choose|k: int| 0 <= k < self.rows@.len() && #[trigger] self.rows@[k].nonce@ == m;
                            assert(self.rows@[k] == old_self.rows@[shift(k)]);
                            assert(old_self.rows@[shift(k)].nonce@ == m);
                            if m == nonce@ {
                                assert(old_self.rows@[i as int].nonce@ != old_self.rows@[shift(k)].nonce@
                                    || i == shift(k));
                            }
                        }
                        if old_self.has(m) && m != nonce@ {
                            let k = choose|k: int|
                                0 <= k < old_self.rows@.len() && #[trigger] old_self.rows@[k].nonce@ == m;
                            let k2 = if k < i { k } else { k - 1 };
                            assert(self.rows@[k2] == old_self.rows@[k]);
                            assert(self.rows@[k2].nonce@ == m);
                        }
                    }
                    assert forall|m: Seq<u8>| #[trigger] self@.contains_key(m) implies self@[m] == target[m] by {
                        let k = choose|k: int| 0 <= k < self.rows@.len() && #[trigger] self.rows@[k].nonce@ == m;
                        self.lemma_row(k);
                        assert(self.rows@[k] == old_self.rows@[shift(k)]);
                        old_self.lemma_row(shift(k));
                    }
                    assert(self@ =~= target);
                }
            },
        }
    }

    /// The conditional write that consumes a nonce: the session that still holds
    /// `original` is given `new_nonce` and a new expiry in one step. When no
    /// session holds `original` any more (another request consumed it), nothing
    /// is written and the session is reported invalid; a `new_nonce` that is
    /// already held is refused by the store.
    pub fn swap_nonce(&mut self, original: &[u8], new_nonce: Vec<u8>, expires: i64) -> (r: Result<
        (),
        HandlerError,
    >)
        requires
            old(self).wf(),
        ensures
            final(self).wf(),
            r == swap_outcome(old(self)@, original@, new_nonce@),
            final(self)@ == (if r is Ok {
                swapped(old(self)@, original@, new_nonce@, expires)
            } else {
                old(self)@
            }),
    {
        let i = match self.find(original) {
            None => {
                return Err(HandlerError::SessionInvalid);
            },
            Some(i) => i,
        };
        if self.find(new_nonce.as_slice()).is_some() {
            return Err(HandlerError::InternalError { error: InternalError::DatabaseError });
        }
        let ghost old_self = *self;
        let ghost n = new_nonce@;
        self.rows.set(i, SessionRow { nonce: new_nonce, expires });
        proof {
            let target = swapped(old_self@, original@, n, expires);
            old_self.lemma_row(i as int);
            assert forall|a: int, b: int| 0 <= a < b < self.rows@.len() implies #[trigger] self.rows@[a].nonce@
                != #[trigger] self.rows@[b].nonce@ by {
                if a == i {
                    old_self.lemma_row(b);
                } else if b == i {
                    old_self.lemma_row(a);
                } else {
                    assert(old_self.rows@[a].nonce@ != old_self.rows@[b].nonce@);
                }
            }
            assert forall|m: Seq<u8>| #[trigger] self@.contains_key(m) == target.contains_key(m) by {
                if self.has(m) {
                    let k = choose|k: int| 0 <= k < self.rows@.len() && #[trigger] self.rows@[k].nonce@ == m;
                    if k != i {
                        assert(old_self.rows@[k].nonce@ == m);
                        assert(old_self.rows@[k].nonce@ != old_self.rows@[i as int].nonce@);
                    }
                }
                if old_self.has(m) && m != original@ {
                    let k = choose|k: int|
                        0 <= k < old_self.rows@.len() && #[trigger] old_self.rows@[k].nonce@ == m;
                    assert(k != i);
                    assert(self.rows@[k].nonce@ == m);
                }
                if m == n {
                    assert(self.rows@[i as int].nonce@ == n);
                }
            }
            assert forall|m: Seq<u8>| #[trigger] self@.contains_key(m) implies self@[m] == target[m] by {
                let k = choose|k: int| 0 <= k < self.rows@.len() && #[trigger] self.rows@[k].nonce@ == m;
                self.lemma_row(k);
                if k != i {
                    old_self.lemma_row(k);
                }
            }
            assert(self@ =~= target);
        }
        Ok(())
    }
}

/// What the conditional write of a nonce reports: the session is invalid when
/// `original` is no longer held, and the store refuses a `new_nonce` that is.
pub open spec fn swap_outcome(sessions: Map<Seq<u8>, i64>, original: Seq<u8>, new_nonce: Seq<u8>) -> Result<
    (),
    HandlerError,
> {
    if !sessions.contains_key(original) {
        Err(HandlerError::SessionInvalid)
    } else if sessions.contains_key(new_nonce) {
        Err(HandlerError::InternalError { error: InternalError::DatabaseError })
    } else {
        Ok(())
    }
}

/// The sessions after `original` was replaced by `new_nonce`, valid until `expires`.
pub open spec fn swapped(
    sessions: Map<Seq<u8>, i64>,
    original: Seq<u8>,
    new_nonce: Seq<u8>,
    expires: i64,
) -> Map<Seq<u8>, i64> {
    sessions.remove(original).insert(new_nonce, expires)
}

impl View for SessionStore {
    type V = Map<Seq<u8>, i64>;

    closed spec fn view(&self) -> Map<Seq<u8>, i64> {
        Map::new(|n: Seq<u8>| self.has(n), |n: Seq<u8>| self.rows@[self.index_of(n)].expires)
    }
}


/// The credentials that a protected request presents.
#[derive(Debug)]
pub struct SessionRequest {
    pub device_id: u128,
    pub nonce: Vec<u8>,
    pub signed_nonce: Vec<u8>,
}

/// The verified identity behind a request: the device, and its owner if it has one.
#[derive(Debug, Clone, Copy, PartialEq, Eq, Structural)]
pub struct SessionInfo {
    pub device_id: u128,
    pub user_id: Option<u128>,
}

/// The nonce that the client must present with its next request.
#[derive(Debug)]
pub struct SessionResponse {
    pub nonce: Vec<u8>,
}

/// Whether `nonce` is held by a session that has not expired at `now`.
pub open spec fn is_live(sessions: Map<Seq<u8>, i64>, nonce: Seq<u8>, now: i64) -> bool {
    sessions.contains_key(nonce) && sessions[nonce] > now
}

/// The checks that precede a rotation, in their order: the nonce must be held
/// and unexpired, the device registered, and the signature valid under its key.
pub open spec fn authentication(
    sessions: Map<Seq<u8>, i64>,
    devices: Map<u128, DeviceView>,
    nonce: Seq<u8>,
    device_id: u128,
    signature: Seq<u8>,
    now: i64,
) -> Result<SessionInfo, HandlerError> {
    if !is_live(sessions, nonce, now) {
        Err(HandlerError::SessionInvalid)
    } else if !devices.contains_key(device_id) {
        Err(HandlerError::UnknownEntity { entity: Entity::Device { uuid: device_id } })
    } else if !ed25519_accepts(devices[device_id].public_key, nonce, signature) {
        Err(HandlerError::AuthenticationError)
    } else {
        Ok(SessionInfo { device_id, user_id: devices[device_id].owner })
    }
}

/// The sessions after the checks: an expired session that was presented is deleted.
pub open spec fn after_authentication(sessions: Map<Seq<u8>, i64>, nonce: Seq<u8>, now: i64) -> Map<
    Seq<u8>,
    i64,
> {
    if sessions.contains_key(nonce) && sessions[nonce] <= now {
        sessions.remove(nonce)
    } else {
        sessions
    }
}

/// The expiry of a nonce issued or rotated at `now`.
pub open spec fn expiry_at(now: i64) -> i64 {
    (now + SESSION_DURATION) as i64
}

/// What verifying a request and rotating its nonce to `new_nonce` at `now` returns.
pub open spec fn rotation(
    sessions: Map<Seq<u8>, i64>,
    devices: Map<u128, DeviceView>,
    nonce: Seq<u8>,
    device_id: u128,
    signature: Seq<u8>,
    new_nonce: Seq<u8>,
    now: i64,
) -> Result<SessionInfo, HandlerError> {
    match authentication(sessions, devices, nonce, device_id, signature, now) {
        Err(e) => Err(e),
        Ok(info) => match swap_outcome(sessions, nonce, new_nonce) {
            Ok(_) => Ok(info),
            Err(e) => Err(e),
        },
    }
}

/// The sessions after verifying a request and rotating its nonce to `new_nonce` at `now`.
pub open spec fn after_rotation(
    sessions: Map<Seq<u8>, i64>,
    devices: Map<u128, DeviceView>,
    nonce: Seq<u8>,
    device_id: u128,
    signature: Seq<u8>,
    new_nonce: Seq<u8>,
    now: i64,
) -> Map<Seq<u8>, i64> {
    if authentication(sessions, devices, nonce, device_id, signature, now) is Err {
        after_authentication(sessions, nonce, now)
    } else if swap_outcome(sessions, nonce, new_nonce) is Ok {
        swapped(sessions, nonce, new_nonce, expiry_at(now))
    } else {
        sessions
    }
}

impl SessionStore {
    /// Starts a session: `nonce` is accepted until `SESSION_DURATION` seconds after
    /// `now`. A nonce that is already held is refused by the store.
    pub fn issue(&mut self, nonce: Vec<u8>, now: i64) -> (r: Result<(), HandlerError>)
        requires
            old(self).wf(),
            now <= LATEST_TIME,
        ensures
            final(self).wf(),
            old(self)@.contains_key(nonce@) ==> r == Err::<(), HandlerError>(
                HandlerError::InternalError { error: InternalError::DatabaseError },
            ) && final(self)@ == old(self)@,
            !old(self)@.contains_key(nonce@) ==> r is Ok && final(self)@ == old(self)@.insert(
                nonce@,
                expiry_at(now),
            ),
    {
        self.insert(nonce, now + SESSION_DURATION)
    }

    /// The checks of a request, without the rotation: the session that holds the
    /// nonce must be live (an expired one is deleted), the device registered, and
    /// the signature valid under the device's key.
    pub fn authenticate(&mut self, devices: &DeviceRegistry, req: &SessionRequest, now: i64) -> (r:
        Result<SessionInfo, HandlerError>)
        requires
            old(self).wf(),
            devices.wf(),
        ensures
            final(self).wf(),
            r == authentication(
                old(self)@,
                devices@,
                req.nonce@,
                req.device_id,
                req.signed_nonce@,
                now,
            ),
            final(self)@ == after_authentication(old(self)@, req.nonce@, now),
    {
        let expires = match self.lookup(req.nonce.as_slice()) {
            None => {
                return Err(HandlerError::SessionInvalid);
            },
            Some(e) => e,
        };
        if expires <= now {
            self.remove(req.nonce.as_slice());
            return Err(HandlerError::SessionInvalid);
        }
        let (public_key, owner) = match devices.lookup(req.device_id) {
            None => {
                return Err(
                    HandlerError::UnknownEntity { entity: Entity::Device { uuid: req.device_id } },
                );
            },
            Some(found) => found,
        };
        match verify(req.nonce.as_slice(), req.signed_nonce.as_slice(), public_key.as_slice()) {
            Err(_) => Err(HandlerError::AuthenticationError),
            Ok(()) => Ok(SessionInfo { device_id: req.device_id, user_id: owner }),
        }
    }
}

/// Verifies a request and rotates its nonce to `new_nonce`, valid for
/// `SESSION_DURATION` seconds after `now`. On success it returns the device, its
/// owner if any, and the new nonce.
pub fn verify_and_rotate(
    store: &mut SessionStore,
    devices: &DeviceRegistry,
    req: &SessionRequest,
    new_nonce: Vec<u8>,
    now: i64,
) -> (r: Result<(u128, Option<u128>, Vec<u8>), HandlerError>)
    requires
        old(store).wf(),
        devices.wf(),
        now <= LATEST_TIME,
    ensures
        final(store).wf(),
        match r {
            Ok((device_id, user_id, n)) => n@ == new_nonce@ && rotation(
                old(store)@,
                devices@,
                req.nonce@,
                req.device_id,
                req.signed_nonce@,
                new_nonce@,
                now,
            ) == Ok::<SessionInfo, HandlerError>(SessionInfo { device_id, user_id }),
            Err(e) => rotation(
                old(store)@,
                devices@,
                req.nonce@,
                req.device_id,
                req.signed_nonce@,
                new_nonce@,
                now,
            ) == Err::<SessionInfo, HandlerError>(e),
        },
        final(store)@ == after_rotation(
            old(store)@,
            devices@,
            req.nonce@,
            req.device_id,
            req.signed_nonce@,
            new_nonce@,
            now,
        ),
{
    let info = match store.authenticate(devices, req, now) {
        Err(e) => {
            return Err(e);
        },
        Ok(info) => info,
    };
    let kept = new_nonce.clone();
    assert(kept@ =~= new_nonce@);
    match store.swap_nonce(req.nonce.as_slice(), new_nonce, now + SESSION_DURATION) {
        Err(e) => Err(e),
        Ok(()) => Ok((info.device_id, info.user_id, kept)),
    }
}

/// Verifies a request against the current time and rotates its nonce to a fresh
/// random one: `verify_and_rotate` with the time the clock reads and a
/// `NONCE_LEN`-byte nonce drawn beforehand. A clock that cannot be read, or a
/// randomness source that fails, rejects the request as an internal error before
/// anything is checked or written. Otherwise the outcome and the sessions after
/// it are exactly what `rotation` and `after_rotation` give at that time and for
/// that nonce.
pub fn check_session(
    store: &mut SessionStore,
    devices: &DeviceRegistry,
    req: &SessionRequest,
    rng: &ring::rand::SystemRandom,
) -> (r: Result<(u128, Option<u128>, Vec<u8>), HandlerError>)
    requires
        old(store).wf(),
        devices.wf(),
    ensures
        final(store).wf(),
        match r {
            Ok((device_id, user_id, n)) => n@.len() == NONCE_LEN && exists|now: i64|
                now <= LATEST_TIME && #[trigger] rotation(
                    old(store)@,
                    devices@,
                    req.nonce@,
                    req.device_id,
                    req.signed_nonce@,
                    n@,
                    now,
                ) == Ok::<SessionInfo, HandlerError>(SessionInfo { device_id, user_id })
                    && final(store)@ == swapped(old(store)@, req.nonce@, n@, expiry_at(now)),
            Err(e) => (e is InternalError && final(store)@ == old(store)@) || exists|
                now: i64,
                n: Seq<u8>,
            |
                now <= LATEST_TIME && n.len() == NONCE_LEN && #[trigger] rotation(
                    old(store)@,
                    devices@,
                    req.nonce@,
                    req.device_id,
                    req.signed_nonce@,
                    n,
                    now,
                ) == Err::<SessionInfo, HandlerError>(e) && final(store)@ == after_rotation(
                    old(store)@,
                    devices@,
                    req.nonce@,
                    req.device_id,
                    req.signed_nonce@,
                    n,
                    now,
                ),
        },
{
    let now = match now_seconds() {
        None => {
            return Err(HandlerError::InternalError { error: InternalError::JustAnError });
        },
        Some(t) => t,
    };
    if now > LATEST_TIME {
        return Err(HandlerError::InternalError { error: InternalError::JustAnError });
    }
    let mut new_nonce: Vec<u8> = vec![0u8; NONCE_LEN];
    if !fill_random(rng, &mut new_nonce) {
        return Err(HandlerError::InternalError { error: InternalError::RNGError });
    }
    let ghost start = store@;
    let ghost fresh = new_nonce@;
    let r = verify_and_rotate(store, devices, req, new_nonce, now);
    proof {
        if r is Ok {
            let n = r->Ok_0.2;
            assert(n@ == fresh);
            assert(store@ == swapped(start, req.nonce@, n@, expiry_at(now)));
        } else {
            let e = r->Err_0;
            assert(rotation(start, devices@, req.nonce@, req.device_id, req.signed_nonce@, fresh, now)
                == Err::<SessionInfo, HandlerError>(e));
        }
    }
    r
}

/// Bootstraps a session: draws a fresh `NONCE_LEN`-byte nonce, stores it with an
/// expiry `SESSION_DURATION` seconds after the time the clock reads, and returns
/// the nonce and its expiry. Every failure is internal and writes nothing.
pub fn new_session_request(store: &mut SessionStore, rng: &ring::rand::SystemRandom) -> (r: Result<
    (Vec<u8>, i64),
    HandlerError,
>)
    requires
        old(store).wf(),
    ensures
        final(store).wf(),
        match r {
            Ok((n, expires)) => n@.len() == NONCE_LEN && !old(store)@.contains_key(n@)
                && final(store)@ == old(store)@.insert(n@, expires) && exists|now: i64|
                now <= LATEST_TIME && expires == #[trigger] expiry_at(now),
            Err(e) => e is InternalError && final(store)@ == old(store)@,
        },
{
    let mut nonce: Vec<u8> = vec![0u8; NONCE_LEN];
    if !fill_random(rng, &mut nonce) {
        return Err(HandlerError::InternalError { error: InternalError::RNGError });
    }
    let now = match now_seconds() {
        None => {
            return Err(HandlerError::InternalError { error: InternalError::JustAnError });
        },
        Some(t) => t,
    };
    if now > LATEST_TIME {
        return Err(HandlerError::InternalError { error: InternalError::JustAnError });
    }
    let kept = nonce.clone();
    assert(kept@ =~= nonce@);
    match store.issue(nonce, now) {
        Err(e) => Err(e),
        Ok(()) => {
            assert(expiry_at(now) == now + SESSION_DURATION);
            Ok((kept, now + SESSION_DURATION))
        },
    }
}

/// A nonce authenticates at most once. After a request that presented `nonce`
/// was rotated, the new nonce differs from it and every later request that
/// presents `nonce` is rejected as an invalid session. When two requests both
/// passed the checks against the same sessions, the conditional write of the
/// second fails once the first one has been made, and the session is reported
/// invalid to it.
pub proof fn lemma_nonce_single_use(
    sessions: Map<Seq<u8>, i64>,
    devices: Map<u128, DeviceView>,
    nonce: Seq<u8>,
    device_id: u128,
    signature: Seq<u8>,
    first_nonce: Seq<u8>,
    first_now: i64,
    other_device: u128,
    other_signature: Seq<u8>,
    second_nonce: Seq<u8>,
    second_now: i64,
)
    requires
        rotation(sessions, devices, nonce, device_id, signature, first_nonce, first_now) is Ok,
    ensures
        first_nonce != nonce,
        rotation(
            after_rotation(sessions, devices, nonce, device_id, signature, first_nonce, first_now),
            devices,
            nonce,
            other_device,
            other_signature,
            second_nonce,
            second_now,
        ) == Err::<SessionInfo, HandlerError>(HandlerError::SessionInvalid),
        swap_outcome(swapped(sessions, nonce, first_nonce, expiry_at(first_now)), nonce, second_nonce)
            == Err::<(), HandlerError>(HandlerError::SessionInvalid),
{
    let after = swapped(sessions, nonce, first_nonce, expiry_at(first_now));
    assert(!after.contains_key(nonce));
}

/// A session whose expiry has passed is rejected as invalid the first time it is
/// presented, is deleted then, and is rejected as invalid again (never as an
/// unknown entity) whenever its nonce is presented afterwards.
pub proof fn lemma_expired_session(
    sessions: Map<Seq<u8>, i64>,
    devices: Map<u128, DeviceView>,
    nonce: Seq<u8>,
    device_id: u128,
    signature: Seq<u8>,
    new_nonce: Seq<u8>,
    now: i64,
    later_device: u128,
    later_signature: Seq<u8>,
    later_nonce: Seq<u8>,
    later_now: i64,
)
    requires
        sessions.contains_key(nonce),
        sessions[nonce] <= now,
    ensures
        rotation(sessions, devices, nonce, device_id, signature, new_nonce, now) == Err::<
            SessionInfo,
            HandlerError,
        >(HandlerError::SessionInvalid),
        !after_rotation(sessions, devices, nonce, device_id, signature, new_nonce, now).contains_key(
            nonce,
        ),
        rotation(
            after_rotation(sessions, devices, nonce, device_id, signature, new_nonce, now),
            devices,
            nonce,
            later_device,
            later_signature,
            later_nonce,
            later_now,
        ) == Err::<SessionInfo, HandlerError>(HandlerError::SessionInvalid),
{
}

/// A nonce issued at `issued_at` and signed with the key of a registered device
/// authenticates that device at any later time before it expires: the request
/// yields the device and its owner, the session then holds the new nonce, which
/// differs from the old one, with a later expiry than the old one had.
pub proof fn lemma_round_trip(
    sessions: Map<Seq<u8>, i64>,
    devices: Map<u128, DeviceView>,
    nonce: Seq<u8>,
    issued_at: i64,
    device_id: u128,
    signature: Seq<u8>,
    new_nonce: Seq<u8>,
    now: i64,
)
    requires
        nonce.len() == NONCE_LEN,
        !sessions.contains_key(nonce),
        issued_at < now <= LATEST_TIME,
        now < expiry_at(issued_at),
        devices.contains_key(device_id),
        ed25519_accepts(devices[device_id].public_key, nonce, signature),
        !sessions.insert(nonce, expiry_at(issued_at)).contains_key(new_nonce),
    ensures
        ({
            let issued = sessions.insert(nonce, expiry_at(issued_at));
            let after = after_rotation(issued, devices, nonce, device_id, signature, new_nonce, now);
            &&& rotation(issued, devices, nonce, device_id, signature, new_nonce, now) == Ok::<
                SessionInfo,
                HandlerError,
            >(SessionInfo { device_id, user_id: devices[device_id].owner })
            &&& new_nonce != nonce
            &&& !after.contains_key(nonce)
            &&& after.contains_key(new_nonce)
            &&& after[new_nonce] > issued[nonce]
        }),
{
    let issued = sessions.insert(nonce, expiry_at(issued_at));
    assert(issued.contains_key(nonce) && issued[nonce] == expiry_at(issued_at));
    assert(is_live(issued, nonce, now));
}

/// A signature that does not verify under the registered key of the device is
/// rejected as an authentication error, even when the session is live, and the
/// session keeps its nonce.
pub proof fn lemma_signature_rejection(
    sessions: Map<Seq<u8>, i64>,
    devices: Map<u128, DeviceView>,
    nonce: Seq<u8>,
    device_id: u128,
    signature: Seq<u8>,
    new_nonce: Seq<u8>,
    now: i64,
)
    requires
        devices.contains_key(device_id),
        !ed25519_accepts(devices[device_id].public_key, nonce, signature),
    ensures
        is_live(sessions, nonce, now) ==> rotation(
            sessions,
            devices,
            nonce,
            device_id,
            signature,
            new_nonce,
            now,
        ) == Err::<SessionInfo, HandlerError>(HandlerError::AuthenticationError),
        is_live(sessions, nonce, now) ==> after_rotation(
            sessions,
            devices,
            nonce,
            device_id,
            signature,
            new_nonce,
            now,
        ) == sessions,
        rotation(sessions, devices, nonce, device_id, signature, new_nonce, now) is Err,
{
}

} // verus!
