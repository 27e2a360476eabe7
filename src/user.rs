use vstd::prelude::*;
use crate::device::{DeviceRegistry, DeviceView};
use crate::error::{Entity, HandlerError, InternalError};
use crate::gate::base64_decoded;
use crate::keys::{ed25519_accepts, verify};
use crate::system::random_uuid;

verus! {

/// What a user is created with.
#[derive(Debug, Clone)]
pub struct UserCreation {
    pub email: String,
    pub identity_key: Vec<u8>,
    pub signed_prekey: Vec<u8>,
    pub prekey_signature: Vec<u8>,
    pub nickname: Option<String>,
    pub bio: Option<String>,
}

/// A new signed prekey, with its signature under the identity key.
#[derive(Debug, Clone)]
pub struct PreKeyUpdate {
    pub signed_prekey: Vec<u8>,
    pub prekey_signature: Vec<u8>,
}

/// One-time prekeys to add, in base64.
#[derive(Debug, Clone)]
pub struct OTKAdd {
    pub keys: Vec<String>,
}

/// What another user needs to start a conversation with a user.
#[derive(Debug)]
pub struct ChatPackage {
    pub identity_key: Vec<u8>,
    pub signed_prekey: Vec<u8>,
    pub prekey_signature: Vec<u8>,
    pub onetime_key: Vec<u8>,
}

/// The keys of a user, and the address that identifies the account.
pub struct UserView {
    pub email: Seq<char>,
    pub identity_key: Seq<u8>,
    pub signed_prekey: Seq<u8>,
    pub prekey_signature: Seq<u8>,
}

#[derive(Debug)]
struct UserRow {
    id: u128,
    email: String,
    identity_key: Vec<u8>,
    signed_prekey: Vec<u8>,
    prekey_signature: Vec<u8>,
    nickname: Option<String>,
    bio: Option<String>,
}

impl UserRow {
    spec fn view(&self) -> UserView {
        UserView {
            email: self.email@,
            identity_key: self.identity_key@,
            signed_prekey: self.signed_prekey@,
            prekey_signature: self.prekey_signature@,
        }
    }
}

#[derive(Debug)]
struct OneTimeKey {
    user_id: u128,
    prekey: Vec<u8>,
}

/// The users by id, and the one-time prekeys that are left, oldest first, each
/// with the user it belongs to.
pub struct UserRegistryView {
    pub users: Map<u128, UserView>,
    pub onetime: Seq<(u128, Seq<u8>)>,
}

/// The users and their one-time prekeys.
#[derive(Debug)]
pub struct UserRegistry {
    users: Vec<UserRow>,
    onetime: Vec<OneTimeKey>,
}

/// Whether `email` is the address of some user.
pub open spec fn email_taken(users: Map<u128, UserView>, email: Seq<char>) -> bool {
    exists|u: u128| users.contains_key(u) && #[trigger] users[u].email == email
}

/// The one-time prekey table after `keys` were added for `user`.
pub open spec fn with_onetime(onetime: Seq<(u128, Seq<u8>)>, user: u128, keys: Seq<Seq<u8>>) -> Seq<
    (u128, Seq<u8>),
> {
    onetime + keys.map_values(|k: Seq<u8>| (user, k))
}

/// The position of the oldest one-time prekey of `user`, if there is one.
pub open spec fn first_onetime(onetime: Seq<(u128, Seq<u8>)>, user: u128, k: int) -> bool {
    &&& 0 <= k < onetime.len()
    &&& onetime[k].0 == user
    &&& forall|j: int| 0 <= j < k ==> #[trigger] onetime[j].0 != user
}

/// Checks that `signature` is a valid signature of `signed_key` under `identity_key`.
pub fn check_signed_prekey(identity_key: &Vec<u8>, signed_key: &Vec<u8>, signature: &Vec<u8>) -> (r:
    Result<(), HandlerError>)
    ensures
        r is Ok <==> ed25519_accepts(identity_key@, signed_key@, signature@),
        r is Ok ==> identity_key@.len() == 32 && signature@.len() == 64,
        r is Err ==> r == Err::<(), HandlerError>(HandlerError::SignatureMismatch),
{
    match verify(signed_key.as_slice(), signature.as_slice(), identity_key.as_slice()) {
        Ok(()) => Ok(()),
        Err(_) => Err(HandlerError::SignatureMismatch),
    }
}

impl UserRegistry {
    /// User ids are unique.
    pub closed spec fn wf(&self) -> bool {
        forall|i: int, j: int|
            0 <= i < j < self.users@.len() ==> #[trigger] self.users@[i].id != #[trigger] self.users@[j].id
    }

    closed spec fn has(&self, id: u128) -> bool {
        exists|i: int| 0 <= i < self.users@.len() && #[trigger] self.users@[i].id == id
    }

    closed spec fn index_of(&self, id: u128) -> int {
        choose|i: int| 0 <= i < self.users@.len() && #[trigger] self.users@[i].id == id
    }

    proof fn lemma_row(&self, i: int)
        requires
            self.wf(),
            0 <= i < self.users@.len(),
        ensures
            self@.users.contains_key(self.users@[i].id),
            self@.users[self.users@[i].id] == self.users@[i].view(),
    {
        let id = self.users@[i].id;
        assert(self.has(id));
        let j = self.index_of(id);
        if i < j {
            assert(self.users@[i].id != self.users@[j].id);
        } else if j < i {
            assert(self.users@[j].id != self.users@[i].id);
        }
    }

    pub fn new() -> (r: UserRegistry)
        ensures
            r.wf(),
            r@.users == Map::<u128, UserView>::empty(),
            r@.onetime == Seq::<(u128, Seq<u8>)>::empty(),
    {
        let r = UserRegistry { users: Vec::new(), onetime: Vec::new() };
        assert(r@.users =~= Map::<u128, UserView>::empty());
        assert(r@.onetime =~= Seq::<(u128, Seq<u8>)>::empty());
        r
    }

    fn find(&self, id: u128) -> (r: Option<usize>)
        requires
            self.wf(),
        ensures
            match r {
                Some(i) => i < self.users@.len() && self.users@[i as int].id == id,
                None => !self@.users.contains_key(id),
            },
    {
        let mut i: usize = 0;
        while i < self.users.len()
            invariant
                i <= self.users@.len(),
                forall|k: int| 0 <= k < i ==> #[trigger] self.users@[k].id != id,
            decreases self.users@.len() - i,
        {
            if self.users[i].id == id {
                return Some(i);
            }
            i = i + 1;
        }
        None
    }
}

/// The user that `user` describes.
pub open spec fn created(user: UserCreation) -> UserView {
    UserView {
        email: user.email@,
        identity_key: user.identity_key@,
        signed_prekey: user.signed_prekey@,
        prekey_signature: user.prekey_signature@,
    }
}

/// The devices after `user` became the owner of `device`, when it is registered.
pub open spec fn owned_device(devices: Map<u128, DeviceView>, device: u128, user: u128) -> Map<
    u128,
    DeviceView,
> {
    if devices.contains_key(device) {
        devices.insert(device, DeviceView { owner: Some(user), public_key: devices[device].public_key })
    } else {
        devices
    }
}

/// The bytes that each of `keys` decodes to from base64.
pub open spec fn decoded_keys(keys: Seq<String>) -> Seq<Seq<u8>> {
    keys.map_values(|k: String| base64_decoded(k@)->0)
}

impl UserRegistry {
    fn email_in_use(&self, email: &String) -> (r: bool)
        requires
            self.wf(),
        ensures
            r == email_taken(self@.users, email@),
    {
        let mut i: usize = 0;
        while i < self.users.len()
            invariant
                self.wf(),
                i <= self.users@.len(),
                forall|k: int| 0 <= k < i ==> #[trigger] self.users@[k].email@ != email@,
            decreases self.users@.len() - i,
        {
            if self.users[i].email == *email {
                proof {
                    self.lemma_row(i as int);
                    let u = self.users@[i as int].id;
                    assert(self@.users.contains_key(u) && self@.users[u].email == email@);
                }
                return true;
            }
            i = i + 1;
        }
        proof {
            if email_taken(self@.users, email@) {
                let u = choose|u: u128| self@.users.contains_key(u) && #[trigger] self@.users[u].email == email@;
                let k = self.index_of(u);
                assert(self.users@[k].id == u);
                self.lemma_row(k);
            }
        }
        false
    }

    /// Creates user `id` from `user` and makes it the owner of `device_id`, in one
    /// step. The signed prekey must verify under the identity key, and the email
    /// address must be new; an `id` that is taken is refused by the store. On
    /// failure nothing is written.
    pub fn register(
        &mut self,
        devices: &mut DeviceRegistry,
        user: UserCreation,
        id: u128,
        device_id: u128,
    ) -> (r: Result<u128, HandlerError>)
        requires
            old(self).wf(),
            old(devices).wf(),
        ensures
            final(self).wf(),
            final(devices).wf(),
            !ed25519_accepts(user.identity_key@, user.signed_prekey@, user.prekey_signature@) ==> r
                == Err::<u128, HandlerError>(HandlerError::SignatureMismatch),
            ed25519_accepts(user.identity_key@, user.signed_prekey@, user.prekey_signature@)
                && email_taken(old(self)@.users, user.email@) ==> (r matches Err(
                HandlerError::RecordMustBeUnique { name },
            ) && name@ == "email"@),
            ed25519_accepts(user.identity_key@, user.signed_prekey@, user.prekey_signature@)
                && !email_taken(old(self)@.users, user.email@) && old(self)@.users.contains_key(id) ==> r
                == Err::<u128, HandlerError>(
                HandlerError::InternalError { error: InternalError::DatabaseError },
            ),
            ed25519_accepts(user.identity_key@, user.signed_prekey@, user.prekey_signature@)
                && !email_taken(old(self)@.users, user.email@) && !old(self)@.users.contains_key(id) ==> r
                == Ok::<u128, HandlerError>(id),
            r is Err ==> final(self)@ == old(self)@ && final(devices)@ == old(devices)@,
            r is Ok ==> r == Ok::<u128, HandlerError>(id) && final(self)@.users == old(
                self,
            )@.users.insert(id, created(user)) && final(self)@.onetime == old(self)@.onetime
                && final(devices)@ == owned_device(old(devices)@, device_id, id),
    {
        if let Err(e) = check_signed_prekey(&user.identity_key, &user.signed_prekey, &user.prekey_signature) {
            return Err(e);
        }
        if self.email_in_use(&user.email) {
            return Err(HandlerError::RecordMustBeUnique { name: "email".to_string() });
        }
        if self.find(id).is_some() {
            return Err(HandlerError::InternalError { error: InternalError::DatabaseError });
        }
        let ghost old_self = *self;
        let ghost view = created(user);
        self.users.push(
            UserRow {
                id,
                email: user.email,
                identity_key: user.identity_key,
                signed_prekey: user.signed_prekey,
                prekey_signature: user.prekey_signature,
                nickname: user.nickname,
                bio: user.bio,
            },
        );
        proof {
            let len = old_self.users@.len();
            assert forall|a: int, b: int| 0 <= a < b < self.users@.len() implies #[trigger] self.users@[a].id
                != #[trigger] self.users@[b].id by {
                if b == len {
                    if self.users@[a].id == id {
                        old_self.lemma_row(a);
                    }
                } else {
                    assert(old_self.users@[a].id != old_self.users@[b].id);
                }
            }
            let target = old_self@.users.insert(id, view);
            assert forall|m: u128| #[trigger] self@.users.contains_key(m) == target.contains_key(m) by {
                if self.has(m) {
                    let k = choose|k: int| 0 <= k < self.users@.len() && #[trigger] self.users@[k].id == m;
                    if k < len {
                        assert(old_self.users@[k].id == m);
                    }
                }
                if old_self.has(m) {
                    let k = choose|k: int| 0 <= k < old_self.users@.len() && #[trigger] old_self.users@[k].id == m;
                    assert(self.users@[k].id == m);
                }
                if m == id {
                    assert(self.users@[len as int].id == id);
                }
            }
            assert forall|m: u128| #[trigger] self@.users.contains_key(m) implies self@.users[m] == target[m] by {
                let k = choose|k: int| 0 <= k < self.users@.len() && #[trigger] self.users@[k].id == m;
                self.lemma_row(k);
                if k < len {
                    old_self.lemma_row(k);
                }
            }
            assert(self@.users =~= target);
            assert(self@.onetime =~= old_self@.onetime);
        }
        let ghost before = devices@;
        let _ = devices.set_owner(device_id, id);
        assert(devices@ == owned_device(before, device_id, id));
        Ok(id)
    }
}

impl View for UserRegistry {
    type V = UserRegistryView;

    closed spec fn view(&self) -> UserRegistryView {
        UserRegistryView {
            users: Map::new(
                |id: u128| self.has(id),
                |id: u128| self.users@[self.index_of(id)].view(),
            ),
            onetime: self.onetime@.map_values(|k: OneTimeKey| (k.user_id, k.prekey@)),
        }
    }
}

/// Creates a user under a fresh random id on device `device_id`; see
/// `UserRegistry::register`. The signed prekey must verify under the identity
/// key and the email address must be new; these are checked before the id is
/// drawn. After that only an internal error can come (of the randomness source,
/// or an id that is taken), and on every failure nothing is written.
pub fn create_user(
    users: &mut UserRegistry,
    devices: &mut DeviceRegistry,
    user: UserCreation,
    device_id: u128,
    rng: &ring::rand::SystemRandom,
) -> (r: Result<u128, HandlerError>)
    requires
        old(users).wf(),
        old(devices).wf(),
    ensures
        final(users).wf(),
        final(devices).wf(),
        !ed25519_accepts(user.identity_key@, user.signed_prekey@, user.prekey_signature@) <==> r
            == Err::<u128, HandlerError>(HandlerError::SignatureMismatch),
        ed25519_accepts(user.identity_key@, user.signed_prekey@, user.prekey_signature@)
            && email_taken(old(users)@.users, user.email@) <==> (r matches Err(
            HandlerError::RecordMustBeUnique { name },
        ) && name@ == "email"@),
        ed25519_accepts(user.identity_key@, user.signed_prekey@, user.prekey_signature@)
            && !email_taken(old(users)@.users, user.email@) ==> r is Ok || r == Err::<
            u128,
            HandlerError,
        >(HandlerError::InternalError { error: InternalError::RNGError }) || r == Err::<
            u128,
            HandlerError,
        >(HandlerError::InternalError { error: InternalError::DatabaseError }),
        match r {
            Ok(id) => !old(users)@.users.contains_key(id) && final(users)@.users == old(
                users,
            )@.users.insert(id, created(user)) && final(users)@.onetime == old(users)@.onetime
                && final(devices)@ == owned_device(old(devices)@, device_id, id),
            Err(_) => final(users)@ == old(users)@ && final(devices)@ == old(devices)@,
        },
{
    if let Err(e) = check_signed_prekey(&user.identity_key, &user.signed_prekey, &user.prekey_signature) {
        return Err(e);
    }
    if users.email_in_use(&user.email) {
        return Err(HandlerError::RecordMustBeUnique { name: "email".to_string() });
    }
    let id = match random_uuid(rng) {
        None => {
            return Err(HandlerError::InternalError { error: InternalError::RNGError });
        },
        Some(id) => id,
    };
    users.register(devices, user, id, device_id)
}

/// Replaces the signed prekey of `user_id`, which must verify under the user's
/// identity key.
pub fn update_prekey(users: &mut UserRegistry, update: PreKeyUpdate, user_id: u128) -> (r: Result<
    (),
    HandlerError,
>)
    requires
        old(users).wf(),
    ensures
        final(users).wf(),
        final(users)@.onetime == old(users)@.onetime,
        !old(users)@.users.contains_key(user_id) ==> r == Err::<(), HandlerError>(
            HandlerError::UnknownEntity { entity: Entity::User { uuid: user_id } },
        ) && final(users)@ == old(users)@,
        old(users)@.users.contains_key(user_id) && !ed25519_accepts(
            old(users)@.users[user_id].identity_key,
            update.signed_prekey@,
            update.prekey_signature@,
        ) ==> r == Err::<(), HandlerError>(HandlerError::SignatureMismatch) && final(users)@ == old(users)@,
        old(users)@.users.contains_key(user_id) && ed25519_accepts(
            old(users)@.users[user_id].identity_key,
            update.signed_prekey@,
            update.prekey_signature@,
        ) ==> r is Ok && final(users)@.users == old(users)@.users.insert(
            user_id,
            UserView {
                signed_prekey: update.signed_prekey@,
                prekey_signature: update.prekey_signature@,
                ..old(users)@.users[user_id]
            },
        ),
{
    let i = match users.find(user_id) {
        None => {
            return Err(HandlerError::UnknownEntity { entity: Entity::User { uuid: user_id } });
        },
        Some(i) => i,
    };
    proof {
        users.lemma_row(i as int);
    }
    if let Err(e) = check_signed_prekey(&users.users[i].identity_key, &update.signed_prekey, &update.prekey_signature) {
        return Err(e);
    }
    let ghost old_self = *users;
    let ghost spk = update.signed_prekey@;
    let ghost sig = update.prekey_signature@;
    let mut row = users.users.remove(i);
    row.signed_prekey = update.signed_prekey;
    row.prekey_signature = update.prekey_signature;
    users.users.insert(i, row);
    proof {
        let new_row = users.users@[i as int];
        assert(users.users@ =~= old_self.users@.update(i as int, new_row));
        let target = old_self@.users.insert(
            user_id,
            UserView { signed_prekey: spk, prekey_signature: sig, ..old_self@.users[user_id] },
        );
        assert forall|a: int, b: int| 0 <= a < b < users.users@.len() implies #[trigger] users.users@[a].id
            != #[trigger] users.users@[b].id by {
            assert(old_self.users@[a].id != old_self.users@[b].id);
        }
        assert forall|m: u128| #[trigger] users@.users.contains_key(m) == target.contains_key(m) by {
            if users.has(m) {
                let k = choose|k: int| 0 <= k < users.users@.len() && #[trigger] users.users@[k].id == m;
                assert(old_self.users@[k].id == m);
            }
            if old_self.has(m) {
                let k = choose|k: int| 0 <= k < old_self.users@.len() && #[trigger] old_self.users@[k].id == m;
                assert(users.users@[k].id == m);
            }
        }
        assert forall|m: u128| #[trigger] users@.users.contains_key(m) implies users@.users[m] == target[m] by {
            let k = choose|k: int| 0 <= k < users.users@.len() && #[trigger] users.users@[k].id == m;
            users.lemma_row(k);
            old_self.lemma_row(k);
        }
        assert(users@.users =~= target);
        assert(users@.onetime =~= old_self@.onetime);
    }
    Ok(())
}

/// Adds one-time prekeys, given in base64, for `user_id`, and returns how many
/// were added. No key is added unless every one decodes and the user exists.
pub fn add_otks(users: &mut UserRegistry, keys: &Vec<String>, user_id: u128) -> (r: Result<
    usize,
    HandlerError,
>)
    requires
        old(users).wf(),
    ensures
        final(users).wf(),
        final(users)@.users == old(users)@.users,
        keys@.len() == 0 ==> r == Ok::<usize, HandlerError>(0) && final(users)@ == old(users)@,
        keys@.len() > 0 && (exists|i: int|
            0 <= i < keys@.len() && #[trigger] base64_decoded(keys@[i]@) is None) ==> (r matches Err(
            HandlerError::MalformedBody { error_message },
        ) && error_message@ == "base64 error"@),
        keys@.len() > 0 && (forall|i: int|
            0 <= i < keys@.len() ==> #[trigger] base64_decoded(keys@[i]@) is Some)
            && !old(users)@.users.contains_key(user_id) ==> r == Err::<usize, HandlerError>(
            HandlerError::InternalError { error: InternalError::DatabaseError },
        ),
        r is Err ==> final(users)@ == old(users)@,
        keys@.len() > 0 && (forall|i: int|
            0 <= i < keys@.len() ==> #[trigger] base64_decoded(keys@[i]@) is Some)
            && old(users)@.users.contains_key(user_id) ==> r is Ok,
        keys@.len() > 0 && r is Ok ==> r == Ok::<usize, HandlerError>(keys@.len() as usize)
            && final(users)@.onetime == with_onetime(old(users)@.onetime, user_id, decoded_keys(keys@)),
{
    if keys.len() == 0 {
        return Ok(0);
    }
    let mut decoded: Vec<Vec<u8>> = Vec::new();
    let mut i: usize = 0;
    while i < keys.len()
        invariant
            users.wf(),
            users@ == old(users)@,
            i <= keys@.len(),
            decoded@.len() == i,
            forall|k: int| 0 <= k < i ==> #[trigger] base64_decoded(keys@[k]@) == Some(decoded@[k]@),
        decreases keys@.len() - i,
    {
        match crate::gate::decode_base64(keys[i].as_str()) {
            None => {
                return Err(HandlerError::MalformedBody { error_message: "base64 error".to_string() });
            },
            Some(v) => {
                decoded.push(v);
            },
        }
        i = i + 1;
    }
    if users.find(user_id).is_none() {
        return Err(HandlerError::InternalError { error: InternalError::DatabaseError });
    }
    let ghost start = users@;
    let n = decoded.len();
    let mut j: usize = 0;
    while j < n
        invariant
            users.wf(),
            users@.users == start.users,
            n == decoded@.len(),
            n == keys@.len(),
            j <= n,
            forall|k: int| 0 <= k < n ==> #[trigger] base64_decoded(keys@[k]@) == Some(decoded@[k]@),
            users@.onetime == with_onetime(start.onetime, user_id, decoded_keys(keys@.subrange(0, j as int))),
        decreases n - j,
    {
        let ghost prev = users@.onetime;
        let key = decoded[j].clone();
        assert(key@ =~= decoded@[j as int]@);
        users.onetime.push(OneTimeKey { user_id, prekey: key });
        proof {
            assert(users@.onetime =~= prev.push((user_id, decoded@[j as int]@)));
            let d0 = decoded_keys(keys@.subrange(0, j as int));
            let d1 = decoded_keys(keys@.subrange(0, j + 1));
            assert(d1 =~= d0.push(decoded@[j as int]@));
            assert(with_onetime(start.onetime, user_id, d1) =~= with_onetime(start.onetime, user_id, d0).push(
                (user_id, decoded@[j as int]@),
            ));
            assert(users@.onetime =~= with_onetime(
                start.onetime,
                user_id,
                decoded_keys(keys@.subrange(0, j + 1)),
            ));
        }
        j = j + 1;
    }
    proof {
        assert(keys@.subrange(0, n as int) =~= keys@);
    }
    Ok(n)
}

/// Hands out what is needed to start a conversation with `user_id`: its keys and
/// its oldest one-time prekey, which is deleted so that it is handed out once.
pub fn retrieve_package(users: &mut UserRegistry, user_id: u128) -> (r: Result<
    ChatPackage,
    HandlerError,
>)
    requires
        old(users).wf(),
    ensures
        final(users).wf(),
        final(users)@.users == old(users)@.users,
        !old(users)@.users.contains_key(user_id) ==> r == Err::<ChatPackage, HandlerError>(
            HandlerError::UnknownEntity { entity: Entity::User { uuid: user_id } },
        ),
        old(users)@.users.contains_key(user_id) && (forall|j: int|
            0 <= j < old(users)@.onetime.len() ==> #[trigger] old(users)@.onetime[j].0 != user_id)
            ==> r == Err::<ChatPackage, HandlerError>(HandlerError::InsufficientPrekeys),
        r is Err ==> final(users)@ == old(users)@,
        r matches Ok(p) ==> exists|k: int|
            #[trigger] first_onetime(old(users)@.onetime, user_id, k) && p.onetime_key@ == old(
                users,
            )@.onetime[k].1 && final(users)@.onetime == old(users)@.onetime.remove(k)
                && p.identity_key@ == old(users)@.users[user_id].identity_key && p.signed_prekey@
                == old(users)@.users[user_id].signed_prekey && p.prekey_signature@ == old(
                users,
            )@.users[user_id].prekey_signature,
        old(users)@.users.contains_key(user_id) && (exists|j: int|
            0 <= j < old(users)@.onetime.len() && #[trigger] old(users)@.onetime[j].0 == user_id)
            ==> r is Ok,
{
    let i = match users.find(user_id) {
        None => {
            return Err(HandlerError::UnknownEntity { entity: Entity::User { uuid: user_id } });
        },
        Some(i) => i,
    };
    proof {
        users.lemma_row(i as int);
    }
    let mut k: usize = 0;
    while k < users.onetime.len() && users.onetime[k].user_id != user_id
        invariant
            k <= users.onetime@.len(),
            forall|j: int| 0 <= j < k ==> #[trigger] users.onetime@[j].user_id != user_id,
        decreases users.onetime@.len() - k,
    {
        k = k + 1;
    }
    if k == users.onetime.len() {
        proof {
            assert forall|j: int|
                0 <= j < users@.onetime.len() && #[trigger] users@.onetime[j].0 == user_id implies false by {
                assert(users.onetime@[j].user_id != user_id);
            }
        }
        return Err(HandlerError::InsufficientPrekeys);
    }
    let ghost old_self = *users;
    let identity_key = users.users[i].identity_key.clone();
    let signed_prekey = users.users[i].signed_prekey.clone();
    let prekey_signature = users.users[i].prekey_signature.clone();
    let taken = users.onetime.remove(k);
    proof {
        assert(identity_key@ =~= old_self.users@[i as int].identity_key@);
        assert(signed_prekey@ =~= old_self.users@[i as int].signed_prekey@);
        assert(prekey_signature@ =~= old_self.users@[i as int].prekey_signature@);
        assert(users@.onetime =~= old_self@.onetime.remove(k as int));
        assert(users@.users =~= old_self@.users);
        assert forall|j: int| 0 <= j < k implies #[trigger] old_self@.onetime[j].0 != user_id by {
            assert(old_self.onetime@[j].user_id != user_id);
        }
        assert(first_onetime(old_self@.onetime, user_id, k as int));
    }
    Ok(
        ChatPackage {
            identity_key,
            signed_prekey,
            prekey_signature,
            onetime_key: taken.prekey,
        },
    )
}

} // verus!
