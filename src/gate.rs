use vstd::prelude::*;
use crate::device::DeviceRegistry;
use crate::error::HandlerError;
use crate::session::{
    after_rotation, check_session, expiry_at, rotation, swapped, SessionInfo, SessionRequest,
    SessionResponse, SessionStore, LATEST_TIME, NONCE_LEN,
};

verus! {

/// The identifier that a text denotes, if it is a well-formed UUID.
pub uninterp spec fn uuid_parsed(s: Seq<char>) -> Option<u128>;

/// The bytes that a text decodes to, if it is valid padded base64 of the standard alphabet.
pub uninterp spec fn base64_decoded(s: Seq<char>) -> Option<Seq<u8>>;

/// The padded base64 text, in the standard alphabet, of a byte string.
pub uninterp spec fn base64_text(b: Seq<u8>) -> Seq<char>;

/// Relies on uuid::Uuid::from_str (which is Uuid::parse_str) and Uuid::as_u128:
/// the identifier that the text denotes, depending on the text alone.
#[verifier::external_body]
fn parse_uuid(s: &str) -> (r: Option<u128>)
    ensures
        r == uuid_parsed(s@),
{
    <uuid::Uuid as std::str::FromStr>::from_str(s).ok().map(|u| u.as_u128())
}

/// Relies on base64::decode (the STANDARD configuration): the decoded bytes, or
/// none when the text is not valid base64, depending on the text alone.
#[verifier::external_body]
pub(crate) fn decode_base64(s: &str) -> (r: Option<Vec<u8>>)
    ensures
        match r {
            Some(v) => base64_decoded(s@) == Some(v@),
            None => base64_decoded(s@) is None,
        },
{
    base64::decode(s).ok()
}

/// Relies on base64::encode (the STANDARD configuration): the text depends on the
/// bytes alone.
#[verifier::external_body]
fn encode_base64(b: &[u8]) -> (r: String)
    ensures
        r@ == base64_text(b@),
{
    base64::encode(b)
}

/// The header that carries the device id.
pub open spec fn device_id_header() -> Seq<char> {
    "X-DEVICEID"@
}

/// The header that carries the nonce, in base64.
pub open spec fn nonce_header() -> Seq<char> {
    "X-NONCE"@
}

/// The header that carries the signature over the nonce, in base64.
pub open spec fn signed_nonce_header() -> Seq<char> {
    "X-SIGNEDNONCE"@
}

/// The text of a header, if it is present and readable.
pub open spec fn text_of(h: Option<&str>) -> Option<Seq<char>> {
    match h {
        Some(s) => Some(s@),
        None => None,
    }
}

/// The credentials that three header texts give, or the name of the first header,
/// in the order device id, nonce, signature, that is missing or does not decode.
pub open spec fn credentials(
    device_id: Option<Seq<char>>,
    nonce: Option<Seq<char>>,
    signed_nonce: Option<Seq<char>>,
) -> Result<(u128, Seq<u8>, Seq<u8>), Seq<char>> {
    if device_id is None || uuid_parsed(device_id->0) is None {
        Err(device_id_header())
    } else if nonce is None || base64_decoded(nonce->0) is None {
        Err(nonce_header())
    } else if signed_nonce is None || base64_decoded(signed_nonce->0) is None {
        Err(signed_nonce_header())
    } else {
        Ok((uuid_parsed(device_id->0)->0, base64_decoded(nonce->0)->0, base64_decoded(signed_nonce->0)->0))
    }
}

/// Whether `r` is what reading the credentials out of the three header texts gives.
pub open spec fn reads_credentials(
    r: Result<SessionRequest, HandlerError>,
    device_id: Option<Seq<char>>,
    nonce: Option<Seq<char>>,
    signed_nonce: Option<Seq<char>>,
) -> bool {
    match credentials(device_id, nonce, signed_nonce) {
        Ok((d, n, s)) => r matches Ok(req) && req.device_id == d && req.nonce@ == n && req.signed_nonce@
            == s,
        Err(name) => r matches Err(HandlerError::MalformedHeader { name: got }) && got@ == name,
    }
}

/// Reads the credentials of a protected request out of its headers: the device
/// id as a UUID, the nonce and the signature in base64. A header that is missing,
/// unreadable or does not decode is reported by name.
pub fn extract_header_data(device_id: Option<&str>, nonce: Option<&str>, signed_nonce: Option<&str>) -> (r:
    Result<SessionRequest, HandlerError>)
    ensures
        reads_credentials(r, text_of(device_id), text_of(nonce), text_of(signed_nonce)),
{
    proof {
        reveal_strlit("X-DEVICEID");
        reveal_strlit("X-NONCE");
        reveal_strlit("X-SIGNEDNONCE");
    }
    let device = match device_id {
        None => {
            return Err(HandlerError::malformed_header("X-DEVICEID"));
        },
        Some(s) => match parse_uuid(s) {
            None => {
                return Err(HandlerError::malformed_header("X-DEVICEID"));
            },
            Some(d) => d,
        },
    };
    let nonce_bytes = match nonce {
        None => {
            return Err(HandlerError::malformed_header("X-NONCE"));
        },
        Some(s) => match decode_base64(s) {
            None => {
                return Err(HandlerError::malformed_header("X-NONCE"));
            },
            Some(v) => v,
        },
    };
    let signature = match signed_nonce {
        None => {
            return Err(HandlerError::malformed_header("X-SIGNEDNONCE"));
        },
        Some(s) => match decode_base64(s) {
            None => {
                return Err(HandlerError::malformed_header("X-SIGNEDNONCE"));
            },
            Some(v) => v,
        },
    };
    Ok(SessionRequest { device_id: device, nonce: nonce_bytes, signed_nonce: signature })
}

impl SessionResponse {
    /// The value of the header that hands the next nonce to the client: the nonce in base64.
    pub fn header_value(&self) -> (r: String)
        ensures
            r@ == base64_text(self.nonce@),
    {
        encode_base64(self.nonce.as_slice())
    }
}

/// What an authenticated request carries on: who made it, for the handler,
/// and the nonce for the client's next request, for the response.
#[derive(Debug)]
pub struct Grant {
    pub session: SessionInfo,
    pub next: SessionResponse,
}

/// The stage in front of every protected operation: reads the credentials out of
/// the headers, then verifies them and rotates the nonce. A header error comes
/// first and leaves the sessions as they were; an error of the checks is passed
/// on as it is. On success the handler gets the verified identity, and the
/// response must carry the new nonce, whatever the handler's outcome.
pub fn authorize(
    store: &mut SessionStore,
    devices: &DeviceRegistry,
    device_id: Option<&str>,
    nonce: Option<&str>,
    signed_nonce: Option<&str>,
    rng: &ring::rand::SystemRandom,
) -> (r: Result<Grant, HandlerError>)
    requires
        old(store).wf(),
        devices.wf(),
    ensures
        final(store).wf(),
        match credentials(text_of(device_id), text_of(nonce), text_of(signed_nonce)) {
            Err(name) => r matches Err(HandlerError::MalformedHeader { name: got }) && got@ == name
                && final(store)@ == old(store)@,
            Ok((d, n, s)) => match r {
                Ok(g) => g.next.nonce@.len() == NONCE_LEN && exists|now: i64|
                    now <= LATEST_TIME && #[trigger] rotation(
                        old(store)@,
                        devices@,
                        n,
                        d,
                        s,
                        g.next.nonce@,
                        now,
                    ) == Ok::<SessionInfo, HandlerError>(g.session) && final(store)@ == swapped(
                        old(store)@,
                        n,
                        g.next.nonce@,
                        expiry_at(now),
                    ),
                Err(e) => (e is InternalError && final(store)@ == old(store)@) || exists|
                    now: i64,
                    fresh: Seq<u8>,
                |
                    now <= LATEST_TIME && fresh.len() == NONCE_LEN && #[trigger] rotation(
                        old(store)@,
                        devices@,
                        n,
                        d,
                        s,
                        fresh,
                        now,
                    ) == Err::<SessionInfo, HandlerError>(e) && final(store)@ == after_rotation(
                        old(store)@,
                        devices@,
                        n,
                        d,
                        s,
                        fresh,
                        now,
                    ),
            },
        },
{
    let req = match extract_header_data(device_id, nonce, signed_nonce) {
        Err(e) => {
            return Err(e);
        },
        Ok(req) => req,
    };
    let ghost before = store@;
    match check_session(store, devices, &req, rng) {
        Err(e) => Err(e),
        Ok((device, user, next)) => {
            let g = Grant {
                session: SessionInfo { device_id: device, user_id: user },
                next: SessionResponse { nonce: next },
            };
            proof {
                let now = choose|now: i64|
                    now <= LATEST_TIME && #[trigger] rotation(
                        before,
                        devices@,
                        req.nonce@,
                        req.device_id,
                        req.signed_nonce@,
                        g.next.nonce@,
                        now,
                    ) == Ok::<SessionInfo, HandlerError>(g.session) && store@ == swapped(
                        before,
                        req.nonce@,
                        g.next.nonce@,
                        expiry_at(now),
                    );
                assert(now <= LATEST_TIME);
            }
            Ok(g)
        },
    }
}

} // verus!
