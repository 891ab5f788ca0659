//! The token service: issuing bearer tokens to whoever presents the master
//! secret, and recognising a presented token by its keyed hash.

use vstd::prelude::*;
use crate::error::ApiError;
use crate::keyed_hash::{encode_token, keyed_hash, random_bytes, raw_token, token_hash};
use crate::state::AppState;
use crate::text::{prefix_of, take_prefix};
use crate::token::{
    has_hash, is_first_with_hash, without_id, CredentialStore, CredentialStoreView,
    TokenRecordView,
};

verus! {

/// `s` without the white space around it.
pub uninterp spec fn trimmed(s: Seq<char>) -> Seq<char>;

/// `str::trim`, copied into a `String`. The contract names the result.
#[verifier::external_body]
fn trim(s: &str) -> (r: String)
    ensures
        r@ == trimmed(s@),
{
    s.trim().to_owned()
}

/// A token at the moment it is issued. The raw token is handed out here and
/// nowhere else; the store keeps prefix and hash.
#[derive(Debug, Clone, PartialEq, Eq)]
pub struct IssuedToken {
    pub id: i64,
    pub token: String,
    pub prefix: String,
    pub hash: String,
}

/// The characters of an `Authorization` header, where one was sent.
pub open spec fn header_view(header: Option<&str>) -> Option<Seq<char>> {
    match header {
        Some(h) => Some(h@),
        None => None,
    }
}

/// The header carries the master secret, white space around it aside.
pub open spec fn presents_secret(secret: Seq<char>, header: Option<Seq<char>>) -> bool {
    header matches Some(h) && trimmed(h) == secret
}

/// The header carries a token whose hash under `secret` some record holds.
pub open spec fn authorized(
    records: Seq<TokenRecordView>,
    secret: Seq<char>,
    header: Option<Seq<char>>,
) -> bool {
    header matches Some(h) && has_hash(records, token_hash(secret, h))
}

/// The record that the store keeps of the raw token `token`, under the
/// identity `id`.
pub open spec fn record_of(id: int, secret: Seq<char>, token: Seq<char>) -> TokenRecordView {
    TokenRecordView { id, prefix: prefix_of(token, 5), hash: token_hash(secret, token) }
}

/// What issuing a token from the random material `bytes` does to a store
/// and returns. The raw token is the base64 text of the bytes. The store
/// gains the record of it under the next identity; the caller gets token,
/// identity, prefix and hash. Where the identities are used up the store
/// stays as it is and the request fails as an internal error.
pub open spec fn issues(
    before: CredentialStoreView,
    secret: Seq<char>,
    bytes: Seq<u8>,
    after: CredentialStoreView,
    r: Result<IssuedToken, ApiError>,
) -> bool {
    if before.next_id == i64::MAX {
        after == before && r is Err && r->Err_0 == ApiError::Internal
    } else {
        &&& r matches Ok(t)
        &&& t.token@ == raw_token(bytes)
        &&& t.token@.len() == 40
        &&& t.id == before.next_id
        &&& t.prefix@ == prefix_of(t.token@, 5)
        &&& t.hash@ == token_hash(secret, t.token@)
        &&& after.next_id == before.next_id + 1
        &&& after.records == before.records.push(record_of(before.next_id, secret, t.token@))
    }
}

/// Checks the bearer token of a request against the credential store. The
/// token is never looked up itself: its hash under the master secret is.
/// Any record with that hash lets the request through, and the identity of
/// the first such record is returned. A missing header and an unknown
/// token end alike.
pub fn auth_middleware(state: &AppState, store: &CredentialStore, auth_header: Option<&str>) -> (r:
    Result<i64, ApiError>)
    ensures
        authorized(store@.records, state.secret_key@, header_view(auth_header)) ==> (r matches Ok(
            id,
        ) && exists|i: int|
            is_first_with_hash(
                store@.records,
                token_hash(state.secret_key@, auth_header->Some_0@),
                i,
            ) && (#[trigger] store@.records[i]).id == id),
        !authorized(store@.records, state.secret_key@, header_view(auth_header)) ==> r == Err::<
            i64,
            ApiError,
        >(ApiError::Unauthorized),
{
    let auth_header: &str = match auth_header {
        Some(h) => h,
        None => {
            return Err(ApiError::Unauthorized);
        },
    };
    let api_key_hash = match keyed_hash(state.secret_key.as_str(), auth_header) {
        Some(h) => h,
        None => {
            return Err(ApiError::Internal);
        },
    };
    match store.find_by_hash(&api_key_hash) {
        None => Err(ApiError::Unauthorized),
        Some(id) => Ok(id),
    }
}

/// Issues a token from the random material `bytes` and records it.
pub fn issue_token(secret_key: &str, store: &mut CredentialStore, bytes: &[u8; 30]) -> (r: Result<
    IssuedToken,
    ApiError,
>)
    requires
        old(store)@.wf(),
    ensures
        final(store)@.wf(),
        issues(old(store)@, secret_key@, bytes@, final(store)@, r),
{
    let b64_str = encode_token(bytes);
    let prefix = take_prefix(b64_str.as_str(), 5);
    let api_key_hash = match keyed_hash(secret_key, b64_str.as_str()) {
        Some(h) => h,
        None => {
            return Err(ApiError::Internal);
        },
    };
    match store.insert(prefix.clone(), api_key_hash.clone()) {
        Some(id) => Ok(IssuedToken { id, token: b64_str, prefix, hash: api_key_hash }),
        None => Err(ApiError::Internal),
    }
}

/// Issues a new token to a caller who presents the master secret in the
/// `Authorization` header. Anyone else is turned away and the store is not
/// touched. The token is made of thirty fresh random bytes.
pub fn new_token(state: &AppState, store: &mut CredentialStore, auth_header: Option<&str>) -> (r:
    Result<IssuedToken, ApiError>)
    requires
        old(store)@.wf(),
    ensures
        final(store)@.wf(),
        !presents_secret(state.secret_key@, header_view(auth_header)) ==> final(store)@ == old(
            store,
        )@ && r is Err && r->Err_0 == ApiError::Unauthorized,
        presents_secret(state.secret_key@, header_view(auth_header)) ==> exists|bytes: Seq<u8>|
            bytes.len() == 30 && #[trigger] issues(
                old(store)@,
                state.secret_key@,
                bytes,
                final(store)@,
                r,
            ),
{
    match auth_header {
        Some(e) => {
            if trim(e) != state.secret_key {
                return Err(ApiError::Unauthorized);
            }
        },
        None => {
            return Err(ApiError::Unauthorized);
        },
    }
    let fresh = random_bytes();
    let r = issue_token(state.secret_key.as_str(), store, &fresh);
    assert(issues(old(store)@, state.secret_key@, fresh@, store@, r));
    r
}

/// A raw token that was issued and not revoked since, with the identity of
/// its record.
pub ghost struct LiveToken {
    pub id: int,
    pub token: Seq<char>,
}

/// `records` are the records of the tokens `live`, one for one: each
/// record has the identity of its token and the token's hash under
/// `secret`.
pub open spec fn tracks(records: Seq<TokenRecordView>, live: Seq<LiveToken>, secret: Seq<char>) -> bool {
    &&& records.len() == live.len()
    &&& forall|i: int|
        0 <= i < records.len() ==> (#[trigger] records[i]).id == live[i].id && records[i].hash
            == token_hash(secret, live[i].token)
}

/// `token` is among the live tokens.
pub open spec fn is_live(live: Seq<LiveToken>, token: Seq<char>) -> bool {
    exists|i: int| 0 <= i < live.len() && (#[trigger] live[i]).token == token
}

/// No live token other than `token` has the hash of `token`.
pub open spec fn collision_free(live: Seq<LiveToken>, secret: Seq<char>, token: Seq<char>) -> bool {
    forall|i: int|
        0 <= i < live.len() && token_hash(secret, (#[trigger] live[i]).token) == token_hash(
            secret,
            token,
        ) ==> live[i].token == token
}

/// The live tokens without those of the identity `id`, the others in order.
pub open spec fn without_live(live: Seq<LiveToken>, id: int) -> Seq<LiveToken>
    decreases live.len(),
{
    if live.len() == 0 {
        live
    } else if live.last().id == id {
        without_live(live.drop_last(), id)
    } else {
        without_live(live.drop_last(), id).push(live.last())
    }
}

/// Before anything is issued the empty store tracks no token.
pub proof fn law_empty_store_tracks(secret: Seq<char>)
    ensures
        tracks(Seq::<TokenRecordView>::empty(), Seq::<LiveToken>::empty(), secret),
{
}

/// Issuing keeps the records in step with the live tokens: the new record
/// is that of the new token.
pub proof fn law_issue_tracks(
    records: Seq<TokenRecordView>,
    live: Seq<LiveToken>,
    secret: Seq<char>,
    id: int,
    token: Seq<char>,
)
    requires
        tracks(records, live, secret),
    ensures
        tracks(
            records.push(record_of(id, secret, token)),
            live.push((LiveToken { id, token })),
            secret,
        ),
{
}

/// Revoking keeps the records in step with the live tokens: the records
/// that go are those of the tokens that go.
pub proof fn law_revoke_tracks(
    records: Seq<TokenRecordView>,
    live: Seq<LiveToken>,
    secret: Seq<char>,
    id: int,
)
    requires
        tracks(records, live, secret),
    ensures
        tracks(without_id(records, id), without_live(live, id), secret),
    decreases records.len(),
{
    if records.len() > 0 {
        assert(records.last() == records[records.len() - 1]);
        assert(live.last() == live[live.len() - 1]);
        law_revoke_tracks(records.drop_last(), live.drop_last(), secret, id);
    }
}

/// A presented token is let through exactly if it was issued and has not
/// been revoked since. This holds of a token whose hash no other live token
/// shares; two tokens with one hash cannot be told apart by the store.
pub proof fn law_authorized_iff_live(
    records: Seq<TokenRecordView>,
    live: Seq<LiveToken>,
    secret: Seq<char>,
    token: Seq<char>,
)
    requires
        tracks(records, live, secret),
        collision_free(live, secret, token),
    ensures
        authorized(records, secret, Some(token)) <==> is_live(live, token),
{
    if has_hash(records, token_hash(secret, token)) {
        let i = choose|i: int|
            0 <= i < records.len() && #[trigger] records[i].hash == token_hash(secret, token);
        assert(live[i].token == token);
    }
    if is_live(live, token) {
        let i = choose|i: int| 0 <= i < live.len() && (#[trigger] live[i]).token == token;
        assert(records[i].hash == token_hash(secret, token));
    }
}

} // verus!
