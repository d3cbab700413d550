//! Who may use the relay, and how a user logs in.

use vstd::prelude::*;

use crate::session::{Session, SessionTable, SessionView};
use crate::text::str_eq;
use crate::timestamp::{clock, expire_after, session_expiry, Timestamp};
use crate::token::{
    decoded, generate_token, opened, packed, DecodeError, TokenError, KEY_LIMIT,
};

verus! {

/// What a user may do. The rights are ordered: `Admin` includes `Chat`, and
/// `Chat` includes `NoRights`.
#[derive(Copy, Clone, Debug, PartialEq, Eq, Structural)]
pub enum UserRights {
    NoRights,
    Chat,
    Admin,
}

impl UserRights {
    /// The place of the rights in their order.
    pub open spec fn rank(self) -> int {
        match self {
            UserRights::NoRights => 0,
            UserRights::Chat => 1,
            UserRights::Admin => 2,
        }
    }

    /// The name of the rights, as it is shown to a user.
    pub open spec fn name(self) -> Seq<char> {
        match self {
            UserRights::NoRights => "NoRights"@,
            UserRights::Chat => "Chat"@,
            UserRights::Admin => "Admin"@,
        }
    }

    /// The name of the rights, as it is shown to a user.
    pub fn label(&self) -> (text: String)
        ensures
            text@ == self.name(),
    {
        match self {
            UserRights::NoRights => "NoRights".to_owned(),
            UserRights::Chat => "Chat".to_owned(),
            UserRights::Admin => "Admin".to_owned(),
        }
    }

    /// Whether these rights include `needed`.
    pub fn includes(&self, needed: UserRights) -> (granted: bool)
        ensures
            granted == (self.rank() >= needed.rank()),
    {
        match (self, needed) {
            (UserRights::Admin, _) => true,
            (UserRights::Chat, UserRights::Admin) => false,
            (UserRights::Chat, _) => true,
            (UserRights::NoRights, UserRights::NoRights) => true,
            (UserRights::NoRights, _) => false,
        }
    }
}

/// What is stored about a user.
#[derive(Clone, Debug)]
pub struct AuthorisationRecord {
    /// The name the user logs in with. No two records share it.
    pub username: String,
    /// The hash of the user's password, never the password itself.
    pub password: String,
    /// Who the user is.
    pub uuid: u128,
    /// What the user may do.
    pub level: UserRights,
    /// What the user can still spend, in millionths of a cent.
    pub credit: i64,
    /// The key under which the user's tokens are encrypted.
    pub key: Vec<u8>,
}

/// What a user gets back from a login that succeeded.
#[derive(Debug)]
pub struct LoginResult {
    pub uuid: u128,
    /// The token of the new session. It must come with every later request.
    pub token: String,
    /// The instant at which the session expires.
    pub expiry: Timestamp,
}

/// What `bcrypt` says of a password and a hash: whether the password is the
/// one that was hashed, or `None` where it cannot tell, as with a hash that
/// is malformed.
pub uninterp spec fn bcrypt_verdict(password: Seq<char>, hash: Seq<char>) -> Option<bool>;

/// Checks a password against a hash.
///
/// Trusted: the body calls `bcrypt::verify`, which hashes the password with
/// the salt and the cost that the hash names and compares. The contract
/// names the answer.
#[verifier::external_body]
fn verify_password(password: &str, hash: &str) -> (res: Option<bool>)
    ensures
        res == bcrypt_verdict(password@, hash@),
{
    match bcrypt::verify(password, hash) {
        Ok(same) => Some(same),
        Err(_) => None,
    }
}

/// The record at `i` is the first one with the name `username`.
pub open spec fn is_first_match(
    records: Seq<AuthorisationRecord>,
    username: Seq<char>,
    i: int,
) -> bool {
    &&& 0 <= i < records.len()
    &&& records[i].username@ == username
    &&& forall|j: int| 0 <= j < i ==> (#[trigger] records[j]).username@ != username
}

/// Where the first record with the name `username` stands, if there is one.
pub open spec fn matched(records: Seq<AuthorisationRecord>, username: Seq<char>) -> Option<int> {
    if exists|i: int| is_first_match(records, username, i) {
        Some(choose|i: int| is_first_match(records, username, i))
    } else {
        None
    }
}

/// Where the record stands that lets `username` in with `password`: the
/// first record with that name, if the password is the one that its hash
/// was made from.
pub open spec fn accepted(
    records: Seq<AuthorisationRecord>,
    username: Seq<char>,
    password: Seq<char>,
) -> Option<int> {
    match matched(records, username) {
        Some(i) => if bcrypt_verdict(password, records[i].password@) == Some(true) {
            Some(i)
        } else {
            None
        },
        None => None,
    }
}

/// The session that a login opens for the user of `record`.
pub open spec fn opened_session(
    record: AuthorisationRecord,
    token: Seq<char>,
    expiry: Timestamp,
) -> SessionView {
    SessionView {
        uuid: record.uuid,
        expire: expiry,
        token,
        credit: record.credit,
        level: record.level,
    }
}

/// What a login at `now` may do to the table and return.
///
/// Where the credentials are not accepted, nothing is returned and the table
/// stays as it is. Where they are, the session expires after the session's
/// duration; if that instant cannot be carried by a token the login fails
/// with `ExpiryOutOfRange`; otherwise, if the user's key is longer than the
/// cipher takes, it fails with `Cipher`; otherwise the login is granted: one
/// session is stored, under a token that opens under the user's key to
/// the payload of the user and the expiry, and decodes to the two.
pub open spec fn login_outcome(
    records: Seq<AuthorisationRecord>,
    username: Seq<char>,
    password: Seq<char>,
    now: Timestamp,
    before: Map<Seq<char>, SessionView>,
    after: Map<Seq<char>, SessionView>,
    res: Result<Option<LoginResult>, TokenError>,
) -> bool {
    match accepted(records, username, password) {
        None => res == Ok::<Option<LoginResult>, TokenError>(None) && after == before,
        Some(i) => {
            let in_range = session_expiry(now) is Some && session_expiry(now).unwrap().is_valid();
            let key_fits = records[i].key@.len() <= KEY_LIMIT;
            match res {
                Ok(None) => false,
                Ok(Some(login)) => {
                    &&& in_range
                    &&& key_fits
                    &&& login.uuid == records[i].uuid
                    &&& login.expiry == session_expiry(now).unwrap()
                    &&& opened(login.token@, records[i].key@) == Ok::<_, DecodeError>(
                        packed(login.uuid, login.expiry),
                    )
                    &&& decoded(login.token@, records[i].key@) == Ok::<_, DecodeError>(
                        (login.uuid, login.expiry),
                    )
                    &&& after == before.insert(
                        login.token@,
                        opened_session(records[i], login.token@, login.expiry),
                    )
                },
                Err(TokenError::ExpiryOutOfRange) => !in_range && after == before,
                Err(TokenError::Cipher) => in_range && !key_fits && after == before,
            }
        },
    }
}

/// Where the first record with the name `username` stands, if there is one.
pub fn find_user(records: &Vec<AuthorisationRecord>, username: &str) -> (found: Option<usize>)
    ensures
        match found {
            Some(i) => matched(records@, username@) == Some(i as int),
            None => matched(records@, username@) is None,
        },
{
    let mut i: usize = 0;
    while i < records.len()
        invariant
            i <= records@.len(),
            forall|j: int| 0 <= j < i ==> (#[trigger] records@[j]).username@ != username@,
        decreases records@.len() - i,
    {
        if str_eq(records[i].username.as_str(), username) {
            assert(is_first_match(records@, username@, i as int));
            return Some(i);
        }
        i += 1;
    }
    None
}

/// Where the record stands that lets `username` in with `password`.
pub fn authenticate(records: &Vec<AuthorisationRecord>, username: &str, password: &str) -> (found:
    Option<usize>)
    ensures
        match found {
            Some(i) => accepted(records@, username@, password@) == Some(i as int) && i
                < records@.len(),
            None => accepted(records@, username@, password@) is None,
        },
{
    match find_user(records, username) {
        Some(i) => {
            match verify_password(password, records[i].password.as_str()) {
                Some(true) => Some(i),
                _ => None,
            }
        },
        None => None,
    }
}

/// Stores a new session for the user of `record` under `token`, and returns
/// what the user gets back.
pub fn open_session(
    record: &AuthorisationRecord,
    token: String,
    expiry: Timestamp,
    sessions: &mut SessionTable,
) -> (login: LoginResult)
    ensures
        login.uuid == record.uuid,
        login.token@ == token@,
        login.expiry == expiry,
        final(sessions)@ == old(sessions)@.insert(token@, opened_session(*record, token@, expiry)),
{
    let session = Session::new(record.uuid, expiry, token.clone(), record.credit, record.level);
    sessions.insert(token.clone(), session);
    LoginResult { uuid: record.uuid, token, expiry }
}

/// Logs a user in at the instant `now`.
///
/// The user is let in where the first record with the name `username` holds
/// the hash of `password`. A login that is refused returns `None` and
/// changes nothing; it does not say whether the name or the password was
/// wrong.
pub fn login_at(
    username: &str,
    password: &str,
    records: &Vec<AuthorisationRecord>,
    now: &Timestamp,
    sessions: &mut SessionTable,
) -> (res: Result<Option<LoginResult>, TokenError>)
    ensures
        login_outcome(
            records@,
            username@,
            password@,
            *now,
            old(sessions)@,
            final(sessions)@,
            res,
        ),
{
    let i = match authenticate(records, username, password) {
        Some(i) => i,
        None => {
            return Ok(None);
        },
    };
    let expiry = match expire_after(now) {
        Some(expiry) => expiry,
        None => {
            return Err(TokenError::ExpiryOutOfRange);
        },
    };
    match generate_token(records[i].uuid, &expiry, records[i].key.as_slice()) {
        Err(e) => Err(e),
        Ok(token) => Ok(Some(open_session(&records[i], token, expiry, sessions))),
    }
}

/// Logs a user in now.
///
/// The clock decides the instant. Whatever it shows, the login does what
/// `login_at` does at that instant.
pub fn login(
    username: &str,
    password: &str,
    records: &Vec<AuthorisationRecord>,
    sessions: &mut SessionTable,
) -> (res: Result<Option<LoginResult>, TokenError>)
    ensures
        exists|now: Timestamp|
            now.is_reading() && #[trigger] login_outcome(
                records@,
                username@,
                password@,
                now,
                old(sessions)@,
                final(sessions)@,
                res,
            ),
{
    let now = clock();
    login_at(username, password, records, &now, sessions)
}

} // verus!
