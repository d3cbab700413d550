//! The relay's answers to its clients: the session guard, login, logout,
//! the two halves of a chat and the credit ledger.
//!
//! Every function here is one step under the program's lock on the backend.
//! The call to the language model is not made here: `process_chat_request`
//! says whether it is to be made, and `settle_chat` books what it cost once
//! it has returned.

use vstd::prelude::*;
use vstd::string::*;

use crate::authorisation::{
    accepted, bcrypt_verdict, login_at, login_outcome, matched, opened_session,
    AuthorisationRecord, LoginResult, UserRights,
};
use crate::communication::{
    invalid, ChatResponse, CommType, LoginResponse, LogoutResponse, Message, MessageView, Payload,
    PayloadView,
};
use crate::session::{
    debit_result, debited, lemma_debit_never_raises_credit, lemma_debit_touches_one_session,
    DebitError, SessionTable, SessionView,
};
use crate::text::{starts_with, str_eq};
use crate::timestamp::{clock, session_expiry, Timestamp};
use crate::token::{decoded, DecodeError, TokenError, KEY_LIMIT};

verus! {

/// The counters that the language model returns with an answer.
#[derive(Clone, Copy, Debug, PartialEq, Eq, Structural)]
pub struct Usage {
    pub prompt_tokens: u32,
    pub completion_tokens: u32,
    pub total_tokens: u32,
}

/// What the language model returned for a prompt.
#[derive(Debug)]
pub struct Completion {
    pub model: String,
    pub usage: Usage,
    pub response: String,
}

/// The price tiers. A model belongs to the tier with the longest prefix
/// that its name begins with.
#[derive(Clone, Copy, Debug, PartialEq, Eq, Structural)]
pub enum Tier {
    Gpt4o,
    Gpt4,
    Gpt3,
}

/// What must be written to the user's record after a chat.
#[derive(Clone, Copy, Debug, PartialEq, Eq, Structural)]
pub struct Persist {
    pub uuid: u128,
    pub credit: i64,
    pub level: UserRights,
}

/// How a chat ends: the reply to the client and, where a debit was booked,
/// what must be written to the user's record.
#[derive(Debug)]
pub struct Settlement {
    pub reply: Message,
    pub persist: Option<Persist>,
}

/// What is to be done with a chat request.
#[derive(Debug)]
pub enum ChatStep {
    /// The request is refused with this reply.
    Refuse(Message),
    /// The prompt is to be handed to the language model.
    Forward,
}

/// How a logout ended.
#[derive(Clone, Copy, Debug, PartialEq, Eq, Structural)]
pub enum LogoutOutcome {
    Success,
    NotASession,
}

/// Where a request is to go.
#[derive(Clone, Copy, Debug, PartialEq, Eq, Structural)]
pub enum Route {
    Login,
    Chat,
    Logout,
    NotFound,
}

/// The tier of a model.
pub open spec fn tier(model: Seq<char>) -> Option<Tier> {
    if "gpt-4o"@.is_prefix_of(model) {
        Some(Tier::Gpt4o)
    } else if "gpt-4"@.is_prefix_of(model) {
        Some(Tier::Gpt4)
    } else if "gpt-3"@.is_prefix_of(model) {
        Some(Tier::Gpt3)
    } else {
        None
    }
}

/// What one token of an answer costs, in millionths of a cent.
pub open spec fn completion_rate(tier: Tier) -> int {
    match tier {
        Tier::Gpt4o => 1500,
        Tier::Gpt4 => 6000,
        Tier::Gpt3 => 600,
    }
}

/// What one token of a prompt costs, in millionths of a cent.
pub open spec fn prompt_rate(tier: Tier) -> int {
    match tier {
        Tier::Gpt4o => 500,
        Tier::Gpt4 => 3000,
        Tier::Gpt3 => 300,
    }
}

/// What a call with the given counters costs at the rates of a tier, in
/// millionths of a cent.
pub open spec fn tier_price(tier: Tier, usage: Usage) -> u64 {
    (usage.completion_tokens * completion_rate(tier) + usage.prompt_tokens * prompt_rate(
        tier,
    )) as u64
}

/// What a call to `model` with the given counters costs, in millionths of a
/// cent. A model that belongs to no tier has no price.
pub open spec fn price(model: Seq<char>, usage: Usage) -> Option<u64> {
    match tier(model) {
        Some(t) => Some(tier_price(t, usage)),
        None => None,
    }
}

/// The session guard: a session is stored under `token`, it names that
/// token, and it expires strictly after `now`.
pub open spec fn live(table: Map<Seq<char>, SessionView>, token: Seq<char>, now: Timestamp) -> bool {
    table.contains_key(token) && table[token].token == token && table[token].expire.after(now)
}

/// The table after a logout with `token` at `now`.
pub open spec fn logged_out(table: Map<Seq<char>, SessionView>, token: Seq<char>, now: Timestamp)
    -> Map<Seq<char>, SessionView> {
    if live(table, token, now) {
        table.remove(token)
    } else {
        table
    }
}

pub open spec fn malformed_request() -> Seq<char> {
    "Malformed request"@
}

pub open spec fn invalid_session() -> Seq<char> {
    "Invalid session"@
}

pub open spec fn not_a_logout() -> Seq<char> {
    "Not a Logout Request"@
}

pub open spec fn no_token() -> Seq<char> {
    "Could not issue a token"@
}

pub open spec fn credit_out_of_range() -> Seq<char> {
    "Credit out of range"@
}

pub open spec fn not_a_login(kind: CommType) -> Seq<char> {
    "Can only send a LoginRequest not "@ + kind.name()
}

pub open spec fn not_a_chat(kind: CommType) -> Seq<char> {
    "Invalid message type sent to `chat`: "@ + kind.name()
}

pub open spec fn unknown_model(model: Seq<char>) -> Seq<char> {
    "Unknown model: "@ + model
}

pub open spec fn backend_error(error: Seq<char>) -> Seq<char> {
    "OpenAI Chat Error: "@ + error
}

/// The reply to a logout request at `now`.
pub open spec fn logout_reply(
    message: MessageView,
    table: Map<Seq<char>, SessionView>,
    now: Timestamp,
) -> MessageView {
    if message.comm_type != CommType::LogoutRequest {
        invalid(not_a_logout())
    } else {
        match message.object {
            PayloadView::LogoutRequest { uuid, token } => MessageView {
                comm_type: CommType::LogoutResponse,
                object: PayloadView::LogoutResponse { success: live(table, token, now) },
            },
            _ => invalid(malformed_request()),
        }
    }
}

/// The table after a logout request at `now`.
pub open spec fn logout_table(
    message: MessageView,
    table: Map<Seq<char>, SessionView>,
    now: Timestamp,
) -> Map<Seq<char>, SessionView> {
    if message.comm_type != CommType::LogoutRequest {
        table
    } else {
        match message.object {
            PayloadView::LogoutRequest { uuid, token } => logged_out(table, token, now),
            _ => table,
        }
    }
}

/// The reply that refuses a chat request at `now`, or `None` where the
/// prompt is to be handed to the language model.
pub open spec fn chat_refusal(
    message: MessageView,
    table: Map<Seq<char>, SessionView>,
    now: Timestamp,
) -> Option<MessageView> {
    if message.comm_type != CommType::ChatPrompt {
        Some(invalid(not_a_chat(message.comm_type)))
    } else {
        match message.object {
            PayloadView::ChatPrompt { token, model } => if live(table, token, now) {
                None
            } else {
                Some(invalid(invalid_session()))
            },
            _ => Some(invalid(malformed_request())),
        }
    }
}

/// The reply that ends a chat whose call to the language model returned.
pub open spec fn settlement_reply(
    table: Map<Seq<char>, SessionView>,
    token: Seq<char>,
    model: Seq<char>,
    usage: Usage,
    response: Seq<char>,
) -> MessageView {
    match price(model, usage) {
        None => invalid(unknown_model(model)),
        Some(cost) => match debit_result(table, token, cost) {
            Err(DebitError::NoSession) => invalid(invalid_session()),
            Err(DebitError::OutOfRange) => invalid(credit_out_of_range()),
            Ok(credit) => MessageView {
                comm_type: CommType::ChatResponse,
                object: PayloadView::ChatResponse { model, cost, response, credit },
            },
        },
    }
}

/// The table after a chat whose call to the language model returned.
pub open spec fn settlement_table(
    table: Map<Seq<char>, SessionView>,
    token: Seq<char>,
    model: Seq<char>,
    usage: Usage,
) -> Map<Seq<char>, SessionView> {
    match price(model, usage) {
        None => table,
        Some(cost) => debited(table, token, cost),
    }
}

/// What must be written to the user's record after a chat whose call to the
/// language model returned: the new credit, where a debit was booked.
pub open spec fn settlement_persist(
    table: Map<Seq<char>, SessionView>,
    token: Seq<char>,
    model: Seq<char>,
    usage: Usage,
) -> Option<Persist> {
    match price(model, usage) {
        None => None,
        Some(cost) => match debit_result(table, token, cost) {
            Err(_) => None,
            Ok(credit) => Some(
                Persist { uuid: table[token].uuid, credit, level: table[token].level },
            ),
        },
    }
}

/// The reply to a login that was refused: no identity, no token, and the
/// credit and the expiry at zero.
pub open spec fn login_refused() -> MessageView {
    MessageView {
        comm_type: CommType::LoginResponse,
        object: PayloadView::LoginResponse {
            success: false,
            uuid: None,
            token: None,
            credit: 0,
            expire: Timestamp { secs: 0, nanos: 0 },
        },
    }
}

/// The reply to a login with the given result, for a user with the given
/// credit.
pub open spec fn login_reply(result: Result<Option<LoginResult>, TokenError>, credit: i64)
    -> MessageView {
    match result {
        Ok(Some(login)) => MessageView {
            comm_type: CommType::LoginResponse,
            object: PayloadView::LoginResponse {
                success: true,
                uuid: Some(login.uuid),
                token: Some(login.token@),
                credit,
                expire: login.expiry,
            },
        },
        Ok(None) => login_refused(),
        Err(_) => invalid(no_token()),
    }
}

/// What a login request at `now` may do to the table and answer.
///
/// A message that is no login request, or whose object cannot be read as
/// one, is answered as invalid and changes nothing. Otherwise the login does
/// what `login_outcome` says, and the reply is the one that `login_reply`
/// gives for its result and the credit of the user's record.
pub open spec fn login_exchange(
    message: MessageView,
    records: Seq<AuthorisationRecord>,
    now: Timestamp,
    before: Map<Seq<char>, SessionView>,
    after: Map<Seq<char>, SessionView>,
    reply: MessageView,
) -> bool {
    if message.comm_type != CommType::LoginRequest {
        reply == invalid(not_a_login(message.comm_type)) && after == before
    } else {
        match message.object {
            PayloadView::LoginRequest { username, password } => exists|
                result: Result<Option<LoginResult>, TokenError>,
            |
                {
                    &&& #[trigger] login_outcome(
                        records,
                        username,
                        password,
                        now,
                        before,
                        after,
                        result,
                    )
                    &&& reply == login_reply(
                        result,
                        match accepted(records, username, password) {
                            Some(i) => records[i].credit,
                            None => 0,
                        },
                    )
                },
            _ => reply == invalid(malformed_request()) && after == before,
        }
    }
}

/// A login that is accepted and issues a token stores exactly one session
/// more and touches no other, and the guard accepts the token at once.
pub proof fn lemma_login_opens_live_session(
    records: Seq<AuthorisationRecord>,
    username: Seq<char>,
    password: Seq<char>,
    now: Timestamp,
    before: Map<Seq<char>, SessionView>,
    after: Map<Seq<char>, SessionView>,
    login: LoginResult,
)
    requires
        login_outcome(
            records,
            username,
            password,
            now,
            before,
            after,
            Ok::<_, TokenError>(Some(login)),
        ),
    ensures
        live(after, login.token@, now),
        after.dom() == before.dom().insert(login.token@),
        forall|other: Seq<char>|
            other != login.token@ && before.contains_key(other) ==> after[other] == before[other],
        before.dom().finite() && !before.contains_key(login.token@) ==> after.dom().len()
            == before.dom().len() + 1,
        after[login.token@].uuid == login.uuid,
        decoded(
            login.token@,
            records[accepted(records, username, password).unwrap()].key@,
        ) == Ok::<_, DecodeError>((login.uuid, after[login.token@].expire)),
{
    assert(after.dom() =~= before.dom().insert(login.token@));
}

/// A login with the name of a record and the password that the record's hash
/// was made from is granted, where the session's expiry is one that a token
/// can carry and the user's key is one that the cipher takes: it stores
/// exactly one session more, with the user's identity, credit and rights,
/// touches no other, and the guard accepts the new token at once.
pub proof fn lemma_right_credentials_are_let_in(
    records: Seq<AuthorisationRecord>,
    username: Seq<char>,
    password: Seq<char>,
    now: Timestamp,
    before: Map<Seq<char>, SessionView>,
    after: Map<Seq<char>, SessionView>,
    res: Result<Option<LoginResult>, TokenError>,
)
    requires
        accepted(records, username, password) matches Some(i) && records[i].key@.len()
            <= KEY_LIMIT,
        session_expiry(now) matches Some(expiry) && expiry.is_valid(),
        login_outcome(records, username, password, now, before, after, res),
    ensures
        res matches Ok(Some(login)) && ({
            let record = records[accepted(records, username, password).unwrap()];
            &&& login.uuid == record.uuid
            &&& login.expiry == session_expiry(now).unwrap()
            &&& live(after, login.token@, now)
            &&& after == before.insert(
                login.token@,
                opened_session(record, login.token@, login.expiry),
            )
            &&& after.dom() == before.dom().insert(login.token@)
            &&& forall|other: Seq<char>|
                other != login.token@ && before.contains_key(other) ==> after[other]
                    == before[other]
            &&& before.dom().finite() && !before.contains_key(login.token@) ==> after.dom().len()
                == before.dom().len() + 1
        }),
{
    let login = res->Ok_0->Some_0;
    assert(after.dom() =~= before.dom().insert(login.token@));
}

/// A login request with right credentials is answered with success, the
/// user's identity and credit, the token of the one session that was added
/// and the expiry of that session, under the conditions of
/// `lemma_right_credentials_are_let_in`.
pub proof fn lemma_granted_login_is_answered(
    message: MessageView,
    records: Seq<AuthorisationRecord>,
    now: Timestamp,
    before: Map<Seq<char>, SessionView>,
    after: Map<Seq<char>, SessionView>,
    reply: MessageView,
)
    requires
        message.comm_type == CommType::LoginRequest,
        message.object matches PayloadView::LoginRequest { username, password } && accepted(
            records,
            username,
            password,
        ) matches Some(i) && records[i].key@.len() <= KEY_LIMIT,
        session_expiry(now) matches Some(expiry) && expiry.is_valid(),
        login_exchange(message, records, now, before, after, reply),
    ensures
        reply.comm_type == CommType::LoginResponse,
        reply.object matches PayloadView::LoginResponse { success, uuid, token, credit, expire }
            && ({
            let record = records[accepted(
                records,
                message.object->LoginRequest_username,
                message.object->LoginRequest_password,
            ).unwrap()];
            &&& success
            &&& uuid == Some(record.uuid)
            &&& credit == record.credit
            &&& expire == session_expiry(now).unwrap()
            &&& token matches Some(t) && after == before.insert(
                t,
                opened_session(record, t, expire),
            ) && live(after, t, now)
        }),
{
}

/// A login with a name that no record holds, or with a password that the
/// record's hash was not made from, is refused and leaves the table as it
/// is; the reply does not say which of the two was wrong.
pub proof fn lemma_refused_login_changes_nothing(
    message: MessageView,
    records: Seq<AuthorisationRecord>,
    now: Timestamp,
    before: Map<Seq<char>, SessionView>,
    after: Map<Seq<char>, SessionView>,
    reply: MessageView,
)
    requires
        message.comm_type == CommType::LoginRequest,
        message.object matches PayloadView::LoginRequest { username, password } && (matched(
            records,
            username,
        ) is None || bcrypt_verdict(
            password,
            records[matched(records, username).unwrap()].password@,
        ) != Some(true)),
        login_exchange(message, records, now, before, after, reply),
    ensures
        reply == login_refused(),
        after == before,
{
}

/// The guard refuses a session whose expiry is not after the present
/// instant, though the session is in the table; a logout with its token
/// fails and a chat with it is refused.
pub proof fn lemma_expired_session_is_refused(
    table: Map<Seq<char>, SessionView>,
    token: Seq<char>,
    model: Seq<char>,
    now: Timestamp,
)
    requires
        table.contains_key(token),
        !table[token].expire.after(now),
    ensures
        !live(table, token, now),
        logged_out(table, token, now) == table,
        chat_refusal(
            MessageView {
                comm_type: CommType::ChatPrompt,
                object: PayloadView::ChatPrompt { token, model },
            },
            table,
            now,
        ) == Some(invalid(invalid_session())),
{
}

/// A logout that the guard lets through removes the session and no other;
/// after it, at any instant, the guard refuses the token and a second
/// logout fails and changes nothing.
pub proof fn lemma_logout_once(
    table: Map<Seq<char>, SessionView>,
    token: Seq<char>,
    now: Timestamp,
    later: Timestamp,
)
    requires
        live(table, token, now),
    ensures
        logged_out(table, token, now) == table.remove(token),
        !logged_out(table, token, now).contains_key(token),
        !live(logged_out(table, token, now), token, later),
        logged_out(logged_out(table, token, now), token, later) == logged_out(table, token, now),
        table.dom().finite() ==> logged_out(table, token, now).dom().len() == table.dom().len()
            - 1,
{
}

/// The price of a call is what its answer and its prompt cost at the rates
/// of the model's tier, and a chat that is booked takes exactly that from
/// the session's credit.
pub proof fn lemma_settlement_takes_the_price(
    table: Map<Seq<char>, SessionView>,
    token: Seq<char>,
    model: Seq<char>,
    usage: Usage,
)
    requires
        table.contains_key(token),
        price(model, usage) matches Some(cost) && table[token].credit - cost >= i64::MIN,
    ensures
        settlement_table(table, token, model, usage)[token].credit == table[token].credit - price(
            model,
            usage,
        ).unwrap(),
        settlement_table(table, token, model, usage)[token].credit <= table[token].credit,
        settlement_persist(table, token, model, usage) == Some(
            Persist {
                uuid: table[token].uuid,
                credit: (table[token].credit - price(model, usage).unwrap()) as i64,
                level: table[token].level,
            },
        ),
{
}

/// The table after the chats of `chats` were booked one after another. A
/// chat is given by the token it was made with, the model that answered and
/// the counters that came back.
pub open spec fn run_chats(
    table: Map<Seq<char>, SessionView>,
    chats: Seq<(Seq<char>, Seq<char>, Usage)>,
) -> Map<Seq<char>, SessionView>
    decreases chats.len(),
{
    if chats.len() == 0 {
        table
    } else {
        settlement_table(
            run_chats(table, chats.drop_last()),
            chats.last().0,
            chats.last().1,
            chats.last().2,
        )
    }
}

/// The sum of the prices of the chats among `chats` that were made with
/// `token`. A chat with a model of no tier has no price and adds nothing.
pub open spec fn spent_on(chats: Seq<(Seq<char>, Seq<char>, Usage)>, token: Seq<char>) -> int
    decreases chats.len(),
{
    if chats.len() == 0 {
        0
    } else {
        spent_on(chats.drop_last(), token) + if chats.last().0 == token {
            match price(chats.last().1, chats.last().2) {
                Some(cost) => cost as int,
                None => 0,
            }
        } else {
            0
        }
    }
}

/// However the chats of different sessions are interleaved, the credit of a
/// session ends as what it began with less the sum of the prices of its own
/// chats, and never above what it began with, as long as the credit can go
/// that low. No chat is lost and none is booked on another session.
pub proof fn lemma_chats_add_up(
    table: Map<Seq<char>, SessionView>,
    chats: Seq<(Seq<char>, Seq<char>, Usage)>,
    token: Seq<char>,
)
    requires
        table.contains_key(token),
        table[token].credit - spent_on(chats, token) >= i64::MIN,
    ensures
        run_chats(table, chats).contains_key(token),
        run_chats(table, chats)[token].credit == table[token].credit - spent_on(chats, token),
        run_chats(table, chats)[token].credit <= table[token].credit,
        run_chats(table, chats)[token] == (SessionView {
            credit: run_chats(table, chats)[token].credit,
            ..table[token]
        }),
        spent_on(chats, token) >= 0,
    decreases chats.len(),
{
    if chats.len() > 0 {
        let earlier = chats.drop_last();
        lemma_spent_is_not_negative(earlier, token);
        lemma_chats_add_up(table, earlier, token);
        let so_far = run_chats(table, earlier);
        let last = chats.last();
        match price(last.1, last.2) {
            Some(cost) => {
                if last.0 == token {
                    lemma_debit_never_raises_credit(so_far, token, cost);
                } else {
                    lemma_debit_touches_one_session(so_far, last.0, cost, token);
                }
            },
            None => {},
        }
    }
}

proof fn lemma_spent_is_not_negative(chats: Seq<(Seq<char>, Seq<char>, Usage)>, token: Seq<char>)
    ensures
        spent_on(chats, token) >= 0,
    decreases chats.len(),
{
    if chats.len() > 0 {
        lemma_spent_is_not_negative(chats.drop_last(), token);
    }
}

/// Where a request to `path` is to go.
pub open spec fn routed(path: Seq<char>) -> Route {
    if path == "/api/login"@ {
        Route::Login
    } else if path == "/api/chat"@ {
        Route::Chat
    } else if path == "/api/logout"@ {
        Route::Logout
    } else {
        Route::NotFound
    }
}

/// Where a request to `path` is to go.
pub fn route(path: &str) -> (to: Route)
    ensures
        to == routed(path@),
{
    if str_eq(path, "/api/login") {
        Route::Login
    } else if str_eq(path, "/api/chat") {
        Route::Chat
    } else if str_eq(path, "/api/logout") {
        Route::Logout
    } else {
        Route::NotFound
    }
}

/// The reply to a chat whose call to the language model failed.
pub fn chat_failure(error: &str) -> (reply: Message)
    ensures
        reply@ == invalid(backend_error(error@)),
{
    Message::invalid("OpenAI Chat Error: ".to_owned().concat(error))
}

/// The reply to a login with the given result, for a user with the given
/// credit.
pub fn login_response(result: Result<Option<LoginResult>, TokenError>, credit: i64) -> (reply:
    Message)
    ensures
        reply@ == login_reply(result, credit),
{
    match result {
        Ok(Some(login)) => Message {
            comm_type: CommType::LoginResponse,
            object: Payload::LoginResponse(
                LoginResponse {
                    success: true,
                    uuid: Some(login.uuid),
                    token: Some(login.token),
                    credit,
                    expire: login.expiry,
                },
            ),
        },
        Ok(None) => Message {
            comm_type: CommType::LoginResponse,
            object: Payload::LoginResponse(
                LoginResponse {
                    success: false,
                    uuid: None,
                    token: None,
                    credit: 0,
                    expire: Timestamp { secs: 0, nanos: 0 },
                },
            ),
        },
        Err(_) => Message::invalid("Could not issue a token".to_owned()),
    }
}

/// The backend of the relay: the table of open sessions, and whether the
/// relay runs under test, without a language model behind it.
pub struct AppBackend {
    /// The sessions that are open, each stored under its token.
    pub sessions: SessionTable,
    /// Whether the relay runs under test.
    pub testing: bool,
}

impl AppBackend {
    /// A backend with no session.
    pub fn new(testing: bool) -> (backend: AppBackend)
        ensures
            backend.sessions@ == Map::<Seq<char>, SessionView>::empty(),
            backend.testing == testing,
    {
        AppBackend { sessions: SessionTable::new(), testing }
    }

    /// The tier of a model, if it belongs to one.
    pub fn tier_of(model: &str) -> (found: Option<Tier>)
        ensures
            found == tier(model@),
    {
        if starts_with(model, "gpt-4o") {
            Some(Tier::Gpt4o)
        } else if starts_with(model, "gpt-4") {
            Some(Tier::Gpt4)
        } else if starts_with(model, "gpt-3") {
            Some(Tier::Gpt3)
        } else {
            None
        }
    }

    /// What a call to `model` with the given counters costs, in millionths
    /// of a cent.
    ///
    /// A model that belongs to no tier has no price, and none is made up for
    /// it: the function is for models that `tier_of` finds a tier for.
    pub fn cost(usage: &Usage, model: &str) -> (cost: u64)
        requires
            tier(model@) is Some,
        ensures
            price(model@, *usage) == Some(cost),
            cost == tier_price(tier(model@).unwrap(), *usage),
    {
        let completion = usage.completion_tokens as u64;
        let prompt = usage.prompt_tokens as u64;
        match AppBackend::tier_of(model) {
            Some(Tier::Gpt4o) => completion * 1500 + prompt * 500,
            Some(Tier::Gpt4) => completion * 6000 + prompt * 3000,
            Some(Tier::Gpt3) => completion * 600 + prompt * 300,
            None => vstd::pervasive::unreached(),
        }
    }

    /// The session guard at the instant `now`.
    pub fn valid_session_at(&self, token: &str, now: &Timestamp) -> (valid: bool)
        ensures
            valid == live(self.sessions@, token@, *now),
    {
        match self.sessions.get(token) {
            Some(session) => str_eq(session.token.as_str(), token) && session.expire.is_after(now),
            None => false,
        }
    }

    /// The session guard, now.
    ///
    /// The clock decides the instant. Whatever it shows, the answer is the
    /// guard's at that instant.
    pub fn valid_session(&self, token: &str) -> (valid: bool)
        ensures
            exists|now: Timestamp|
                now.is_reading() && valid == #[trigger] live(self.sessions@, token@, now),
    {
        let now = clock();
        self.valid_session_at(token, &now)
    }

    /// Ends the session under `token` at the instant `now`. A token that the
    /// guard refuses ends nothing.
    pub fn logout_at(&mut self, token: &str, now: &Timestamp) -> (outcome: LogoutOutcome)
        ensures
            outcome == if live(old(self).sessions@, token@, *now) {
                LogoutOutcome::Success
            } else {
                LogoutOutcome::NotASession
            },
            final(self).sessions@ == logged_out(old(self).sessions@, token@, *now),
            final(self).testing == old(self).testing,
    {
        if !self.valid_session_at(token, now) {
            return LogoutOutcome::NotASession;
        }
        match self.sessions.remove(token) {
            Some(_) => LogoutOutcome::Success,
            None => LogoutOutcome::NotASession,
        }
    }

    /// Answers a logout request at the instant `now`.
    pub fn process_logout_at(&mut self, message: &Message, now: &Timestamp) -> (reply: Message)
        ensures
            reply@ == logout_reply(message@, old(self).sessions@, *now),
            final(self).sessions@ == logout_table(message@, old(self).sessions@, *now),
            final(self).testing == old(self).testing,
    {
        match message.comm_type {
            CommType::LogoutRequest => match &message.object {
                Payload::LogoutRequest(request) => {
                    let success = match self.logout_at(request.token.as_str(), now) {
                        LogoutOutcome::Success => true,
                        LogoutOutcome::NotASession => false,
                    };
                    Message {
                        comm_type: CommType::LogoutResponse,
                        object: Payload::LogoutResponse(LogoutResponse { success }),
                    }
                },
                _ => Message::invalid("Malformed request".to_owned()),
            },
            _ => Message::invalid("Not a Logout Request".to_owned()),
        }
    }

    /// Answers a logout request, now.
    ///
    /// The clock decides the instant. Whatever it shows, the answer and the
    /// table are those of `process_logout_at` at that instant.
    pub fn process_logout(&mut self, message: &Message) -> (reply: Message)
        ensures
            exists|now: Timestamp|
                now.is_reading() && reply@ == #[trigger] logout_reply(
                    message@,
                    old(self).sessions@,
                    now,
                ) && final(self).sessions@ == logout_table(message@, old(self).sessions@, now),
            final(self).testing == old(self).testing,
    {
        let now = clock();
        self.process_logout_at(message, &now)
    }

    /// Answers a login request at the instant `now`, against the records of
    /// the users.
    pub fn process_login_at(
        &mut self,
        message: &Message,
        records: &Vec<AuthorisationRecord>,
        now: &Timestamp,
    ) -> (reply: Message)
        ensures
            login_exchange(
                message@,
                records@,
                *now,
                old(self).sessions@,
                final(self).sessions@,
                reply@,
            ),
            final(self).testing == old(self).testing,
    {
        match message.comm_type {
            CommType::LoginRequest => match &message.object {
                Payload::LoginRequest(request) => {
                    let result = login_at(
                        request.username.as_str(),
                        request.password.as_str(),
                        records,
                        now,
                        &mut self.sessions,
                    );
                    let credit = match &result {
                        Ok(Some(login)) => match self.sessions.get(login.token.as_str()) {
                            Some(session) => session.credit,
                            None => 0,
                        },
                        _ => 0,
                    };
                    login_response(result, credit)
                },
                _ => Message::invalid("Malformed request".to_owned()),
            },
            kind => Message::invalid(
                "Can only send a LoginRequest not ".to_owned().concat(kind.label().as_str()),
            ),
        }
    }

    /// Answers a login request, now.
    ///
    /// The clock decides the instant. Whatever it shows, the answer and the
    /// table are as `process_login_at` leaves them at that instant.
    pub fn process_login(&mut self, message: &Message, records: &Vec<AuthorisationRecord>) -> (reply:
        Message)
        ensures
            exists|now: Timestamp|
                now.is_reading() && #[trigger] login_exchange(
                    message@,
                    records@,
                    now,
                    old(self).sessions@,
                    final(self).sessions@,
                    reply@,
                ),
            final(self).testing == old(self).testing,
    {
        let now = clock();
        self.process_login_at(message, records, &now)
    }

    /// Says what is to be done with a chat request at the instant `now`: it
    /// is refused where the message is no chat prompt, where its object
    /// cannot be read as one, and where the guard refuses its token.
    pub fn process_chat_request_at(&self, message: &Message, now: &Timestamp) -> (step: ChatStep)
        ensures
            match step {
                ChatStep::Refuse(reply) => chat_refusal(message@, self.sessions@, *now) == Some(
                    reply@,
                ),
                ChatStep::Forward => chat_refusal(message@, self.sessions@, *now) is None,
            },
    {
        match message.comm_type {
            CommType::ChatPrompt => match &message.object {
                Payload::ChatPrompt(prompt) => {
                    if self.valid_session_at(prompt.token.as_str(), now) {
                        ChatStep::Forward
                    } else {
                        ChatStep::Refuse(Message::invalid("Invalid session".to_owned()))
                    }
                },
                _ => ChatStep::Refuse(Message::invalid("Malformed request".to_owned())),
            },
            kind => ChatStep::Refuse(
                Message::invalid(
                    "Invalid message type sent to `chat`: ".to_owned().concat(
                        kind.label().as_str(),
                    ),
                ),
            ),
        }
    }

    /// Says what is to be done with a chat request, now.
    ///
    /// The clock decides the instant. Whatever it shows, the step is that of
    /// `process_chat_request_at` at that instant.
    pub fn process_chat_request(&self, message: &Message) -> (step: ChatStep)
        ensures
            exists|now: Timestamp|
                now.is_reading() && match step {
                    ChatStep::Refuse(reply) => #[trigger] chat_refusal(
                        message@,
                        self.sessions@,
                        now,
                    ) == Some(reply@),
                    ChatStep::Forward => chat_refusal(message@, self.sessions@, now) is None,
                },
    {
        let now = clock();
        self.process_chat_request_at(message, &now)
    }

    /// Books a chat whose call to the language model returned: takes the
    /// price of the call from the credit of the session under `token`, and
    /// answers with the new credit. The credit may become negative. Where
    /// the model belongs to no tier, the session is gone or the credit
    /// cannot go that low, nothing is booked and the reply says so.
    pub fn settle_chat(&mut self, token: &str, completion: Completion) -> (end: Settlement)
        ensures
            end.reply@ == settlement_reply(
                old(self).sessions@,
                token@,
                completion.model@,
                completion.usage,
                completion.response@,
            ),
            end.persist == settlement_persist(
                old(self).sessions@,
                token@,
                completion.model@,
                completion.usage,
            ),
            final(self).sessions@ == settlement_table(
                old(self).sessions@,
                token@,
                completion.model@,
                completion.usage,
            ),
            final(self).testing == old(self).testing,
    {
        if AppBackend::tier_of(completion.model.as_str()).is_none() {
            let reason = "Unknown model: ".to_owned().concat(completion.model.as_str());
            return Settlement { reply: Message::invalid(reason), persist: None };
        }
        let cost = AppBackend::cost(&completion.usage, completion.model.as_str());
        let (uuid, level) = match self.sessions.get(token) {
            Some(session) => (session.uuid, session.level),
            None => {
                return Settlement {
                    reply: Message::invalid("Invalid session".to_owned()),
                    persist: None,
                };
            },
        };
        match self.sessions.debit(token, cost) {
            Ok(credit) => Settlement {
                reply: Message {
                    comm_type: CommType::ChatResponse,
                    object: Payload::ChatResponse(
                        ChatResponse {
                            model: completion.model,
                            cost,
                            response: completion.response,
                            credit,
                        },
                    ),
                },
                persist: Some(Persist { uuid, credit, level }),
            },
            Err(DebitError::NoSession) => Settlement {
                reply: Message::invalid("Invalid session".to_owned()),
                persist: None,
            },
            Err(DebitError::OutOfRange) => Settlement {
                reply: Message::invalid("Credit out of range".to_owned()),
                persist: None,
            },
        }
    }
}

} // verus!
