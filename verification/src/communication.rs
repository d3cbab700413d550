//! The messages that the relay exchanges with its clients.
//!
//! A message names its kind and carries an object. The two are kept apart,
//! as on the wire: a message may name one kind and carry an object of
//! another, and the relay answers such a message as invalid.

use vstd::prelude::*;
use vstd::string::*;

use crate::timestamp::Timestamp;

verus! {

/// The kind that a message names.
#[derive(Copy, Clone, Debug, PartialEq, Eq, Structural)]
pub enum CommType {
    LoginRequest,
    LoginResponse,
    ChatPrompt,
    ChatResponse,
    LogoutRequest,
    LogoutResponse,
    InvalidRequest,
}

impl CommType {
    /// The name of the kind, as it is shown in a reply.
    pub open spec fn name(self) -> Seq<char> {
        match self {
            CommType::LoginRequest => "LoginRequest"@,
            CommType::LoginResponse => "LoginResponse"@,
            CommType::ChatPrompt => "ChatPrompt"@,
            CommType::ChatResponse => "ChatResponse"@,
            CommType::LogoutRequest => "LogoutRequest"@,
            CommType::LogoutResponse => "LogoutResponse"@,
            CommType::InvalidRequest => "InvalidRequest"@,
        }
    }

    /// The name of the kind, as it is shown in a reply.
    pub fn label(&self) -> (text: String)
        ensures
            text@ == self.name(),
    {
        match self {
            CommType::LoginRequest => "LoginRequest".to_owned(),
            CommType::LoginResponse => "LoginResponse".to_owned(),
            CommType::ChatPrompt => "ChatPrompt".to_owned(),
            CommType::ChatResponse => "ChatResponse".to_owned(),
            CommType::LogoutRequest => "LogoutRequest".to_owned(),
            CommType::LogoutResponse => "LogoutResponse".to_owned(),
            CommType::InvalidRequest => "InvalidRequest".to_owned(),
        }
    }
}

/// A user asks to be let in.
#[derive(Debug)]
pub struct LoginRequest {
    pub username: String,
    pub password: String,
}

/// The answer to a `LoginRequest`. Where the login was refused, `success`
/// is false, no identity and no token are given and the credit is zero.
#[derive(Debug)]
pub struct LoginResponse {
    pub success: bool,
    pub uuid: Option<u128>,
    pub token: Option<String>,
    /// What the user can spend, in millionths of a cent.
    pub credit: i64,
    /// The instant at which the token stops being valid.
    pub expire: Timestamp,
}

/// A user puts a question to the language model.
#[derive(Debug)]
pub struct ChatPrompt {
    pub token: String,
    pub model: String,
}

/// The answer to a `ChatPrompt`.
#[derive(Debug)]
pub struct ChatResponse {
    pub model: String,
    /// What the call cost, in millionths of a cent.
    pub cost: u64,
    pub response: String,
    /// What the user can still spend, in millionths of a cent.
    pub credit: i64,
}

/// A user asks to be logged out.
#[derive(Debug)]
pub struct LogoutRequest {
    pub uuid: u128,
    pub token: String,
}

/// The answer to a `LogoutRequest`.
#[derive(Debug)]
pub struct LogoutResponse {
    pub success: bool,
}

/// The answer to a message that the relay could not act on.
#[derive(Debug)]
pub struct InvalidRequest {
    pub reason: String,
}

/// The object that a message carries.
#[derive(Debug)]
pub enum Payload {
    LoginRequest(LoginRequest),
    LoginResponse(LoginResponse),
    ChatPrompt(ChatPrompt),
    ChatResponse(ChatResponse),
    LogoutRequest(LogoutRequest),
    LogoutResponse(LogoutResponse),
    InvalidRequest(InvalidRequest),
    /// An object that could not be read as any of the others.
    Unreadable,
}

/// A message: the kind it names and the object it carries.
#[derive(Debug)]
pub struct Message {
    pub comm_type: CommType,
    pub object: Payload,
}

/// What a payload holds, with text as sequences of characters.
#[allow(inconsistent_fields)]
pub enum PayloadView {
    LoginRequest { username: Seq<char>, password: Seq<char> },
    LoginResponse {
        success: bool,
        uuid: Option<u128>,
        token: Option<Seq<char>>,
        credit: i64,
        expire: Timestamp,
    },
    ChatPrompt { token: Seq<char>, model: Seq<char> },
    ChatResponse { model: Seq<char>, cost: u64, response: Seq<char>, credit: i64 },
    LogoutRequest { uuid: u128, token: Seq<char> },
    LogoutResponse { success: bool },
    InvalidRequest { reason: Seq<char> },
    Unreadable,
}

/// What a message holds, with text as sequences of characters.
pub struct MessageView {
    pub comm_type: CommType,
    pub object: PayloadView,
}

impl View for Payload {
    type V = PayloadView;

    open spec fn view(&self) -> PayloadView {
        match *self {
            Payload::LoginRequest(r) => PayloadView::LoginRequest {
                username: r.username@,
                password: r.password@,
            },
            Payload::LoginResponse(r) => PayloadView::LoginResponse {
                success: r.success,
                uuid: r.uuid,
                token: match r.token {
                    Some(t) => Some(t@),
                    None => None,
                },
                credit: r.credit,
                expire: r.expire,
            },
            Payload::ChatPrompt(r) => PayloadView::ChatPrompt { token: r.token@, model: r.model@ },
            Payload::ChatResponse(r) => PayloadView::ChatResponse {
                model: r.model@,
                cost: r.cost,
                response: r.response@,
                credit: r.credit,
            },
            Payload::LogoutRequest(r) => PayloadView::LogoutRequest { uuid: r.uuid, token: r.token@ },
            Payload::LogoutResponse(r) => PayloadView::LogoutResponse { success: r.success },
            Payload::InvalidRequest(r) => PayloadView::InvalidRequest { reason: r.reason@ },
            Payload::Unreadable => PayloadView::Unreadable,
        }
    }
}

impl View for Message {
    type V = MessageView;

    open spec fn view(&self) -> MessageView {
        MessageView { comm_type: self.comm_type, object: self.object@ }
    }
}

/// The kind that goes with an object. An object that could not be read goes
/// as an invalid request.
pub open spec fn kind_of(object: PayloadView) -> CommType {
    match object {
        PayloadView::LoginRequest { .. } => CommType::LoginRequest,
        PayloadView::LoginResponse { .. } => CommType::LoginResponse,
        PayloadView::ChatPrompt { .. } => CommType::ChatPrompt,
        PayloadView::ChatResponse { .. } => CommType::ChatResponse,
        PayloadView::LogoutRequest { .. } => CommType::LogoutRequest,
        PayloadView::LogoutResponse { .. } => CommType::LogoutResponse,
        PayloadView::InvalidRequest { .. } => CommType::InvalidRequest,
        PayloadView::Unreadable => CommType::InvalidRequest,
    }
}

/// The message that says a request was invalid, and why.
pub open spec fn invalid(reason: Seq<char>) -> MessageView {
    MessageView {
        comm_type: CommType::InvalidRequest,
        object: PayloadView::InvalidRequest { reason },
    }
}

impl Message {
    /// The message that carries `object` and names its kind.
    pub fn of(object: Payload) -> (message: Message)
        ensures
            message@ == (MessageView { comm_type: kind_of(object@), object: object@ }),
    {
        let comm_type = match &object {
            Payload::LoginRequest(_) => CommType::LoginRequest,
            Payload::LoginResponse(_) => CommType::LoginResponse,
            Payload::ChatPrompt(_) => CommType::ChatPrompt,
            Payload::ChatResponse(_) => CommType::ChatResponse,
            Payload::LogoutRequest(_) => CommType::LogoutRequest,
            Payload::LogoutResponse(_) => CommType::LogoutResponse,
            Payload::InvalidRequest(_) => CommType::InvalidRequest,
            Payload::Unreadable => CommType::InvalidRequest,
        };
        Message { comm_type, object }
    }

    /// The message that says a request was invalid, and why.
    pub fn invalid(reason: String) -> (message: Message)
        ensures
            message@ == invalid(reason@),
    {
        Message {
            comm_type: CommType::InvalidRequest,
            object: Payload::InvalidRequest(InvalidRequest { reason }),
        }
    }
}

} // verus!
