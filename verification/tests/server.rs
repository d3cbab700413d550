use llm_web::authorisation::{
    authenticate, find_user, login, login_at, AuthorisationRecord, UserRights,
};
use llm_web::communication::{
    ChatPrompt, CommType, LoginRequest, LoginResponse, LogoutRequest, Message, Payload,
};
use llm_web::server::{
    chat_failure, route, AppBackend, ChatStep, Completion, LogoutOutcome, Persist, Route, Tier,
    Usage,
};
use llm_web::session::{Session, SessionTable};
use llm_web::timestamp::{
    expire_after, next_expire, Timestamp, LAST_SECOND, SESSION_SECONDS,
};
use llm_web::token::{decode_token, TokenError};

fn record(username: &str, password: &str, uuid: u128, credit: i64) -> AuthorisationRecord {
    AuthorisationRecord {
        username: username.to_string(),
        password: bcrypt::hash(password, 4).unwrap(),
        uuid,
        level: UserRights::Chat,
        credit,
        key: vec![uuid as u8, 2, 3, 4, 5, 6, 7, 8],
    }
}

fn login_message(username: &str, password: &str) -> Message {
    Message::of(Payload::LoginRequest(LoginRequest {
        username: username.to_string(),
        password: password.to_string(),
    }))
}

fn login_response(message: Message) -> LoginResponse {
    assert!(message.comm_type == CommType::LoginResponse);
    match message.object {
        Payload::LoginResponse(r) => r,
        other => panic!("{:?}", other),
    }
}

fn reason(message: &Message) -> &str {
    assert!(message.comm_type == CommType::InvalidRequest);
    match &message.object {
        Payload::InvalidRequest(r) => r.reason.as_str(),
        other => panic!("{:?}", other),
    }
}

fn at(secs: i64) -> Timestamp {
    Timestamp::new(secs, 0)
}

#[test]
fn test_login() {
    let username = "authorisation::tests::test_login";
    let password = "123";
    let records = vec![record(username, "123", 11, 0)];

    // Test logging the user in
    let mut sessions = SessionTable::new();
    let test: bool = match login(username, password, &records, &mut sessions) {
        Ok(t) => t.is_some(),
        Err(err) => panic!("{:?}", err),
    };
    // Test can log user in
    assert!(test);
    assert_eq!(sessions.len(), 1);
}

#[test]
fn login_fail() {
    // A user that is not in the system: logging in as them fails
    let lr = LoginRequest {
        username: "server::test::login_fail".to_string(),
        password: "supersecret".to_string(),
    };
    let msg = Message { comm_type: CommType::LoginRequest, object: Payload::LoginRequest(lr) };
    let mut server = AppBackend::new(true);
    let result = server.process_login(&msg, &Vec::new());
    assert!(result.comm_type == CommType::LoginResponse);

    let login_response: LoginResponse = login_response(result);
    assert!(!login_response.success);
}

#[test]
fn bad_message() {
    // A message of the wrong kind fails
    let lr = LoginRequest {
        username: "server::test::bad_message".to_string(),
        password: "supersecret".to_string(),
    };
    let msg = Message { comm_type: CommType::ChatPrompt, object: Payload::LoginRequest(lr) };
    let mut server = AppBackend::new(true);
    let result = server.process_login(&msg, &Vec::new());
    assert!(result.comm_type == CommType::InvalidRequest);
}

#[test]
fn server_test() {
    // Server to test
    let mut server = AppBackend::new(true);

    // A user name and password to add
    let username = "server::test::server_test";
    let password = "password";
    let records = vec![record(username, password, 21, 0)];

    // Log them in
    assert_eq!(route("/api/login"), Route::Login);
    let login_response_message = server.process_login(&login_message(username, password), &records);

    // Test there was the correct response
    assert_eq!(login_response_message.comm_type, CommType::LoginResponse);
    // Test there is one session
    assert_eq!(server.sessions.len(), 1);

    let login_response: LoginResponse = login_response(login_response_message);
    // Test successful login
    assert!(login_response.success);

    // Log them out
    let logout_request =
        LogoutRequest { uuid: login_response.uuid.unwrap(), token: login_response.token.unwrap() };
    let logout_request_message = Message::of(Payload::LogoutRequest(logout_request));
    let logout_response_message = server.process_logout(&logout_request_message);
    assert_eq!(logout_response_message.comm_type, CommType::LogoutResponse);
    // Test there is no session
    assert_eq!(server.sessions.len(), 0);
}

#[test]
fn alice_logs_in_chats_and_logs_out() {
    let records = vec![record("bob", "b", 1, 5), record("alice", "wonderland", 2, 10_000_000)];
    let mut server = AppBackend::new(false);
    let now = at(1_700_000_000);

    let reply = server.process_login_at(&login_message("alice", "wonderland"), &records, &now);
    let login = login_response(reply);
    assert!(login.success);
    assert_eq!(login.uuid, Some(2));
    assert_eq!(login.credit, 10_000_000);
    assert_eq!(login.expire, Timestamp::new(1_700_007_200, 0));
    let token = login.token.unwrap();
    assert_eq!(server.sessions.len(), 1);
    assert!(server.valid_session_at(&token, &now));
    assert!(server.valid_session(&token) == (Timestamp::new(1_700_007_200, 0).is_after(&at(
        chrono::Utc::now().timestamp()
    ))));

    let prompt = Message::of(Payload::ChatPrompt(ChatPrompt {
        token: token.clone(),
        model: "gpt-4".to_string(),
    }));
    assert!(matches!(server.process_chat_request_at(&prompt, &now), ChatStep::Forward));

    let completion = Completion {
        model: "gpt-4".to_string(),
        usage: Usage { prompt_tokens: 100, completion_tokens: 50, total_tokens: 150 },
        response: "Hello".to_string(),
    };
    let end = server.settle_chat(&token, completion);
    assert_eq!(end.persist, Some(Persist { uuid: 2, credit: 9_400_000, level: UserRights::Chat }));
    assert_eq!(end.reply.comm_type, CommType::ChatResponse);
    match end.reply.object {
        Payload::ChatResponse(r) => {
            assert_eq!(r.model, "gpt-4");
            assert_eq!(r.cost, 600_000);
            assert_eq!(r.response, "Hello");
            assert_eq!(r.credit, 9_400_000);
        }
        other => panic!("{:?}", other),
    }
    assert_eq!(server.sessions.get(&token).unwrap().credit, 9_400_000);

    let logout = Message::of(Payload::LogoutRequest(LogoutRequest { uuid: 2, token: token.clone() }));
    let first = server.process_logout_at(&logout, &now);
    assert!(matches!(first.object, Payload::LogoutResponse(ref r) if r.success));
    assert_eq!(server.sessions.len(), 0);
    let second = server.process_logout_at(&logout, &now);
    assert_eq!(second.comm_type, CommType::LogoutResponse);
    assert!(matches!(second.object, Payload::LogoutResponse(ref r) if !r.success));
    assert_eq!(server.logout_at(&token, &now), LogoutOutcome::NotASession);
}

#[test]
fn login_issues_a_token_for_the_user_and_the_expiry() {
    let records = vec![record("carol", "pw", 0xfeed, 42)];
    let mut sessions = SessionTable::new();
    let now = Timestamp::new(1_800_000_000, 123_456_789);
    let login = login_at("carol", "pw", &records, &now, &mut sessions).unwrap().unwrap();
    assert_eq!(login.uuid, 0xfeed);
    assert_eq!(login.expiry, Timestamp::new(1_800_000_000 + SESSION_SECONDS, 123_456_789));
    assert_eq!(decode_token(login.token.clone(), &records[0].key), Ok((0xfeed, login.expiry)));
    assert_eq!(sessions.len(), 1);
    let session = sessions.get(&login.token).unwrap();
    assert_eq!(session.uuid, 0xfeed);
    assert_eq!(session.token, login.token);
    assert_eq!(session.expire, login.expiry);
    assert_eq!(session.credit, 42);
    assert_eq!(session.level, UserRights::Chat);
}

#[test]
fn wrong_password_and_unknown_name_get_the_same_answer() {
    let records = vec![record("dave", "right", 4, 99)];
    let mut server = AppBackend::new(false);
    let now = at(1_700_000_000);
    let wrong = login_response(server.process_login_at(&login_message("dave", "wrong"), &records, &now));
    let unknown =
        login_response(server.process_login_at(&login_message("nobody", "right"), &records, &now));
    for r in [&wrong, &unknown] {
        assert!(!r.success);
        assert_eq!(r.uuid, None);
        assert_eq!(r.token, None);
        assert_eq!(r.credit, 0);
        assert_eq!(r.expire, Timestamp::new(0, 0));
    }
    assert_eq!(server.sessions.len(), 0);
    let mut sessions = SessionTable::new();
    assert!(login_at("dave", "wrong", &records, &now, &mut sessions).unwrap().is_none());
    assert!(login_at("", "", &records, &now, &mut sessions).unwrap().is_none());
    assert_eq!(sessions.len(), 0);
}

#[test]
fn malformed_hash_refuses_the_login() {
    let mut records = vec![record("erin", "pw", 5, 0)];
    records[0].password = "not a hash".to_string();
    let mut sessions = SessionTable::new();
    assert!(login_at("erin", "pw", &records, &at(1), &mut sessions).unwrap().is_none());
    assert_eq!(authenticate(&records, "erin", "pw"), None);
    assert_eq!(find_user(&records, "erin"), Some(0));
    assert_eq!(sessions.len(), 0);
}

#[test]
fn the_first_record_with_the_name_decides() {
    let records =
        vec![record("x", "one", 1, 0), record("frank", "one", 2, 0), record("frank", "two", 3, 0)];
    assert_eq!(find_user(&records, "frank"), Some(1));
    assert_eq!(find_user(&records, "Frank"), None);
    assert_eq!(authenticate(&records, "frank", "one"), Some(1));
    assert_eq!(authenticate(&records, "frank", "two"), None);
    assert_eq!(authenticate(&records, "x", "one"), Some(0));
}

#[test]
fn login_whose_expiry_no_token_can_carry_fails() {
    let records = vec![record("gina", "pw", 6, 0)];
    let mut server = AppBackend::new(false);
    let late = at(LAST_SECOND - SESSION_SECONDS + 1);
    assert_eq!(
        login_at("gina", "pw", &records, &late, &mut server.sessions).unwrap_err(),
        TokenError::ExpiryOutOfRange
    );
    assert_eq!(
        login_at("gina", "pw", &records, &at(i64::MAX), &mut server.sessions).unwrap_err(),
        TokenError::ExpiryOutOfRange
    );
    assert_eq!(
        login_at("gina", "pw", &records, &at(-SESSION_SECONDS - 1), &mut server.sessions)
            .unwrap_err(),
        TokenError::ExpiryOutOfRange
    );
    let reply = server.process_login_at(&login_message("gina", "pw"), &records, &late);
    assert_eq!(reason(&reply), "Could not issue a token");
    assert_eq!(server.sessions.len(), 0);
    let last = at(LAST_SECOND - SESSION_SECONDS);
    assert!(login_at("gina", "pw", &records, &last, &mut server.sessions).unwrap().is_some());
}

#[test]
fn expired_session_is_refused() {
    let mut server = AppBackend::new(false);
    let expire = Timestamp::new(1_000, 500);
    server.sessions.insert("tok".to_string(), Session::new(1, expire, "tok".to_string(), 5, UserRights::Chat));
    assert!(server.valid_session_at("tok", &Timestamp::new(999, 999_999_999)));
    assert!(server.valid_session_at("tok", &Timestamp::new(1_000, 499)));
    assert!(!server.valid_session_at("tok", &Timestamp::new(1_000, 500)));
    assert!(!server.valid_session_at("tok", &Timestamp::new(1_000, 501)));
    assert!(!server.valid_session_at("tok", &Timestamp::new(1_001, 0)));
    assert!(!server.valid_session("tok"));
    assert!(!server.valid_session_at("other", &Timestamp::new(0, 0)));

    let late = at(2_000);
    assert_eq!(server.logout_at("tok", &late), LogoutOutcome::NotASession);
    assert_eq!(server.sessions.len(), 1);
    let prompt = Message::of(Payload::ChatPrompt(ChatPrompt {
        token: "tok".to_string(),
        model: "gpt-4".to_string(),
    }));
    match server.process_chat_request_at(&prompt, &late) {
        ChatStep::Refuse(reply) => assert_eq!(reason(&reply), "Invalid session"),
        ChatStep::Forward => panic!("forwarded"),
    }
    match server.process_chat_request(&prompt) {
        ChatStep::Refuse(reply) => assert_eq!(reason(&reply), "Invalid session"),
        ChatStep::Forward => panic!("forwarded"),
    }
    assert_eq!(server.logout_at("tok", &at(999)), LogoutOutcome::Success);
    assert_eq!(server.sessions.len(), 0);
}

#[test]
fn session_that_names_another_token_is_refused() {
    let mut server = AppBackend::new(false);
    server.sessions.insert(
        "key".to_string(),
        Session::new(1, at(5_000), "other".to_string(), 5, UserRights::Chat),
    );
    assert!(!server.valid_session_at("key", &at(1)));
    assert!(!server.valid_session_at("other", &at(1)));
    assert_eq!(server.logout_at("key", &at(1)), LogoutOutcome::NotASession);
    assert_eq!(server.sessions.len(), 1);
}

#[test]
fn messages_of_the_wrong_kind_are_invalid() {
    let mut server = AppBackend::new(false);
    let now = at(10);
    let logout = Message::of(Payload::LogoutRequest(LogoutRequest { uuid: 1, token: "t".to_string() }));
    let prompt = Message::of(Payload::ChatPrompt(ChatPrompt {
        token: "t".to_string(),
        model: "gpt-4".to_string(),
    }));
    let login = login_message("a", "b");

    assert_eq!(
        reason(&server.process_login_at(&logout, &Vec::new(), &now)),
        "Can only send a LoginRequest not LogoutRequest"
    );
    assert_eq!(
        reason(&server.process_login_at(&prompt, &Vec::new(), &now)),
        "Can only send a LoginRequest not ChatPrompt"
    );
    assert_eq!(reason(&server.process_logout_at(&login, &now)), "Not a Logout Request");
    assert_eq!(reason(&server.process_logout(&prompt)), "Not a Logout Request");
    match server.process_chat_request_at(&login, &now) {
        ChatStep::Refuse(reply) => {
            assert_eq!(reason(&reply), "Invalid message type sent to `chat`: LoginRequest")
        }
        ChatStep::Forward => panic!("forwarded"),
    }
}

#[test]
fn objects_that_cannot_be_read_are_invalid() {
    let mut server = AppBackend::new(false);
    let now = at(10);
    let unreadable = |comm_type| Message { comm_type, object: Payload::Unreadable };
    assert_eq!(
        reason(&server.process_login_at(&unreadable(CommType::LoginRequest), &Vec::new(), &now)),
        "Malformed request"
    );
    assert_eq!(
        reason(&server.process_logout_at(&unreadable(CommType::LogoutRequest), &now)),
        "Malformed request"
    );
    match server.process_chat_request_at(&unreadable(CommType::ChatPrompt), &now) {
        ChatStep::Refuse(reply) => assert_eq!(reason(&reply), "Malformed request"),
        ChatStep::Forward => panic!("forwarded"),
    }
    let mixed = Message {
        comm_type: CommType::LogoutRequest,
        object: Payload::ChatPrompt(ChatPrompt { token: "t".to_string(), model: "m".to_string() }),
    };
    assert_eq!(reason(&server.process_logout_at(&mixed, &now)), "Malformed request");
    assert_eq!(Message::of(Payload::Unreadable).comm_type, CommType::InvalidRequest);
    assert_eq!(reason(&Message::invalid("why".to_string())), "why");
}

#[test]
fn price_of_each_tier() {
    let usage = Usage { prompt_tokens: 100, completion_tokens: 50, total_tokens: 150 };
    assert_eq!(AppBackend::cost(&usage, "gpt-4"), 50 * 6000 + 100 * 3000);
    assert_eq!(AppBackend::cost(&usage, "gpt-4-turbo"), 600_000);
    assert_eq!(AppBackend::cost(&usage, "gpt-4o"), 50 * 1500 + 100 * 500);
    assert_eq!(AppBackend::cost(&usage, "gpt-4o-mini"), 125_000);
    assert_eq!(AppBackend::cost(&usage, "gpt-3.5-turbo"), 50 * 600 + 100 * 300);
    assert_eq!(AppBackend::cost(&usage, "gpt-3"), 60_000);
    let none = Usage { prompt_tokens: 0, completion_tokens: 0, total_tokens: 0 };
    assert_eq!(AppBackend::cost(&none, "gpt-4"), 0);
    let most = Usage { prompt_tokens: u32::MAX, completion_tokens: u32::MAX, total_tokens: u32::MAX };
    assert_eq!(AppBackend::cost(&most, "gpt-4"), u32::MAX as u64 * 9000);
}

#[test]
fn tier_goes_by_the_longest_prefix() {
    assert_eq!(AppBackend::tier_of("gpt-4o"), Some(Tier::Gpt4o));
    assert_eq!(AppBackend::tier_of("gpt-4o-mini"), Some(Tier::Gpt4o));
    assert_eq!(AppBackend::tier_of("gpt-4"), Some(Tier::Gpt4));
    assert_eq!(AppBackend::tier_of("gpt-4-turbo"), Some(Tier::Gpt4));
    assert_eq!(AppBackend::tier_of("gpt-3"), Some(Tier::Gpt3));
    assert_eq!(AppBackend::tier_of("gpt-3.5-turbo"), Some(Tier::Gpt3));
    assert_eq!(AppBackend::tier_of("gpt-"), None);
    assert_eq!(AppBackend::tier_of("gpt-5"), None);
    assert_eq!(AppBackend::tier_of("GPT-4"), None);
    assert_eq!(AppBackend::tier_of(" gpt-4"), None);
    assert_eq!(AppBackend::tier_of(""), None);
    assert_eq!(AppBackend::tier_of("davinci"), None);
    assert_eq!(AppBackend::tier_of("llama-2"), None);
}

#[test]
fn chat_that_cannot_be_booked_says_why() {
    let mut server = AppBackend::new(false);
    server.sessions.insert(
        "tok".to_string(),
        Session::new(8, at(5_000), "tok".to_string(), i64::MIN + 10, UserRights::Admin),
    );
    let completion = |model: &str| Completion {
        model: model.to_string(),
        usage: Usage { prompt_tokens: 1, completion_tokens: 1, total_tokens: 2 },
        response: "r".to_string(),
    };
    let end = server.settle_chat("tok", completion("llama"));
    assert_eq!(reason(&end.reply), "Unknown model: llama");
    assert_eq!(end.persist, None);
    let end = server.settle_chat("gone", completion("gpt-4"));
    assert_eq!(reason(&end.reply), "Invalid session");
    assert_eq!(end.persist, None);
    let end = server.settle_chat("tok", completion("gpt-4"));
    assert_eq!(reason(&end.reply), "Credit out of range");
    assert_eq!(end.persist, None);
    assert_eq!(server.sessions.get("tok").unwrap().credit, i64::MIN + 10);
    assert_eq!(reason(&chat_failure("timed out")), "OpenAI Chat Error: timed out");
}

#[test]
fn chats_on_two_sessions_do_not_mix() {
    let mut server = AppBackend::new(false);
    for (token, uuid, credit) in [("a", 1u128, 1_000_000i64), ("b", 2, 2_000_000)] {
        server.sessions.insert(
            token.to_string(),
            Session::new(uuid, at(5_000), token.to_string(), credit, UserRights::Chat),
        );
    }
    let completion = |p: u32, c: u32| Completion {
        model: "gpt-3.5-turbo".to_string(),
        usage: Usage { prompt_tokens: p, completion_tokens: c, total_tokens: p + c },
        response: String::new(),
    };
    let mut last = 1_000_000;
    for (token, p, c) in [("a", 10, 10), ("b", 1, 0), ("a", 0, 7), ("b", 3, 3), ("a", 100, 0)] {
        let end = server.settle_chat(token, completion(p, c));
        assert!(end.persist.is_some());
        let a = server.sessions.get("a").unwrap().credit;
        assert!(a <= last);
        last = a;
    }
    assert_eq!(
        server.sessions.get("a").unwrap().credit,
        1_000_000 - (10 * 300 + 10 * 600) - 7 * 600 - 100 * 300
    );
    assert_eq!(server.sessions.get("b").unwrap().credit, 2_000_000 - 300 - (3 * 300 + 3 * 600));
}

#[test]
fn requests_go_where_their_path_says() {
    assert_eq!(route("/api/login"), Route::Login);
    assert_eq!(route("/api/chat"), Route::Chat);
    assert_eq!(route("/api/logout"), Route::Logout);
    assert_eq!(route("/api/login/"), Route::NotFound);
    assert_eq!(route("/api/Login"), Route::NotFound);
    assert_eq!(route("/api"), Route::NotFound);
    assert_eq!(route(""), Route::NotFound);
}

#[test]
fn new_backend_has_no_session() {
    let server = AppBackend::new(true);
    assert!(server.testing);
    assert_eq!(server.sessions.len(), 0);
    assert!(!AppBackend::new(false).testing);
}

#[test]
fn sessions_last_two_hours() {
    assert_eq!(SESSION_SECONDS, 2 * 3600);
    assert_eq!(expire_after(&Timestamp::new(5, 9)), Some(Timestamp::new(7_205, 9)));
    assert_eq!(expire_after(&Timestamp::new(i64::MAX - 7_200, 0)), Some(Timestamp::new(i64::MAX, 0)));
    assert_eq!(expire_after(&Timestamp::new(i64::MAX - 7_199, 0)), None);
    let before = chrono::Utc::now().timestamp();
    let expiry = next_expire();
    let after = chrono::Utc::now().timestamp();
    assert!(before + 7_200 <= expiry.secs && expiry.secs <= after + 7_200);
    assert!(expiry.nanos < 1_000_000_000);
}

#[test]
fn rights_are_ordered() {
    assert!(UserRights::Admin.includes(UserRights::Chat));
    assert!(UserRights::Admin.includes(UserRights::NoRights));
    assert!(UserRights::Chat.includes(UserRights::Chat));
    assert!(!UserRights::Chat.includes(UserRights::Admin));
    assert!(!UserRights::NoRights.includes(UserRights::Chat));
    assert!(UserRights::NoRights.includes(UserRights::NoRights));
    assert_eq!(UserRights::NoRights.label(), "NoRights");
    assert_eq!(UserRights::Chat.label(), "Chat");
    assert_eq!(UserRights::Admin.label(), "Admin");
    assert_eq!(CommType::LoginRequest.label(), "LoginRequest");
    assert_eq!(CommType::InvalidRequest.label(), "InvalidRequest");
}
