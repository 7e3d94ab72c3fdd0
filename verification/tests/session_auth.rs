use portfolio_ledger::accounts::login;
use portfolio_ledger::accounts::AccountStore;
use portfolio_ledger::accounts::LoginInfo;
use portfolio_ledger::errors::LedgerError;
use portfolio_ledger::session::SessionStore;
use portfolio_ledger::session::SessionToken;
use rand_core::SeedableRng;

fn demo_rng() -> rand_chacha::ChaCha8Rng {
    rand_chacha::ChaCha8Rng::seed_from_u64(7)
}

fn demo_bytes() -> [u8; 16] {
    [7, 1, 2, 3, 4, 5, 6, 7, 8, 9, 10, 11, 12, 13, 14, 255]
}

#[test]
fn cookie_round_trip() {
    let t = SessionToken::generate_new(&demo_bytes());
    let cookie = t.into_cookie_value();
    let back = SessionToken::to_token(cookie).unwrap();
    assert_eq!(back, t);
}

#[test]
fn cookie_value_is_decimal() {
    assert_eq!(SessionToken(0).into_cookie_value(), "0");
    assert_eq!(SessionToken(12345).into_cookie_value(), "12345");
    assert_eq!(
        SessionToken(u128::MAX).into_cookie_value(),
        "340282366920938463463374607431768211455"
    );
}

#[test]
fn generate_new_reads_little_endian() {
    let mut one = [0u8; 16];
    one[0] = 1;
    assert_eq!(SessionToken::generate_new(&one).0, 1);
    let mut high = [0u8; 16];
    high[15] = 1;
    assert_eq!(SessionToken::generate_new(&high).0, 1u128 << 120);
    assert_eq!(SessionToken::generate_new(&[0xffu8; 16]).0, u128::MAX);
}

#[test]
fn database_value_is_little_endian() {
    let bytes = SessionToken(258).into_database_value();
    assert_eq!(bytes.len(), 16);
    assert_eq!(bytes[0], 2);
    assert_eq!(bytes[1], 1);
    for k in 2..16 {
        assert_eq!(bytes[k], 0);
    }
}

#[test]
fn database_value_round_trips_the_drawn_bytes() {
    let bytes = demo_bytes();
    let token = SessionToken::generate_new(&bytes);
    assert_eq!(token.into_database_value(), bytes.to_vec());
}

#[test]
fn to_token_rejects_malformed_values() {
    for bad in ["", "abc", "12x", "+5", "-1", " 5", "12.0"] {
        assert_eq!(
            SessionToken::to_token(bad.to_string()),
            Err(LedgerError::MalformedToken)
        );
    }
    // one past the largest 128-bit value
    assert_eq!(
        SessionToken::to_token("340282366920938463463374607431768211456".to_string()),
        Err(LedgerError::MalformedToken)
    );
}

#[test]
fn issued_session_validates_to_its_account() {
    let mut store = SessionStore::new();
    let token = store.new_session(&mut demo_rng(), 42);
    let cookie = token.into_cookie_value();
    assert_eq!(store.validate(&cookie), Some(42));
}

#[test]
fn unissued_or_tampered_cookie_validates_to_nothing() {
    let mut store = SessionStore::new();
    let token = store.new_session(&mut demo_rng(), 42);
    // a value that was never issued
    let other = SessionToken(token.0.wrapping_add(1));
    assert_eq!(store.validate(&other.into_cookie_value()), None);
    // a tampered value
    let mut cookie = token.into_cookie_value();
    cookie.push('9');
    assert_eq!(store.validate(&cookie), None);
    // a malformed value
    assert_eq!(store.validate("not-a-token"), None);
}

#[test]
fn require_login_gates_missing_and_unknown_cookies() {
    let mut store = SessionStore::new();
    assert_eq!(store.require_login(None), Err(LedgerError::NotLoggedIn));
    assert_eq!(store.require_login(Some("17")), Err(LedgerError::NotLoggedIn));
    let token = store.new_session(&mut demo_rng(), 7);
    let cookie = token.into_cookie_value();
    assert_eq!(store.require_login(Some(&cookie)), Ok(7));
}

#[test]
fn login_accepts_the_stored_credential() {
    let mut store = AccountStore::new();
    let id = store.add_account("alice", "opensesame", Some(2)).unwrap();
    let info = LoginInfo { name: "alice".to_string(), password: "opensesame".to_string() };
    assert_eq!(login(&store, &info), Ok((id, 2)));
}

#[test]
fn login_defaults_the_account_type() {
    let mut store = AccountStore::new();
    let id = store.add_account("bob", "pw", None).unwrap();
    let info = LoginInfo { name: "bob".to_string(), password: "pw".to_string() };
    assert_eq!(login(&store, &info), Ok((id, 1)));
}

#[test]
fn login_rejects_unknown_user_and_wrong_password() {
    let mut store = AccountStore::new();
    store.add_account("alice", "opensesame", None).unwrap();
    let unknown = LoginInfo { name: "mallory".to_string(), password: "x".to_string() };
    assert_eq!(login(&store, &unknown), Err(LedgerError::InvalidCredentials));
    let wrong = LoginInfo { name: "alice".to_string(), password: "guess".to_string() };
    assert_eq!(login(&store, &wrong), Err(LedgerError::PasswordMismatch));
}

#[test]
fn duplicate_username_is_refused() {
    let mut store = AccountStore::new();
    let first = store.add_account("alice", "a", None);
    assert!(first.is_some());
    assert_eq!(store.add_account("alice", "b", None), None);
}
