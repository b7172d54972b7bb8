use easymc::auth::{
    check_key_expiry, check_key_expiry_at, extract_replay_headers, client_ip, delete_user_check, extract_credentials, extract_replay_headers_at,
    generate_token, hash_cred, token_from_draws, normalize_username, parse_i64_chars, sudo_check, verify_cred,
    user_record_times, whitelist_cutoff, whitelist_remaining, whitelist_remaining_at, whitelist_step, whitelist_times,
    whitelist_verdict, WhitelistAction,
};
use easymc::errors::AppError;
use easymc::ip_ban::{blacklist_from_text, blacklist_to_text, default_blacklist_path, IpBanManager};
use easymc::models::User;
use easymc::window::{RateLimiter, ReplayCache};

fn user(sudo: bool, expires: Option<&str>) -> User {
    User {
        id: "u1".to_string(),
        username: "steve".to_string(),
        api_key_hash: "h".to_string(),
        is_sudoer: sudo,
        created_at: "2024-01-01 00:00:00".to_string(),
        updated_at: "2024-01-01 00:00:00".to_string(),
        api_key_expires_at: expires.map(|s| s.to_string()),
    }
}

#[test]
fn ban_after_max_attempts() {
    let mut m = IpBanManager::new(3);
    assert!(!m.record_failure("1.2.3.4"));
    assert!(!m.record_failure("1.2.3.4"));
    assert!(!m.is_banned("1.2.3.4"));
    assert!(m.record_failure("1.2.3.4"));
    assert!(m.is_banned("1.2.3.4"));
    assert_eq!(m.blacklist().len(), 1);
    assert_eq!(m.status().blacklisted_ips, 1);
    assert_eq!(m.status().max_attempts, 3);
}

#[test]
fn clearing_failures_restarts_the_count() {
    let mut m = IpBanManager::new(2);
    assert!(!m.record_failure("9.9.9.9"));
    m.clear_failures("9.9.9.9");
    assert!(!m.record_failure("9.9.9.9"));
    assert!(!m.is_banned("9.9.9.9"));
    assert!(m.record_failure("9.9.9.9"));
}

#[test]
fn add_then_unban() {
    let mut m = IpBanManager::new(5);
    m.add_blacklist("5.5.5.5");
    m.add_blacklist("5.5.5.5");
    m.add_blacklist("6.6.6.6");
    assert_eq!(m.blacklist().len(), 2);
    assert!(m.unban("5.5.5.5"));
    assert!(!m.is_banned("5.5.5.5"));
    assert!(m.is_banned("6.6.6.6"));
    assert!(!m.unban("5.5.5.5"));
    m.set_max_attempts(7);
    assert_eq!(m.status().max_attempts, 7);
    assert_eq!(default_blacklist_path(), "./data/blacklist.json");
}

#[test]
fn replayed_nonce_is_refused_within_the_window() {
    let mut c = ReplayCache::new();
    assert!(c.check_replay("u1", "n1", 1_000).is_ok());
    assert!(matches!(c.check_replay("u1", "n1", 20_000), Err(AppError::ReplayDetected)));
    assert!(c.check_replay("u2", "n1", 20_000).is_ok());
    assert!(c.check_replay("u1", "n1", 31_001).is_ok());
}

#[test]
fn sixty_first_request_in_a_minute_is_refused() {
    let mut r = RateLimiter::new();
    for i in 0..60u64 {
        assert!(r.check_rate_limit("1.1.1.1", 1_000 + i).is_ok());
    }
    match r.check_rate_limit("1.1.1.1", 2_000) {
        Err(AppError::Internal(m)) => assert_eq!(m, "Rate limit exceeded (60 req/min)"),
        _ => panic!("expected the rate limit"),
    }
    assert!(r.check_rate_limit("2.2.2.2", 2_000).is_ok());
    assert!(r.check_rate_limit("1.1.1.1", 61_001).is_ok());
}

#[test]
fn credentials_are_split_and_trimmed() {
    let (u, t) = extract_credentials(Some("Bearer  alice : tok123 ".as_bytes())).unwrap();
    assert_eq!(u, "alice");
    assert_eq!(t, "tok123");
    assert!(matches!(extract_credentials(None), Err(AppError::MissingAuthHeader)));
    assert!(matches!(extract_credentials(Some("Basic abc".as_bytes())), Err(AppError::InvalidAuthHeader)));
    assert!(matches!(extract_credentials(Some("Bearer nocolon".as_bytes())), Err(AppError::InvalidAuthHeader)));
    assert!(matches!(extract_credentials(Some("Bearer :tok".as_bytes())), Err(AppError::InvalidAuthHeader)));
    assert!(matches!(extract_credentials(Some(&[0x42, 0x01][..])), Err(AppError::InvalidAuthHeader)));
}

#[test]
fn client_ip_prefers_trusted_forwarded_header() {
    let peer = Some("10.0.0.1".to_string());
    assert_eq!(client_ip(true, Some(" 1.2.3.4 , 5.6.7.8".as_bytes()), peer.clone()).as_deref(), Some("1.2.3.4"));
    assert_eq!(client_ip(false, Some("1.2.3.4".as_bytes()), peer.clone()).as_deref(), Some("10.0.0.1"));
    assert_eq!(client_ip(true, Some(" , x".as_bytes()), peer.clone()).as_deref(), Some("10.0.0.1"));
    assert_eq!(client_ip(true, None, None), None);
}

#[test]
fn usernames_are_normalised() {
    assert_eq!(normalize_username("  Steve_01 ").unwrap(), "steve_01");
    match normalize_username(" a ") {
        Err(AppError::Internal(m)) => assert_eq!(m, "Username must be ≥2 chars"),
        _ => panic!("expected a length error"),
    }
    match normalize_username("bad name") {
        Err(AppError::Internal(m)) => assert_eq!(m, "Alphanumeric, -, _ only"),
        _ => panic!("expected a character error"),
    }
}

#[test]
fn tokens_are_64_hex_digits_and_verify() {
    let t = generate_token();
    assert_eq!(t.len(), 64);
    assert!(t.chars().all(|c| c.is_ascii_digit() || ('a'..='f').contains(&c)));
    assert_ne!(t, generate_token());
    let h = hash_cred(&t, "steve").unwrap();
    assert!(verify_cred(&t, "steve", &h).unwrap());
    assert!(!verify_cred(&t, "alex", &h).unwrap());
    assert!(verify_cred(&t, "steve", "not a hash").is_err());
}

#[test]
fn replay_headers_are_checked() {
    let (ts, n) = extract_replay_headers_at(Some(" 1000 ".as_bytes()), Some(" abc ".as_bytes()), 1010).unwrap();
    assert_eq!(ts, 1000);
    assert_eq!(n, "abc");
    assert!(matches!(extract_replay_headers_at(Some("1000".as_bytes()), Some("abc".as_bytes()), 1031), Err(AppError::TimestampExpired)));
    assert!(matches!(extract_replay_headers_at(Some("1000".as_bytes()), Some("abc".as_bytes()), 970), Ok(_)));
    assert!(matches!(extract_replay_headers_at(None, Some("abc".as_bytes()), 0), Err(AppError::TimestampExpired)));
    assert!(matches!(extract_replay_headers_at(Some("x1".as_bytes()), Some("abc".as_bytes()), 0), Err(AppError::TimestampExpired)));
    assert!(matches!(extract_replay_headers_at(Some("5".as_bytes()), None, 5), Err(AppError::ReplayDetected)));
    assert!(matches!(extract_replay_headers_at(Some("5".as_bytes()), Some("   ".as_bytes()), 5), Err(AppError::ReplayDetected)));
}

#[test]
fn integers_parse_like_std() {
    let p = |s: &str| parse_i64_chars(&s.chars().collect::<Vec<char>>());
    assert_eq!(p("42"), Some(42));
    assert_eq!(p("-7"), Some(-7));
    assert_eq!(p("+7"), Some(7));
    assert_eq!(p("9223372036854775807"), Some(i64::MAX));
    assert_eq!(p("9223372036854775808"), None);
    assert_eq!(p("-9223372036854775808"), Some(i64::MIN));
    assert_eq!(p(""), None);
    assert_eq!(p("-"), None);
    assert_eq!(p("1a"), None);
}

#[test]
fn key_expiry() {
    // 2024-01-01 00:00:00 UTC is 1704067200.
    assert!(check_key_expiry_at(Some("2024-01-01 00:00:00"), 1704067200, 0).is_ok());
    assert!(matches!(check_key_expiry_at(Some("2024-01-01 00:00:00"), 1704067200, 1), Err(AppError::ApiKeyExpired)));
    assert!(check_key_expiry_at(Some("not a date"), 2_000_000_000, 0).is_ok());
    assert!(check_key_expiry_at(None, 2_000_000_000, 0).is_ok());
}

#[test]
fn whitelist_decisions() {
    assert!(matches!(whitelist_step(false, 0, 5), WhitelistAction::Allow));
    assert!(matches!(whitelist_step(true, 1, 1), WhitelistAction::Refresh));
    assert!(matches!(whitelist_step(true, 0, 0), WhitelistAction::Register));
    assert!(matches!(whitelist_step(true, 0, 1), WhitelistAction::Deny));
    assert!(matches!(whitelist_verdict(&WhitelistAction::Deny), Err(AppError::IpNotWhitelisted)));
    assert!(whitelist_verdict(&WhitelistAction::Register).is_ok());
    assert_eq!(whitelist_cutoff(100_000), 56_800);
    assert_eq!(whitelist_remaining(1_000, 2_000), 42_200);
    assert_eq!(whitelist_remaining(1_000, 100_000), 0);
}

#[test]
fn admin_checks() {
    assert!(matches!(sudo_check(None), Err(AppError::ApiKeyNotFound)));
    assert!(matches!(sudo_check(Some(&user(false, None))), Err(AppError::SudoRequired)));
    assert!(sudo_check(Some(&user(true, None))).is_ok());
    match delete_user_check("u1", "u1") {
        Err(AppError::Internal(m)) => assert_eq!(m, "Cannot delete yourself"),
        _ => panic!("expected a refusal"),
    }
    assert!(delete_user_check("u1", "u2").is_ok());
}

#[test]
fn clock_based_checks() {
    assert!(matches!(
        extract_replay_headers(Some("1000".as_bytes()), Some("n".as_bytes())),
        Err(AppError::TimestampExpired)
    ));
    let now = std::time::SystemTime::now()
        .duration_since(std::time::UNIX_EPOCH)
        .unwrap()
        .as_secs()
        .to_string();
    let (ts, n) = extract_replay_headers(Some(now.as_bytes()), Some("n1".as_bytes())).unwrap();
    assert_eq!(ts.to_string(), now);
    assert_eq!(n, "n1");
    assert!(matches!(check_key_expiry(&user(false, Some("2000-01-01 00:00:00"))), Err(AppError::ApiKeyExpired)));
    assert!(check_key_expiry(&user(false, Some("2999-01-01 00:00:00"))).is_ok());
    assert!(check_key_expiry(&user(false, None)).is_ok());
}

#[test]
fn whitelist_database_times() {
    let (now, cutoff) = whitelist_times(1_431_648_000).unwrap();
    assert_eq!(now, "2015-05-15 00:00:00");
    assert_eq!(cutoff, "2015-05-14 12:00:00");
    assert_eq!(whitelist_remaining_at("2015-05-15 00:00:00", 1_431_648_000 + 3_600), 39_600);
    assert_eq!(whitelist_remaining_at("2015-05-14 00:00:00", 1_431_648_000), 0);
    assert_eq!(whitelist_remaining_at("not a time", 1_431_648_000), 0);
    assert_eq!(whitelist_remaining(i64::MAX, 0), i64::MAX);
    assert!(whitelist_times(i64::MIN).is_none());
}

#[test]
fn user_record_dates() {
    let (created, expires) = user_record_times(1_431_648_000, 0).unwrap();
    assert_eq!(created, "2015-05-15 00:00:00");
    assert_eq!(expires, None);
    let (_, expires) = user_record_times(1_431_648_000, 30).unwrap();
    assert_eq!(expires.as_deref(), Some("2015-06-14 00:00:00"));
    assert!(user_record_times(1_431_648_000, u64::MAX).is_none());
}

#[test]
fn token_digits_follow_draws() {
    assert_eq!(token_from_draws(&vec![0, 9, 10, 15, 3]), "09af3");
    assert_eq!(token_from_draws(&vec![]), "");
}

#[test]
fn blacklist_file_text() {
    assert_eq!(blacklist_from_text(None).unwrap(), Vec::<String>::new());
    assert_eq!(blacklist_from_text(Some("[\"1.2.3.4\", \"::1\"]")).unwrap(), vec!["1.2.3.4", "::1"]);
    match blacklist_from_text(Some("{not json")) {
        Err(AppError::Internal(m)) => assert!(m.starts_with("Failed to parse blacklist: ")),
        _ => panic!("expected a parse error"),
    }
    let ips = vec!["10.0.0.1".to_string(), "we\"ird".to_string()];
    let text = blacklist_to_text(&ips);
    assert!(text.contains('\n'));
    assert_eq!(blacklist_from_text(Some(&text)).unwrap(), ips);
}
