use disposable_domains::blocklist::Blocklist;
use disposable_domains::service::{
    client_ip, route_not_found, verify, verify_now, BLOCKLIST_SOURCE, DISPOSABLE_REASON,
};

fn sample() -> Blocklist {
    Blocklist::from_text("mailinator.com\nexample.com\n# comment\n")
}

#[test]
fn listed_domain_is_disposable_with_reason() {
    let list = sample();
    let r = verify(&list, "mailinator.com", "2024-01-01T00:00:00+00:00".to_string());
    assert!(r.is_disposable);
    assert_eq!(r.reason.as_deref(), Some("Listed as disposable"));
    assert_eq!(r.reason.as_deref(), Some(DISPOSABLE_REASON));
    assert_eq!(r.source, "assets/blocklist.txt");
    assert_eq!(r.source, BLOCKLIST_SOURCE);
    assert_eq!(r.checked_at, "2024-01-01T00:00:00+00:00");
}

#[test]
fn unlisted_domain_is_not_disposable_and_has_no_reason() {
    let list = sample();
    let r = verify(&list, "gmail.com", "t".to_string());
    assert!(!r.is_disposable);
    assert_eq!(r.reason, None);
    assert_eq!(r.domain, "gmail.com");
}

#[test]
fn spelling_and_whitespace_do_not_matter() {
    let list = sample();
    let a = verify(&list, "Mailinator.com", String::new());
    let b = verify(&list, " mailinator.com ", String::new());
    let c = verify(&list, "mailinator.com", String::new());
    assert!(a.is_disposable);
    assert_eq!(a.is_disposable, b.is_disposable);
    assert_eq!(b.is_disposable, c.is_disposable);
}

#[test]
fn response_echoes_the_raw_domain() {
    let list = sample();
    let r = verify(&list, "EXAMPLE.COM", String::new());
    assert!(r.is_disposable);
    assert_eq!(r.domain, "EXAMPLE.COM");
    let r = verify(&list, "  Example.Com\t", String::new());
    assert!(r.is_disposable);
    assert_eq!(r.domain, "  Example.Com\t");
}

#[test]
fn comment_lines_are_never_matched() {
    let list = sample();
    assert!(!verify(&list, "# comment", String::new()).is_disposable);
    assert!(!verify(&list, "", String::new()).is_disposable);
}

#[test]
fn empty_blocklist_lists_nothing() {
    let list = Blocklist::from_text("");
    assert!(!verify(&list, "mailinator.com", String::new()).is_disposable);
}

#[test]
fn unknown_route_gets_structured_not_found() {
    let r = route_not_found("/nope");
    assert_eq!(r.status, 404);
    assert_eq!(r.error_code, "ROUTE_NOT_FOUND");
    assert_eq!(r.message, "No route for /nope");
}

#[test]
fn checked_at_is_rfc3339_and_taken_at_the_call() {
    let list = sample();
    let before = chrono::Utc::now();
    let r = verify_now(&list, "mailinator.com");
    let after = chrono::Utc::now();
    assert!(r.is_disposable);
    let t = chrono::DateTime::parse_from_rfc3339(&r.checked_at).expect("RFC 3339 date-time");
    assert!(t >= before && t <= after);
    assert!(r.checked_at.ends_with("+00:00"));
}

#[test]
fn checked_at_differs_between_calls_apart_in_time() {
    let list = sample();
    let first = verify_now(&list, "a.com");
    std::hint::black_box(&first);
    let mut second = verify_now(&list, "a.com");
    let mut spins: u32 = 0;
    while second.checked_at == first.checked_at && spins < 1_000_000 {
        second = verify_now(&list, "a.com");
        spins += 1;
    }
    assert_ne!(first.checked_at, second.checked_at);
}

#[test]
fn client_ip_prefers_first_forwarded_entry() {
    assert_eq!(client_ip(Some("1.2.3.4, 5.6.7.8"), Some("9.9.9.9")), "1.2.3.4");
    assert_eq!(client_ip(Some("  10.0.0.1  "), None), "10.0.0.1");
    assert_eq!(client_ip(Some(""), Some("9.9.9.9")), "");
}

#[test]
fn client_ip_falls_back_to_peer_then_unknown() {
    assert_eq!(client_ip(None, Some("::1")), "::1");
    assert_eq!(client_ip(None, None), "unknown");
}

#[test]
fn missing_domain_gets_structured_bad_request() {
    let r = disposable_domains::service::invalid_query("missing field `domain`");
    assert_eq!(r.status, 400);
    assert_eq!(r.error_code, "INVALID_QUERY");
    assert_eq!(r.message, "Invalid query: missing field `domain`");
}

#[test]
fn checked_at_has_chrono_utc_shape() {
    let r = verify_now(&sample(), "x.com");
    let s = r.checked_at.as_bytes();
    assert!(s.len() >= 25);
    assert_eq!(s[4], b'-');
    assert_eq!(s[7], b'-');
    assert_eq!(s[10], b'T');
    assert_eq!(s[13], b':');
    assert_eq!(s[16], b':');
    let frac = &r.checked_at[19..r.checked_at.len() - 6];
    assert!(frac.is_empty() || [4, 7, 10].contains(&frac.len()));
}
