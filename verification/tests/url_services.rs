use bittuly::ids::{now, UtcTime};
use bittuly::urls::MockUrlRepo;

fn days_from_now(days: i64) -> UtcTime {
    let t = now();
    UtcTime { secs: t.secs + days * 86400, nanos: t.nanos }
}

#[test]
fn test_shorten_new_url() {
    let mut repo = MockUrlRepo::new();
    let user_id = bittuly::ids::fresh_user_id();
    let url = repo.add_shorten_url("https://google.com", user_id, None).unwrap();
    assert_eq!(url.original_url, "https://google.com");
    assert_eq!(url.short_code, "1"); // base62 of 1
}

#[test]
fn test_shorten_duplicate_url() {
    let mut repo = MockUrlRepo::new();
    let user_id = bittuly::ids::fresh_user_id();
    repo.add_shorten_url("https://google.com", user_id, None).unwrap();
    let duplicate = repo.add_shorten_url("https://google.com", user_id, None);
    assert!(duplicate.is_none());
}

#[test]
fn test_shorten_expired_url_reactivation() {
    let mut repo = MockUrlRepo::new();
    let user_id = bittuly::ids::fresh_user_id();
    let past = days_from_now(-1);
    repo.add_shorten_url("https://google.com", user_id, Some(past)).unwrap();

    let future = days_from_now(1);
    let reactivated = repo
        .add_shorten_url("https://google.com", user_id, Some(future))
        .unwrap();
    assert_eq!(reactivated.expires_at, Some(future));
}

#[test]
fn test_get_original_url() {
    let mut repo = MockUrlRepo::new();
    let user_id = bittuly::ids::fresh_user_id();
    let url = repo.add_shorten_url("https://google.com", user_id, None).unwrap();

    let found = repo.get_original_url(&url.short_code).unwrap();
    assert_eq!(found.0, "https://google.com");
}

#[test]
fn test_delete_url_success() {
    let mut repo = MockUrlRepo::new();
    let user_id = bittuly::ids::fresh_user_id();
    let url = repo.add_shorten_url("https://google.com", user_id, None).unwrap();

    let deleted = repo.delete_url(url.url_id, user_id);
    assert_eq!(deleted, Some(url.short_code));
}

#[test]
fn test_delete_url_wrong_user() {
    let mut repo = MockUrlRepo::new();
    let user_id = bittuly::ids::fresh_user_id();
    let wrong_user = bittuly::ids::fresh_user_id();
    let url = repo.add_shorten_url("https://google.com", user_id, None).unwrap();

    let deleted = repo.delete_url(url.url_id, wrong_user);
    assert_eq!(deleted, None);
}

#[test]
fn shortened_ids_count_up_with_base62_codes() {
    let mut repo = MockUrlRepo::new();
    let user_id = 7u128;
    let mut last = String::new();
    for i in 1..=63i64 {
        let target = format!("https://example.com/{}", i);
        let url = repo.add_shorten_url(&target, user_id, None).unwrap();
        assert_eq!(url.url_id, i);
        last = url.short_code;
    }
    // 62 is written "10", 63 is "11".
    assert_eq!(last, "11");
}

#[test]
fn same_target_for_two_users_gives_two_links() {
    let mut repo = MockUrlRepo::new();
    let a = repo.add_shorten_url("https://a.example", 1, None).unwrap();
    let b = repo.add_shorten_url("https://a.example", 2, None).unwrap();
    assert_ne!(a.url_id, b.url_id);
    assert_eq!(b.short_code, "2");
}

#[test]
fn live_link_with_future_expiry_is_not_reactivated() {
    let mut repo = MockUrlRepo::new();
    repo.add_shorten_url("https://a.example", 1, Some(days_from_now(2))).unwrap();
    assert!(repo.add_shorten_url("https://a.example", 1, None).is_none());
}

#[test]
fn reactivation_keeps_id_and_code() {
    let mut repo = MockUrlRepo::new();
    let first = repo.add_shorten_url("https://a.example", 1, Some(days_from_now(-3))).unwrap();
    let again = repo.add_shorten_url("https://a.example", 1, None).unwrap();
    assert_eq!(again.url_id, first.url_id);
    assert_eq!(again.short_code, first.short_code);
    assert_eq!(again.expires_at, None);
    assert_eq!(repo.get_original_url(&first.short_code).unwrap().1, None);
}

#[test]
fn deleted_link_no_longer_resolves() {
    let mut repo = MockUrlRepo::new();
    let url = repo.add_shorten_url("https://a.example", 1, None).unwrap();
    assert!(repo.delete_url(url.url_id, 1).is_some());
    assert!(repo.get_original_url(&url.short_code).is_none());
    assert!(repo.delete_url(url.url_id, 1).is_none());
}

#[test]
fn unknown_code_does_not_resolve() {
    let repo = MockUrlRepo::new();
    assert!(repo.get_original_url("zz").is_none());
    assert!(repo.ping().is_ok());
}

fn seeded(n: i64, user: u128) -> MockUrlRepo {
    let mut repo = MockUrlRepo::new();
    for i in 1..=n {
        repo.add_shorten_url(&format!("https://site/{}", i), user, None).unwrap();
    }
    repo
}

#[test]
fn pages_run_newest_first_with_hex_cursor() {
    let repo = seeded(25, 9);
    let page = repo.get_urls_page(9, None, 20);
    assert_eq!(page.urls.len(), 20);
    assert_eq!(page.urls[0].url_id, 25);
    assert_eq!(page.urls[19].url_id, 6);
    assert_eq!(page.next_cursor.as_deref(), Some("6"));

    let next = repo.get_urls_page(9, Some(6), 20);
    let ids: Vec<i64> = next.urls.iter().map(|u| u.url_id).collect();
    assert_eq!(ids, vec![5, 4, 3, 2, 1]);
    assert_eq!(next.next_cursor, None);
}

#[test]
fn page_exactly_full_has_no_next_page() {
    let repo = seeded(20, 9);
    let page = repo.get_urls_page(9, None, 20);
    assert_eq!(page.urls.len(), 20);
    assert_eq!(page.next_cursor, None);
}

#[test]
fn cursor_is_lower_case_hex() {
    let repo = seeded(40, 3);
    let page = repo.get_urls_page(3, None, 10);
    assert_eq!(page.urls.last().unwrap().url_id, 31);
    assert_eq!(page.next_cursor.as_deref(), Some("1f"));
}

#[test]
fn page_holds_only_the_users_links() {
    let mut repo = seeded(3, 1);
    repo.add_shorten_url("https://other", 2, None).unwrap();
    let page = repo.get_urls_page(2, None, 20);
    assert_eq!(page.urls.len(), 1);
    assert_eq!(page.urls[0].user_id, 2);
}

#[test]
fn negative_limit_keeps_every_link_and_points_on() {
    let repo = seeded(3, 1);
    let page = repo.get_urls_page(1, None, -1);
    assert_eq!(page.urls.len(), 3);
    assert_eq!(page.next_cursor.as_deref(), Some("1"));
}

#[test]
fn zero_limit_gives_empty_page_without_cursor() {
    let repo = seeded(3, 1);
    let page = repo.get_urls_page(1, None, 0);
    assert!(page.urls.is_empty());
    assert_eq!(page.next_cursor, None);
}
