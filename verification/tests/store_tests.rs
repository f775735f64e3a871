use foxbot::store::{BackoffStore, GroupSourceStore};

#[test]
fn test_already_had_source() {
    let mut store = GroupSourceStore::new();

    let group = String::from("test-group");
    let now: u64 = 1000;

    let sources = vec![String::from("https://www.furaffinity.net/view/123/")];

    let resp = store.record_group_sources(Some(&group), &sources, now);
    assert_eq!(
        resp, false,
        "filtering with no results should have no status flag"
    );

    let resp = store.record_group_sources(Some(&group), &sources, now);
    assert_eq!(
        resp, true,
        "filtering with same media group id and source should flag completed"
    );

    let sources = vec![String::from("https://www.furaffinity.net/view/456/")];

    let resp = store.record_group_sources(Some(&group), &sources, now);
    assert_eq!(
        resp, false,
        "filtering same group with new source should have no status flag"
    );

    let group = String::from("test-group-2");

    let resp = store.record_group_sources(Some(&group), &sources, now);
    assert_eq!(
        resp, false,
        "different group should not be affected by other group sources"
    );

    let sources = vec![
        String::from("https://www.furaffinity.net/view/456/"),
        String::from("https://www.furaffinity.net/view/789/"),
    ];

    let resp = store.record_group_sources(Some(&group), &sources, now);
    assert_eq!(
        resp, true,
        "adding a new with an old source should set a completed flag"
    );
}

#[test]
fn record_twice_same_urls_flags_second_call() {
    let mut store = GroupSourceStore::new();
    let group = String::from("g1");
    let urls = vec![String::from("https://e621.net/posts/1"), String::from("https://e621.net/posts/2")];

    assert_eq!(store.record_group_sources(Some(&group), &urls, 50), false);
    assert_eq!(store.record_group_sources(Some(&group), &urls, 60), true);
}

#[test]
fn disjoint_urls_across_groups_never_flag() {
    let mut store = GroupSourceStore::new();
    let g1 = String::from("left");
    let g2 = String::from("right");
    let urls1 = vec![String::from("https://a.example/1")];
    let urls2 = vec![String::from("https://b.example/2")];

    assert_eq!(store.record_group_sources(Some(&g1), &urls1, 10), false);
    assert_eq!(store.record_group_sources(Some(&g2), &urls2, 11), false);
    assert_eq!(store.record_group_sources(Some(&g1), &urls2, 12), false);
    assert_eq!(store.record_group_sources(Some(&g2), &urls1, 13), false);
}

#[test]
fn no_media_group_records_nothing() {
    let mut store = GroupSourceStore::new();
    let urls = vec![String::from("https://a.example/1")];
    assert_eq!(store.record_group_sources(None, &urls, 5), false);
    assert_eq!(store.record_group_sources(None, &urls, 6), false);

    // Nothing was stored: a real group starts fresh.
    let g = String::from("g");
    assert_eq!(store.record_group_sources(Some(&g), &urls, 7), false);
}

#[test]
fn group_entry_expires_after_ttl() {
    let mut store = GroupSourceStore::new();
    let g = String::from("g");
    let urls = vec![String::from("https://a.example/1")];

    assert_eq!(store.record_group_sources(Some(&g), &urls, 100), false);
    // One second before the TTL elapses the sources are still alive.
    assert_eq!(store.record_group_sources(Some(&g), &urls, 399), true);
    // That write slid the window to 399 + 300 = 699; at 699 it has expired.
    assert_eq!(store.record_group_sources(Some(&g), &urls, 699), false);
}

#[test]
fn duplicate_urls_in_one_call_are_not_duplicates() {
    let mut store = GroupSourceStore::new();
    let g = String::from("g");
    let urls = vec![
        String::from("https://a.example/1"),
        String::from("https://a.example/1"),
    ];
    // The input is normalized before insertion: a repeated URL within one
    // call is not an "already had source" signal.
    assert_eq!(store.record_group_sources(Some(&g), &urls, 0), false);
}

#[test]
fn backoff_marker_round_trip() {
    let mut store = BackoffStore::new();
    assert_eq!(store.get_backoff(77, 10), None);

    store.mark_backoff(77, 40);
    assert_eq!(store.get_backoff(77, 10), Some(40));
    assert_eq!(store.get_backoff(77, 39), Some(40));
    // At the marked instant the restriction no longer applies.
    assert_eq!(store.get_backoff(77, 40), None);
    // Other chats are unaffected.
    assert_eq!(store.get_backoff(78, 10), None);

    // A new write supersedes the old marker.
    store.mark_backoff(77, 90);
    assert_eq!(store.get_backoff(77, 50), Some(90));
}
