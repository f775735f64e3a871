use foxbot::matcher::{Candidate, SiteId, filter_matches, first_of_each_site};

fn cand(site: SiteId, url: &str, distance: Option<u64>) -> Candidate {
    Candidate { site, url: String::from(url), distance }
}

#[test]
fn filter_keeps_distances_within_threshold() {
    let matches = vec![
        cand(SiteId::FurAffinity, "https://a.example/1", Some(1)),
        cand(SiteId::E621, "https://a.example/4", Some(4)),
        cand(SiteId::Twitter, "https://a.example/2", Some(2)),
    ];
    let kept = filter_matches(matches, 3);
    assert_eq!(kept.len(), 2);
    assert_eq!(kept[0].distance, Some(1));
    assert_eq!(kept[0].url, "https://a.example/1");
    assert_eq!(kept[1].distance, Some(2));
    assert_eq!(kept[1].url, "https://a.example/2");
}

#[test]
fn filter_treats_missing_distance_as_too_far() {
    let matches = vec![
        cand(SiteId::FurAffinity, "https://a.example/none", None),
        cand(SiteId::E621, "https://a.example/3", Some(3)),
    ];
    let kept = filter_matches(matches, 3);
    assert_eq!(kept.len(), 1);
    assert_eq!(kept[0].url, "https://a.example/3");
}

#[test]
fn filter_of_empty_list_is_empty() {
    let kept = filter_matches(Vec::new(), 3);
    assert!(kept.is_empty());
}

#[test]
fn first_of_each_site_picks_best_per_site() {
    // Candidates {(siteA, d=2), (siteA, d=5), (siteB, d=1)} yield exactly
    // {(siteA, d=2), (siteB, d=1)}.
    let candidates = vec![
        cand(SiteId::FurAffinity, "https://a.example/d2", Some(2)),
        cand(SiteId::FurAffinity, "https://a.example/d5", Some(5)),
        cand(SiteId::Weasyl, "https://b.example/d1", Some(1)),
    ];
    let firsts = first_of_each_site(&candidates);
    assert_eq!(firsts.len(), 2);
    assert_eq!(firsts[0].url, "https://a.example/d2");
    assert_eq!(firsts[0].distance, Some(2));
    assert_eq!(firsts[1].url, "https://b.example/d1");
    assert_eq!(firsts[1].distance, Some(1));
}

#[test]
fn first_of_each_site_orders_by_site_priority() {
    let candidates = vec![
        cand(SiteId::Twitter, "https://t.example/1", Some(1)),
        cand(SiteId::FurAffinity, "https://fa.example/2", Some(2)),
    ];
    let firsts = first_of_each_site(&candidates);
    assert_eq!(firsts.len(), 2);
    // FurAffinity outranks Twitter in the configured order.
    assert_eq!(firsts[0].url, "https://fa.example/2");
    assert_eq!(firsts[1].url, "https://t.example/1");
}

#[test]
fn first_of_each_site_breaks_ties_by_first_seen() {
    let candidates = vec![
        cand(SiteId::E621, "https://e.example/first", Some(2)),
        cand(SiteId::E621, "https://e.example/second", Some(2)),
    ];
    let firsts = first_of_each_site(&candidates);
    assert_eq!(firsts.len(), 1);
    assert_eq!(firsts[0].url, "https://e.example/first");
}

#[test]
fn site_names() {
    assert_eq!(SiteId::FurAffinity.name(), "FurAffinity");
    assert_eq!(SiteId::Weasyl.name(), "Weasyl");
    assert_eq!(SiteId::E621.name(), "e621");
    assert_eq!(SiteId::Twitter.name(), "Twitter");
}
