use foxbot::matcher::{Candidate, SiteId, filter_matches};
use foxbot::message::{ChannelMessage, PhotoSize, extract_links};
use foxbot::pipeline::{
    MatchDecision, PipelineError, build_edit_job, candidate_urls, check_self_sourced,
    evaluate_matches, select_photo,
};
use foxbot::store::GroupSourceStore;

fn message(text: Option<&str>, photo: Option<Vec<PhotoSize>>) -> ChannelMessage {
    ChannelMessage {
        chat_id: -100123,
        message_id: 77,
        media_group_id: Some(String::from("mg-1")),
        text: text.map(String::from),
        photo,
    }
}

fn photo(width: u32, height: u32) -> PhotoSize {
    PhotoSize { file_id: String::from("file"), width, height, file_size: None }
}

fn cand(site: SiteId, url: &str, distance: Option<u64>) -> Candidate {
    Candidate { site, url: String::from(url), distance }
}

#[test]
fn no_photo_terminates_without_job_or_error() {
    // A message with no photo ends the pipeline: no job, no error.
    let msg = message(Some("hello"), None);
    assert_eq!(select_photo(&msg), Ok(None));
}

#[test]
fn empty_photo_list_is_missing_data() {
    let msg = message(None, Some(Vec::new()));
    assert_eq!(select_photo(&msg), Err(PipelineError::MissingData));
}

#[test]
fn best_photo_is_selected() {
    let msg = message(None, Some(vec![photo(90, 90), photo(1280, 720)]));
    assert_eq!(select_photo(&msg), Ok(Some(1)));
}

#[test]
fn self_sourced_post_terminates_before_emitting() {
    // A photo with one candidate at distance 2 whose exact URL already
    // stands in the post text: the pipeline stops without an edit job.
    let msg = message(
        Some("source: https://www.furaffinity.net/view/42/"),
        Some(vec![photo(800, 600)]),
    );
    assert!(matches!(select_photo(&msg), Ok(Some(0))));

    let raw = vec![cand(SiteId::FurAffinity, "https://www.furaffinity.net/view/42/", Some(2))];
    let candidates = filter_matches(raw, 3);
    assert_eq!(candidates.len(), 1);

    let links = extract_links(msg.text.as_deref().unwrap_or(""));
    assert!(check_self_sourced(&candidates, &links));
}

#[test]
fn unrelated_links_do_not_stop_the_pipeline() {
    let candidates = vec![cand(SiteId::E621, "https://e621.net/posts/5", Some(1))];
    let links = vec![String::from("https://example.com/other")];
    assert!(!check_self_sourced(&candidates, &links));
}

#[test]
fn happy_path_emits_edit_job_with_firsts() {
    let msg = message(Some("fresh picture!"), Some(vec![photo(640, 480)]));
    let raw = vec![
        cand(SiteId::Twitter, "https://twitter.example/1", Some(1)),
        cand(SiteId::FurAffinity, "https://www.furaffinity.net/view/9/", Some(2)),
        cand(SiteId::FurAffinity, "https://www.furaffinity.net/view/8/", Some(5)),
    ];
    let candidates = filter_matches(raw, 3);
    assert_eq!(candidates.len(), 2);

    let links = extract_links(msg.text.as_deref().unwrap_or(""));
    assert!(!check_self_sourced(&candidates, &links));

    let mut store = GroupSourceStore::new();
    let urls = candidate_urls(&candidates);
    assert_eq!(urls.len(), 2);
    let dup = store.record_group_sources(msg.media_group_id.as_ref(), &urls, 500);
    assert!(!dup);

    let job = build_edit_job(&msg, &candidates);
    assert_eq!(job.chat_id, msg.chat_id);
    assert_eq!(job.message_id, msg.message_id);
    assert_eq!(job.media_group_id, msg.media_group_id);
    assert_eq!(job.firsts, vec![
        (SiteId::FurAffinity, String::from("https://www.furaffinity.net/view/9/")),
        (SiteId::Twitter, String::from("https://twitter.example/1")),
    ]);
}

#[test]
fn match_stage_stops_on_no_candidates() {
    let raw = vec![cand(SiteId::E621, "https://e621.net/posts/1", Some(7))];
    assert!(matches!(
        evaluate_matches(raw, "some text"),
        MatchDecision::SkipNoCandidates
    ));
}

#[test]
fn match_stage_stops_on_self_source() {
    let raw = vec![cand(SiteId::FurAffinity, "https://www.furaffinity.net/view/42/", Some(2))];
    let decision = evaluate_matches(raw, "source: https://www.furaffinity.net/view/42/");
    assert!(matches!(decision, MatchDecision::SkipSelfSourced));
}

#[test]
fn match_stage_orders_similarity_before_group_check() {
    let raw = vec![cand(SiteId::E621, "https://e621.net/posts/5", Some(1))];

    match evaluate_matches(raw, "unrelated https://example.com/pic.png") {
        MatchDecision::CheckSimilarity { candidates, links } => {
            assert_eq!(candidates.len(), 1);
            assert_eq!(links, vec![String::from("https://example.com/pic.png")]);
        }
        _ => panic!("posts with own links must pass the similarity gate"),
    }

    let raw = vec![cand(SiteId::E621, "https://e621.net/posts/5", Some(1))];
    match evaluate_matches(raw, "no links at all") {
        MatchDecision::CheckGroup { candidates } => assert_eq!(candidates.len(), 1),
        _ => panic!("posts without links go straight to the group check"),
    }
}

#[test]
fn group_duplicate_detected_across_messages() {
    // Two messages of one media group matching the same source: the second
    // detects the duplicate and stops.
    let mut store = GroupSourceStore::new();
    let group = String::from("mg-2");
    let urls = vec![String::from("https://e621.net/posts/5")];

    assert!(!store.record_group_sources(Some(&group), &urls, 100));
    assert!(store.record_group_sources(Some(&group), &urls, 101));
}
