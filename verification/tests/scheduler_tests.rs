use foxbot::matcher::SiteId;
use foxbot::pipeline::MessageEdit;
use foxbot::scheduler::{
    EditAction, EditOutcome, PlatformError, build_caption, build_keyboard, handle_edit_response,
    plan_edit,
};
use foxbot::store::BackoffStore;

fn edit_job(media_group_id: Option<&str>) -> MessageEdit {
    MessageEdit {
        chat_id: 123,
        message_id: 456,
        media_group_id: media_group_id.map(String::from),
        firsts: vec![
            (SiteId::FurAffinity, String::from("https://www.furaffinity.net/view/1/")),
            (SiteId::E621, String::from("https://e621.net/posts/2")),
        ],
    }
}

#[test]
fn caption_joins_urls_with_newlines() {
    let job = edit_job(Some("group"));
    let caption = build_caption(&job.firsts);
    assert_eq!(caption, "https://www.furaffinity.net/view/1/\nhttps://e621.net/posts/2");
}

#[test]
fn caption_of_single_url_has_no_newline() {
    let firsts = vec![(SiteId::Weasyl, String::from("https://weasyl.example/a"))];
    assert_eq!(build_caption(&firsts), "https://weasyl.example/a");
}

#[test]
fn even_button_count_gives_rows_of_two() {
    let job = edit_job(None);
    let rows = build_keyboard(&job.firsts);
    assert_eq!(rows.len(), 1);
    assert_eq!(rows[0].len(), 2);
    assert_eq!(rows[0][0].text, "FurAffinity");
    assert_eq!(rows[0][0].url, "https://www.furaffinity.net/view/1/");
    assert_eq!(rows[0][1].text, "e621");
    assert_eq!(rows[0][1].url, "https://e621.net/posts/2");
}

#[test]
fn odd_button_count_gives_rows_of_one() {
    let firsts = vec![
        (SiteId::FurAffinity, String::from("https://a.example/1")),
        (SiteId::Weasyl, String::from("https://b.example/2")),
        (SiteId::Twitter, String::from("https://c.example/3")),
    ];
    let rows = build_keyboard(&firsts);
    assert_eq!(rows.len(), 3);
    for (k, row) in rows.iter().enumerate() {
        assert_eq!(row.len(), 1);
        assert_eq!(row[0].url, firsts[k].1);
    }
}

#[test]
fn media_group_jobs_get_captions_and_standalone_jobs_keyboards() {
    let backoff = BackoffStore::new();

    match plan_edit(&edit_job(Some("group")), &backoff, 100) {
        EditAction::SetCaption { caption } => {
            assert_eq!(caption, "https://www.furaffinity.net/view/1/\nhttps://e621.net/posts/2");
        }
        _ => panic!("media-group job should set a caption"),
    }

    match plan_edit(&edit_job(None), &backoff, 100) {
        EditAction::SetKeyboard { rows } => assert_eq!(rows.len(), 1),
        _ => panic!("standalone job should set a keyboard"),
    }
}

#[test]
fn rate_limit_sets_marker_and_reschedules_identical_job() {
    // An edit attempt that is rate-limited with retry_after=30 enqueues a
    // new job at now+30 and sets the chat's backoff marker to the same
    // instant; an attempt before that instant must reschedule again.
    let mut backoff = BackoffStore::new();
    let job = edit_job(Some("group"));
    let now: u64 = 1000;

    let resp = Err(PlatformError { error_code: Some(429), retry_after: Some(30) });
    match handle_edit_response(&job, &resp, now, &mut backoff) {
        EditOutcome::Rescheduled { job: again, at } => {
            assert_eq!(at, 1030);
            assert_eq!(again.chat_id, job.chat_id);
            assert_eq!(again.message_id, job.message_id);
            assert_eq!(again.media_group_id, job.media_group_id);
            assert_eq!(again.firsts, job.firsts);
        }
        _ => panic!("rate limit should reschedule"),
    }
    assert_eq!(backoff.get_backoff(job.chat_id, now), Some(1030));

    // A concurrent attempt for the same chat before the instant.
    match plan_edit(&job, &backoff, 1029) {
        EditAction::Reschedule { at } => assert_eq!(at, 1030),
        _ => panic!("attempt before the marker must reschedule"),
    }

    // Once the instant has passed, the edit proceeds.
    match plan_edit(&job, &backoff, 1030) {
        EditAction::SetCaption { .. } => {}
        _ => panic!("attempt at the marked instant should proceed"),
    }
}

#[test]
fn known_client_errors_are_absorbed() {
    let mut backoff = BackoffStore::new();
    let job = edit_job(None);

    let resp = Err(PlatformError { error_code: Some(400), retry_after: None });
    assert!(matches!(
        handle_edit_response(&job, &resp, 10, &mut backoff),
        EditOutcome::Completed
    ));

    let resp = Err(PlatformError { error_code: Some(403), retry_after: None });
    assert!(matches!(
        handle_edit_response(&job, &resp, 10, &mut backoff),
        EditOutcome::Completed
    ));

    // Neither wrote a backoff marker.
    assert_eq!(backoff.get_backoff(job.chat_id, 0), None);
}

#[test]
fn other_errors_propagate_as_failure() {
    let mut backoff = BackoffStore::new();
    let job = edit_job(None);

    let resp = Err(PlatformError { error_code: Some(500), retry_after: None });
    assert!(matches!(
        handle_edit_response(&job, &resp, 10, &mut backoff),
        EditOutcome::Failed
    ));

    let resp = Err(PlatformError { error_code: None, retry_after: None });
    assert!(matches!(
        handle_edit_response(&job, &resp, 10, &mut backoff),
        EditOutcome::Failed
    ));
}

#[test]
fn success_completes() {
    let mut backoff = BackoffStore::new();
    let job = edit_job(None);
    assert!(matches!(
        handle_edit_response(&job, &Ok(()), 10, &mut backoff),
        EditOutcome::Completed
    ));
}
