//! Edit scheduler: consumes a [`MessageEdit`] job, decides how the platform
//! edit is shaped (plain caption for media-group messages, inline keyboard
//! otherwise), honours the per-chat backoff marker, and classifies the
//! platform's response — absorbing rate limits by rescheduling the
//! identical payload at the server-supplied instant.

use vstd::prelude::*;

use crate::matcher::{SiteId, site_display};
use crate::pipeline::{MessageEdit, pairs_view};
use crate::store::BackoffStore;

verus! {

/// URL list joined with newlines, in order: the caption of a media-group
/// edit.
pub open spec fn joined_urls(urls: Seq<Seq<char>>) -> Seq<char>
    decreases urls.len(),
{
    if urls.len() == 0 {
        Seq::empty()
    } else if urls.len() == 1 {
        urls[0]
    } else {
        joined_urls(urls.drop_last()) + seq!['\n'] + urls.last()
    }
}

/// The URLs of an edit job's (site, url) list, in order.
pub open spec fn urls_of_pairs(firsts: Seq<(SiteId, String)>) -> Seq<Seq<char>> {
    firsts.map_values(|p: (SiteId, String)| p.1@)
}

/// The caption for a media-group message: the source URLs joined with
/// newlines, in their pre-sorted order.
pub fn build_caption(firsts: &Vec<(SiteId, String)>) -> (r: String)
    ensures
        r@ == joined_urls(urls_of_pairs(firsts@)),
{
    let mut r = String::new();
    let mut i: usize = 0;
    proof {
        assert(urls_of_pairs(firsts@.subrange(0, 0)) =~= Seq::<Seq<char>>::empty());
    }
    while i < firsts.len()
        invariant
            i <= firsts@.len(),
            r@ == joined_urls(urls_of_pairs(firsts@.subrange(0, i as int))),
        decreases firsts@.len() - i,
    {
        if i > 0 {
            r.append("\n");
        }
        r.append(firsts[i].1.as_str());
        proof {
            reveal_strlit("\n");
            assert("\n"@ =~= seq!['\n']);
            let prev = urls_of_pairs(firsts@.subrange(0, i as int));
            let cur = urls_of_pairs(firsts@.subrange(0, i as int + 1));
            assert(cur.drop_last() =~= prev);
            assert(cur.last() == firsts@[i as int].1@);
            if i == 0 {
                assert(cur.len() == 1);
                assert(r@ == cur[0]);
            } else {
                assert(r@ == joined_urls(prev) + seq!['\n'] + firsts@[i as int].1@);
            }
        }
        i = i + 1;
    }
    proof {
        assert(firsts@.subrange(0, firsts@.len() as int) =~= firsts@);
    }
    r
}

/// One inline-keyboard button: the site's display name over its URL.
pub struct KeyboardButton {
    pub text: String,
    pub url: String,
}

/// `b` is the button for the pair `p`.
pub open spec fn button_matches(b: KeyboardButton, p: (SiteId, Seq<char>)) -> bool {
    b.text@ == site_display(p.0) && b.url@ == p.1
}

/// The keyboard layout rule: an even number of buttons is laid out two per
/// row, an odd number one per row, in order.
pub open spec fn keyboard_rows_ok(
    rows: Seq<Vec<KeyboardButton>>,
    pairs: Seq<(SiteId, Seq<char>)>,
) -> bool {
    if pairs.len() % 2 == 0 {
        &&& rows.len() * 2 == pairs.len()
        &&& forall|k: int|
            #![trigger rows[k]]
            0 <= k < rows.len() ==> rows[k]@.len() == 2 && button_matches(rows[k]@[0], pairs[2 * k])
                && button_matches(rows[k]@[1], pairs[2 * k + 1])
    } else {
        &&& rows.len() == pairs.len()
        &&& forall|k: int|
            #![trigger rows[k]]
            0 <= k < rows.len() ==> rows[k]@.len() == 1 && button_matches(rows[k]@[0], pairs[k])
    }
}

/// The inline keyboard for a standalone message: one button per source,
/// two per row when the count is even, one per row otherwise.
pub fn build_keyboard(firsts: &Vec<(SiteId, String)>) -> (rows: Vec<Vec<KeyboardButton>>)
    ensures
        keyboard_rows_ok(rows@, pairs_view(firsts@)),
{
    let mut rows: Vec<Vec<KeyboardButton>> = Vec::new();
    let ghost pairs = pairs_view(firsts@);
    if firsts.len() % 2 == 0 {
        let mut i: usize = 0;
        while i + 1 < firsts.len()
            invariant
                i % 2 == 0,
                i <= firsts@.len(),
                firsts@.len() % 2 == 0,
                pairs == pairs_view(firsts@),
                rows@.len() * 2 == i,
                forall|k: int|
                    #![trigger rows@[k]]
                    0 <= k < rows@.len() ==> rows@[k]@.len() == 2 && button_matches(
                        rows@[k]@[0],
                        pairs[2 * k],
                    ) && button_matches(rows@[k]@[1], pairs[2 * k + 1]),
            decreases firsts@.len() - i,
        {
            let mut row: Vec<KeyboardButton> = Vec::new();
            let p0 = &firsts[i];
            let p1 = &firsts[i + 1];
            let b0 = KeyboardButton { text: String::from_str(p0.0.name()), url: p0.1.clone() };
            let b1 = KeyboardButton { text: String::from_str(p1.0.name()), url: p1.1.clone() };
            row.push(b0);
            row.push(b1);
            let ghost rows0 = rows@;
            let ghost rowv = row@;
            rows.push(row);
            proof {
                let n = rows0.len() as int;
                assert(rowv.len() == 2);
                assert(rows@[n]@ == rowv);
                assert(button_matches(rows@[n]@[0], pairs[2 * n]));
                assert(button_matches(rows@[n]@[1], pairs[2 * n + 1]));
                assert forall|k: int|
                    #![trigger rows@[k]]
                    0 <= k < rows@.len() implies rows@[k]@.len() == 2 && button_matches(
                    rows@[k]@[0],
                    pairs[2 * k],
                ) && button_matches(rows@[k]@[1], pairs[2 * k + 1]) by {
                    if k < n {
                        assert(rows0[k]@.len() == 2 && button_matches(rows0[k]@[0], pairs[2 * k])
                            && button_matches(rows0[k]@[1], pairs[2 * k + 1]));
                        assert(rows@[k] == rows0[k]);
                    } else {
                        assert(k == n);
                        assert(rows@[k]@ == rowv);
                    }
                }
            }
            i = i + 2;
        }
        proof {
            assert(i == firsts@.len());
        }
    } else {
        let mut i: usize = 0;
        while i < firsts.len()
            invariant
                i <= firsts@.len(),
                pairs == pairs_view(firsts@),
                rows@.len() == i,
                forall|k: int|
                    #![trigger rows@[k]]
                    0 <= k < rows@.len() ==> rows@[k]@.len() == 1 && button_matches(
                        rows@[k]@[0],
                        pairs[k],
                    ),
            decreases firsts@.len() - i,
        {
            let mut row: Vec<KeyboardButton> = Vec::new();
            let p = &firsts[i];
            let b = KeyboardButton { text: String::from_str(p.0.name()), url: p.1.clone() };
            row.push(b);
            let ghost rows0 = rows@;
            let ghost rowv = row@;
            rows.push(row);
            proof {
                let n = rows0.len() as int;
                assert(rowv.len() == 1);
                assert(rows@[n]@ == rowv);
                assert(button_matches(rows@[n]@[0], pairs[n]));
                assert forall|k: int|
                    #![trigger rows@[k]]
                    0 <= k < rows@.len() implies rows@[k]@.len() == 1 && button_matches(
                    rows@[k]@[0],
                    pairs[k],
                ) by {
                    if k < n {
                        assert(rows0[k]@.len() == 1 && button_matches(rows0[k]@[0], pairs[k]));
                        assert(rows@[k] == rows0[k]);
                    } else {
                        assert(k == n);
                        assert(rows@[k]@ == rowv);
                    }
                }
            }
            i = i + 1;
        }
    }
    rows
}

/// What the scheduler decides to do with an edit job before contacting the
/// platform.
pub enum EditAction {
    /// A backoff marker is still in the future: re-enqueue the identical
    /// payload to fire at that instant, without contacting the platform.
    Reschedule { at: u64 },
    /// Media-group message: set a plain caption.
    SetCaption { caption: String },
    /// Standalone message: set an inline keyboard.
    SetKeyboard { rows: Vec<Vec<KeyboardButton>> },
}

/// Decide how to apply an edit job at instant `now`: wait out an active
/// backoff marker, or shape the edit for the message kind.
pub fn plan_edit(job: &MessageEdit, backoff: &BackoffStore, now: u64) -> (r: EditAction)
    requires
        backoff.wf(),
    ensures
        match backoff.active_backoff(job.chat_id, now) {
            Some(t) => r == (EditAction::Reschedule { at: t }),
            None => match r {
                EditAction::Reschedule { .. } => false,
                EditAction::SetCaption { caption } => job.media_group_id is Some && caption@
                    == joined_urls(urls_of_pairs(job.firsts@)),
                EditAction::SetKeyboard { rows } => job.media_group_id is None
                    && keyboard_rows_ok(rows@, pairs_view(job.firsts@)),
            },
        },
{
    match backoff.get_backoff(job.chat_id, now) {
        Some(t) => EditAction::Reschedule { at: t },
        None => match &job.media_group_id {
            Some(_) => EditAction::SetCaption { caption: build_caption(&job.firsts) },
            None => EditAction::SetKeyboard { rows: build_keyboard(&job.firsts) },
        },
    }
}

/// A platform error, as far as the scheduler reads it: the numeric status
/// code, if any, and the server's retry-after hint when it rate-limited us.
pub struct PlatformError {
    pub error_code: Option<i64>,
    pub retry_after: Option<u32>,
}

/// How an edit job ends after the platform answered.
pub enum EditOutcome {
    /// Terminal success: the edit worked, or a known client error was
    /// absorbed.
    Completed,
    /// Rate-limited: the identical payload must be enqueued again to fire
    /// at `at`.
    Rescheduled { job: MessageEdit, at: u64 },
    /// Any other platform error: propagate as a job failure so the queue's
    /// retry policy applies.
    Failed,
}

/// Two edit jobs carry the same payload.
pub open spec fn same_job(a: MessageEdit, b: MessageEdit) -> bool {
    &&& a.chat_id == b.chat_id
    &&& a.message_id == b.message_id
    &&& a.media_group_id == b.media_group_id
    &&& a.firsts@ == b.firsts@
}

/// Classify the platform's response to an edit. A rate limit writes the
/// chat's backoff marker to `now + retry_after` and reschedules the
/// identical payload there; "bad request" and "forbidden" class errors are
/// absorbed as terminal successes; anything else is a job failure. Only a
/// rate limit touches the backoff store.
pub fn handle_edit_response(
    job: &MessageEdit,
    resp: &Result<(), PlatformError>,
    now: u64,
    backoff: &mut BackoffStore,
) -> (r: EditOutcome)
    requires
        old(backoff).wf(),
        now + 0xffff_ffffu64 <= u64::MAX,
    ensures
        final(backoff).wf(),
        match resp {
            Ok(_) => r == EditOutcome::Completed && *final(backoff) == *old(backoff),
            Err(e) => match e.retry_after {
                Some(ra) => {
                    &&& match r {
                        EditOutcome::Rescheduled { job: j, at } => same_job(j, *job) && at == now
                            + ra,
                        _ => false,
                    }
                    &&& final(backoff).backoff_of(job.chat_id) == Some((now + ra) as u64)
                    &&& forall|c: i64|
                        c != job.chat_id ==> final(backoff).backoff_of(c) == old(
                            backoff,
                        ).backoff_of(c)
                },
                None => match e.error_code {
                    Some(code) => if code == 400 || code == 403 {
                        r == EditOutcome::Completed && *final(backoff) == *old(backoff)
                    } else {
                        r == EditOutcome::Failed && *final(backoff) == *old(backoff)
                    },
                    None => r == EditOutcome::Failed && *final(backoff) == *old(backoff),
                },
            },
        },
{
    match resp {
        Ok(_) => EditOutcome::Completed,
        Err(e) => match e.retry_after {
            Some(ra) => {
                let at = now + ra as u64;
                backoff.mark_backoff(job.chat_id, at);
                EditOutcome::Rescheduled { job: job.clone(), at }
            },
            None => match e.error_code {
                Some(code) => if code == 400 || code == 403 {
                    EditOutcome::Completed
                } else {
                    EditOutcome::Failed
                },
                None => EditOutcome::Failed,
            },
        },
    }
}

/// Relies on `chrono::Utc::now` for the wall clock; nothing is promised of
/// a clock reading.
#[verifier::external_body]
fn now_timestamp() -> i64 {
    chrono::Utc::now().timestamp()
}

/// The current Unix time in seconds, clamped to zero for pre-epoch clocks.
/// No contract can pin a clock reading; the scheduling decisions take the
/// instant as an argument and are verified for every value of it.
pub fn current_unix_time() -> u64 {
    let t = now_timestamp();
    if t < 0 {
        0
    } else {
        t as u64
    }
}

/// Law: once a rate-limited edit has set the chat's backoff marker to
/// `at`, any attempt for the same chat at an earlier instant sees an
/// active restriction for exactly `at` — by [`plan_edit`]'s contract it
/// must reschedule rather than contact the platform.
pub proof fn lemma_backoff_blocks_earlier_attempts(
    backoff: BackoffStore,
    chat: i64,
    at: u64,
    now: u64,
)
    requires
        backoff.backoff_of(chat) == Some(at),
        now < at,
    ensures
        backoff.active_backoff(chat, now) == Some(at),
{
}

} // verus!
