//! Source pipeline: the state machine that takes an incoming channel update
//! through its gates — best photo, distance filtering, self-source check,
//! similarity check, group dedup — and either stops or emits an edit job.
//!
//! Every gate is a decision function over plain values; the surrounding
//! worker performs the platform, search and store calls and feeds their
//! results back in. Gate order: [`select_photo`], then distance filtering
//! with [`crate::matcher::filter_matches`], then [`check_self_sourced`]
//! against the post's own links, then the similarity check of
//! [`crate::similarity`], then the group dedup of [`crate::store`], and
//! finally [`build_edit_job`].

use vstd::prelude::*;

use crate::matcher::{
    Candidate, MAX_MATCH_DISTANCE, SiteId, filter_matches, filtered_matches, first_of_each_site,
    firsts_of, site_order_spec,
};
use crate::message::{ChannelMessage, extract_links, extracted_links, find_best_photo, is_best_photo_index};

verus! {

/// Hard pipeline failures; every "nothing to do" branch is a success, not
/// an error.
#[derive(Clone, Copy, Debug, PartialEq, Eq, Structural)]
pub enum PipelineError {
    /// The job payload lacked data it is required to carry.
    MissingData,
}

/// The durable payload of a follow-up edit job: which message to edit and
/// the ordered (site, url) pairs to attach. Re-enqueued unchanged across
/// rate-limit retries.
#[derive(Debug)]
pub struct MessageEdit {
    pub chat_id: i64,
    pub message_id: i64,
    pub media_group_id: Option<String>,
    pub firsts: Vec<(SiteId, String)>,
}

impl Clone for MessageEdit {
    fn clone(&self) -> (r: Self)
        ensures
            r.chat_id == self.chat_id,
            r.message_id == self.message_id,
            r.media_group_id == self.media_group_id,
            r.firsts@ == self.firsts@,
    {
        let media_group_id = match &self.media_group_id {
            Some(g) => Some(g.clone()),
            None => None,
        };
        let mut firsts: Vec<(SiteId, String)> = Vec::new();
        let mut i: usize = 0;
        while i < self.firsts.len()
            invariant
                i <= self.firsts@.len(),
                firsts@ == self.firsts@.subrange(0, i as int),
            decreases self.firsts@.len() - i,
        {
            let p = &self.firsts[i];
            firsts.push((p.0, p.1.clone()));
            proof {
                assert(firsts@ =~= self.firsts@.subrange(0, i as int + 1));
            }
            i = i + 1;
        }
        proof {
            assert(self.firsts@.subrange(0, self.firsts@.len() as int) =~= self.firsts@);
        }
        MessageEdit {
            chat_id: self.chat_id,
            message_id: self.message_id,
            media_group_id,
            firsts,
        }
    }
}

/// First gate: the index of the message's best photo variant. `Ok(None)`
/// means the message carries no photo at all — the pipeline stops with
/// nothing to do. A photo list that is present but empty is malformed input
/// and a hard failure.
pub fn select_photo(msg: &ChannelMessage) -> (r: Result<Option<usize>, PipelineError>)
    ensures
        match msg.photo {
            None => r == Ok::<Option<usize>, PipelineError>(None::<usize>),
            Some(sizes) => if sizes@.len() == 0 {
                r == Err::<Option<usize>, PipelineError>(PipelineError::MissingData)
            } else {
                match r {
                    Ok(Some(i)) => is_best_photo_index(sizes@, i as int),
                    _ => false,
                }
            },
        },
{
    match &msg.photo {
        None => Ok(None),
        Some(sizes) => match find_best_photo(sizes) {
            None => Err(PipelineError::MissingData),
            Some(i) => Ok(Some(i)),
        },
    }
}

/// Some matched candidate's canonical URL is literally one of the post's
/// own links.
pub open spec fn any_link_matches(candidates: Seq<Candidate>, links: Seq<Seq<char>>) -> bool {
    exists|i: int, j: int|
        0 <= i < candidates.len() && 0 <= j < links.len() && candidates[i].url@ == links[j]
}

/// Third gate: the post is already self-sourced when any matched
/// candidate's canonical URL equals one of the links in the post text.
pub fn check_self_sourced(candidates: &Vec<Candidate>, links: &Vec<String>) -> (r: bool)
    ensures
        r == any_link_matches(candidates@, links.deep_view()),
{
    let mut i: usize = 0;
    while i < candidates.len()
        invariant
            i <= candidates@.len(),
            forall|k: int, j: int|
                0 <= k < i && 0 <= j < links.deep_view().len() ==> candidates@[k].url@
                    != links.deep_view()[j],
        decreases candidates@.len() - i,
    {
        let mut j: usize = 0;
        while j < links.len()
            invariant
                i < candidates@.len(),
                j <= links.deep_view().len(),
                forall|l: int|
                    0 <= l < j ==> candidates@[i as int].url@ != links.deep_view()[l],
            decreases links.deep_view().len() - j,
        {
            if candidates[i].url == links[j] {
                proof {
                    assert(candidates@[i as int].url@ == links.deep_view()[j as int]);
                }
                return true;
            }
            j = j + 1;
        }
        i = i + 1;
    }
    false
}

/// What the matching stage decides once the search results are in: stop,
/// or name the next gate to run.
pub enum MatchDecision {
    /// No candidate survived the distance filter: terminal, nothing to do.
    SkipNoCandidates,
    /// A surviving candidate's canonical URL already stands in the post
    /// text: the post is self-sourced, terminal.
    SkipSelfSourced,
    /// The post has its own links and none matched exactly: resolve them
    /// and run the similarity gate before the group check.
    CheckSimilarity { candidates: Vec<Candidate>, links: Vec<String> },
    /// No own links to rule out: go straight to the group-dedup gate.
    CheckGroup { candidates: Vec<Candidate> },
}

/// Second and third gates in order: filter the service's matches by the
/// distance threshold, stop when nothing survives, stop when the post
/// already links a surviving candidate, and otherwise say which gate runs
/// next.
pub fn evaluate_matches(raw: Vec<Candidate>, text: &str) -> (r: MatchDecision)
    ensures
        ({
            let kept = filtered_matches(raw@, MAX_MATCH_DISTANCE);
            let links = extracted_links(text@);
            match r {
                MatchDecision::SkipNoCandidates => kept.len() == 0,
                MatchDecision::SkipSelfSourced => kept.len() > 0 && any_link_matches(kept, links),
                MatchDecision::CheckSimilarity { candidates, links: out_links } => {
                    &&& kept.len() > 0
                    &&& !any_link_matches(kept, links)
                    &&& links.len() > 0
                    &&& candidates@ == kept
                    &&& out_links.deep_view() == links
                },
                MatchDecision::CheckGroup { candidates } => {
                    &&& kept.len() > 0
                    &&& !any_link_matches(kept, links)
                    &&& links.len() == 0
                    &&& candidates@ == kept
                },
            }
        }),
{
    let candidates = filter_matches(raw, MAX_MATCH_DISTANCE);
    if candidates.len() == 0 {
        return MatchDecision::SkipNoCandidates;
    }
    let links = extract_links(text);
    if check_self_sourced(&candidates, &links) {
        return MatchDecision::SkipSelfSourced;
    }
    if links.len() > 0 {
        MatchDecision::CheckSimilarity { candidates, links }
    } else {
        MatchDecision::CheckGroup { candidates }
    }
}

/// The canonical URLs of a candidate list, in order.
pub open spec fn urls_of_candidates(s: Seq<Candidate>) -> Seq<Seq<char>> {
    s.map_values(|c: Candidate| c.url@)
}

/// Collect the candidates' canonical URLs, the set recorded for the
/// message's media group.
pub fn candidate_urls(candidates: &Vec<Candidate>) -> (r: Vec<String>)
    ensures
        r.deep_view() == urls_of_candidates(candidates@),
{
    let mut r: Vec<String> = Vec::new();
    let mut i: usize = 0;
    while i < candidates.len()
        invariant
            i <= candidates@.len(),
            r.deep_view().len() == i,
            forall|k: int| 0 <= k < i ==> r.deep_view()[k] == candidates@[k].url@,
        decreases candidates@.len() - i,
    {
        let ghost r0 = r.deep_view();
        r.push(candidates[i].url.clone());
        proof {
            assert(r.deep_view() =~= r0.push(candidates@[i as int].url@));
        }
        i = i + 1;
    }
    proof {
        assert(r.deep_view() =~= urls_of_candidates(candidates@));
    }
    r
}

/// The (site, url) pairs of the best candidate per site, in site-priority
/// order.
pub open spec fn firsts_pairs(candidates: Seq<Candidate>) -> Seq<(SiteId, Seq<char>)> {
    firsts_of(candidates, site_order_spec()).map_values(|c: Candidate| (c.site, c.url@))
}

/// The deep view of an edit job's (site, url) list.
pub open spec fn pairs_view(firsts: Seq<(SiteId, String)>) -> Seq<(SiteId, Seq<char>)> {
    firsts.map_values(|p: (SiteId, String)| (p.0, p.1@))
}

/// Final gate passed: build the follow-up edit job — the best candidate of
/// each site in the configured priority order, attached to the message's
/// coordinates.
pub fn build_edit_job(msg: &ChannelMessage, candidates: &Vec<Candidate>) -> (r: MessageEdit)
    ensures
        r.chat_id == msg.chat_id,
        r.message_id == msg.message_id,
        r.media_group_id == msg.media_group_id,
        pairs_view(r.firsts@) == firsts_pairs(candidates@),
{
    let best = first_of_each_site(candidates);
    let mut firsts: Vec<(SiteId, String)> = Vec::new();
    let mut i: usize = 0;
    while i < best.len()
        invariant
            i <= best@.len(),
            firsts@.len() == i,
            forall|k: int|
                0 <= k < i ==> firsts@[k].0 == best@[k].site && firsts@[k].1@ == best@[k].url@,
        decreases best@.len() - i,
    {
        let c = &best[i];
        firsts.push((c.site, c.url.clone()));
        i = i + 1;
    }
    let media_group_id = match &msg.media_group_id {
        Some(g) => Some(g.clone()),
        None => None,
    };
    proof {
        assert(pairs_view(firsts@) =~= firsts_pairs(candidates@));
    }
    MessageEdit { chat_id: msg.chat_id, message_id: msg.message_id, media_group_id, firsts }
}

} // verus!
