//! Attribution matcher: filters reverse-image-search results by similarity
//! distance and selects the best candidate per site.

use vstd::prelude::*;

verus! {

/// Sites the reverse-image-search index can attribute an image to, in the
/// order used for display priority.
#[derive(Clone, Copy, Debug, PartialEq, Eq, Structural)]
pub enum SiteId {
    FurAffinity,
    Weasyl,
    E621,
    Twitter,
}

/// Matches farther than this similarity distance are discarded.
pub const MAX_MATCH_DISTANCE: u64 = 3;

/// A site's display name, used as keyboard button text.
pub open spec fn site_display(s: SiteId) -> Seq<char> {
    match s {
        SiteId::FurAffinity => "FurAffinity"@,
        SiteId::Weasyl => "Weasyl"@,
        SiteId::E621 => "e621"@,
        SiteId::Twitter => "Twitter"@,
    }
}

impl SiteId {
    /// The site's display name.
    pub fn name(&self) -> (r: &'static str)
        ensures
            r@ == site_display(*self),
    {
        match self {
            SiteId::FurAffinity => "FurAffinity",
            SiteId::Weasyl => "Weasyl",
            SiteId::E621 => "e621",
            SiteId::Twitter => "Twitter",
        }
    }
}

/// One matched source returned by the reverse-image-search service: the
/// canonical post URL, the site it belongs to, and the similarity distance
/// (lower is closer; absent when the service did not report one).
#[derive(Debug)]
pub struct Candidate {
    pub site: SiteId,
    pub url: String,
    pub distance: Option<u64>,
}

impl Clone for Candidate {
    fn clone(&self) -> (r: Self)
        ensures
            r == *self,
    {
        Candidate { site: self.site, url: self.url.clone(), distance: self.distance }
    }
}

/// A candidate survives filtering only when the service reported a distance
/// and that distance is within the threshold. A missing distance is treated
/// as worse than any threshold, never as a free pass.
pub open spec fn within_distance(c: Candidate, max_distance: u64) -> bool {
    match c.distance {
        Some(d) => d <= max_distance,
        None => false,
    }
}

/// The subsequence of `s` whose candidates lie within `max_distance`.
pub open spec fn filtered_matches(s: Seq<Candidate>, max_distance: u64) -> Seq<Candidate> {
    s.filter(|c: Candidate| within_distance(c, max_distance))
}

proof fn lemma_filtered_empty(max_distance: u64)
    ensures
        filtered_matches(Seq::<Candidate>::empty(), max_distance) == Seq::<Candidate>::empty(),
{
    reveal_with_fuel(Seq::<_>::filter, 1);
}

proof fn lemma_filtered_push(s: Seq<Candidate>, c: Candidate, max_distance: u64)
    ensures
        within_distance(c, max_distance) ==> filtered_matches(s.push(c), max_distance)
            == filtered_matches(s, max_distance).push(c),
        !within_distance(c, max_distance) ==> filtered_matches(s.push(c), max_distance)
            == filtered_matches(s, max_distance),
{
    reveal_with_fuel(Seq::<_>::filter, 1);
    assert(s.push(c).drop_last() =~= s);
    assert(s.push(c).last() == c);
}

/// Candidate `a` is at least as close as `b`; a missing distance is worse
/// than any reported one.
pub open spec fn dist_le(a: Candidate, b: Candidate) -> bool {
    match (a.distance, b.distance) {
        (Some(x), Some(y)) => x <= y,
        (Some(_), None) => true,
        (None, None) => true,
        (None, Some(_)) => false,
    }
}

/// Candidate `a` is strictly closer than `b`.
pub open spec fn dist_lt(a: Candidate, b: Candidate) -> bool {
    !dist_le(b, a)
}

/// Index of the best candidate for `site` among the first `n` elements of
/// `s`: the lowest distance, the earliest among ties; -1 when the site has
/// no candidate there.
pub open spec fn best_upto(s: Seq<Candidate>, site: SiteId, n: int) -> int
    decreases n,
{
    if n <= 0 || n > s.len() {
        -1
    } else {
        let prev = best_upto(s, site, n - 1);
        let c = s[n - 1];
        if c.site != site {
            prev
        } else if prev < 0 {
            n - 1
        } else if dist_lt(c, s[prev]) {
            n - 1
        } else {
            prev
        }
    }
}

/// Index of the best candidate for `site` in all of `s`, or -1.
pub open spec fn best_index(s: Seq<Candidate>, site: SiteId) -> int {
    best_upto(s, site, s.len() as int)
}

/// The best candidate of `site` as a zero- or one-element sequence.
pub open spec fn site_pick(s: Seq<Candidate>, site: SiteId) -> Seq<Candidate> {
    if best_index(s, site) >= 0 {
        seq![s[best_index(s, site)]]
    } else {
        Seq::empty()
    }
}

/// "First of each site": for each site of `order` in turn, its best
/// candidate from `s`, omitting sites with no candidate.
pub open spec fn firsts_of(s: Seq<Candidate>, order: Seq<SiteId>) -> Seq<Candidate>
    decreases order.len(),
{
    if order.len() == 0 {
        Seq::empty()
    } else {
        firsts_of(s, order.drop_last()) + site_pick(s, order.last())
    }
}

/// The configured site-priority order.
pub open spec fn site_order_spec() -> Seq<SiteId> {
    seq![SiteId::FurAffinity, SiteId::Weasyl, SiteId::E621, SiteId::Twitter]
}

/// The configured site-priority order, as displayed to users.
pub fn site_order() -> (r: Vec<SiteId>)
    ensures
        r@ == site_order_spec(),
{
    let mut r: Vec<SiteId> = Vec::new();
    r.push(SiteId::FurAffinity);
    r.push(SiteId::Weasyl);
    r.push(SiteId::E621);
    r.push(SiteId::Twitter);
    proof {
        assert(r@ =~= site_order_spec());
    }
    r
}

/// Whether `a` is strictly closer than `b`.
fn closer(a: &Candidate, b: &Candidate) -> (r: bool)
    ensures
        r == dist_lt(*a, *b),
{
    match (a.distance, b.distance) {
        (Some(x), Some(y)) => x < y,
        (Some(_), None) => true,
        _ => false,
    }
}

/// Select the single best candidate per site, in the configured
/// site-priority order: the lowest-distance candidate of each site that has
/// one, the earliest among ties.
pub fn first_of_each_site(candidates: &Vec<Candidate>) -> (r: Vec<Candidate>)
    ensures
        r@ == firsts_of(candidates@, site_order_spec()),
{
    let order = site_order();
    let mut r: Vec<Candidate> = Vec::new();
    let mut k: usize = 0;
    proof {
        assert(order@.subrange(0, 0) =~= Seq::<SiteId>::empty());
    }
    while k < order.len()
        invariant
            k <= order@.len(),
            order@ == site_order_spec(),
            r@ == firsts_of(candidates@, order@.subrange(0, k as int)),
        decreases order@.len() - k,
    {
        let site = order[k];
        let mut found: Option<usize> = None;
        let mut m: usize = 0;
        while m < candidates.len()
            invariant
                m <= candidates@.len(),
                match found {
                    None => best_upto(candidates@, site, m as int) == -1,
                    Some(b) => b < m && best_upto(candidates@, site, m as int) == b,
                },
            decreases candidates@.len() - m,
        {
            let c = &candidates[m];
            if c.site == site {
                let replace = match found {
                    None => true,
                    Some(b) => closer(c, &candidates[b]),
                };
                if replace {
                    found = Some(m);
                }
            }
            m = m + 1;
        }
        if let Some(b) = found {
            r.push(candidates[b].clone());
        }
        proof {
            let sub = order@.subrange(0, k as int + 1);
            assert(sub.drop_last() =~= order@.subrange(0, k as int));
            assert(sub.last() == order@[k as int]);
            assert(r@ =~= firsts_of(candidates@, sub));
        }
        k = k + 1;
    }
    proof {
        assert(order@.subrange(0, order@.len() as int) =~= order@);
    }
    r
}

/// Keep only the candidates whose reported distance is within
/// `max_distance`, preserving their order.
pub fn filter_matches(matches: Vec<Candidate>, max_distance: u64) -> (r: Vec<Candidate>)
    ensures
        r@ == filtered_matches(matches@, max_distance),
{
    let mut kept: Vec<Candidate> = Vec::new();
    let mut i: usize = 0;
    proof {
        lemma_filtered_empty(max_distance);
        assert(matches@.subrange(0, 0) =~= Seq::<Candidate>::empty());
    }
    while i < matches.len()
        invariant
            i <= matches.len(),
            kept@ == filtered_matches(matches@.subrange(0, i as int), max_distance),
        decreases matches.len() - i,
    {
        let c = &matches[i];
        let keep = match c.distance {
            Some(d) => d <= max_distance,
            None => false,
        };
        if keep {
            kept.push(c.clone());
        }
        proof {
            let prefix = matches@.subrange(0, i as int);
            assert(matches@.subrange(0, i as int + 1) =~= prefix.push(matches@[i as int]));
            lemma_filtered_push(prefix, matches@[i as int], max_distance);
        }
        i = i + 1;
    }
    proof {
        assert(matches@.subrange(0, matches@.len() as int) =~= matches@);
    }
    kept
}

} // verus!
