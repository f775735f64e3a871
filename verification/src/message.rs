//! Incoming channel messages: the fields of a platform message the pipeline
//! reads, best-photo selection, and the link extractor that pulls literal
//! URLs out of free-form post text.

use vstd::prelude::*;

verus! {

/// One photo variant of a message, as delivered by the platform.
pub struct PhotoSize {
    pub file_id: String,
    pub width: u32,
    pub height: u32,
    pub file_size: Option<u64>,
}

/// What the pipeline reads from a channel post: identifiers, the optional
/// media-group id, the post text, and the photo variants, if any.
pub struct ChannelMessage {
    pub chat_id: i64,
    pub message_id: i64,
    pub media_group_id: Option<String>,
    pub text: Option<String>,
    pub photo: Option<Vec<PhotoSize>>,
}

/// Pixel area of a photo variant; the measure of "best quality".
pub open spec fn photo_area(p: PhotoSize) -> int {
    p.width * p.height
}

/// `i` indexes the best-quality variant: no other has a larger pixel area,
/// and later variants are strictly smaller (the last maximum wins).
pub open spec fn is_best_photo_index(sizes: Seq<PhotoSize>, i: int) -> bool {
    &&& 0 <= i < sizes.len()
    &&& forall|j: int| 0 <= j < sizes.len() ==> photo_area(sizes[j]) <= photo_area(sizes[i])
    &&& forall|j: int| i < j < sizes.len() ==> photo_area(sizes[j]) < photo_area(sizes[i])
}

/// Pick the best-quality photo variant: the one with the largest pixel area,
/// the last such variant when several tie. Returns `None` only for an empty
/// list.
pub fn find_best_photo(sizes: &Vec<PhotoSize>) -> (r: Option<usize>)
    ensures
        match r {
            None => sizes@.len() == 0,
            Some(i) => is_best_photo_index(sizes@, i as int),
        },
{
    if sizes.len() == 0 {
        return None;
    }
    let mut best: usize = 0;
    let mut j: usize = 1;
    while j < sizes.len()
        invariant
            best < j <= sizes@.len(),
            forall|k: int| 0 <= k < j ==> photo_area(sizes@[k]) <= photo_area(sizes@[best as int]),
            forall|k: int|
                best < k < j ==> photo_area(sizes@[k]) < photo_area(sizes@[best as int]),
        decreases sizes@.len() - j,
    {
        proof {
            assert(sizes@[j as int].width * sizes@[j as int].height <= 0xffff_ffffu64
                * 0xffff_ffffu64) by (nonlinear_arith)
                requires
                    sizes@[j as int].width <= 0xffff_ffffu64,
                    sizes@[j as int].height <= 0xffff_ffffu64,
            ;
            assert(sizes@[best as int].width * sizes@[best as int].height <= 0xffff_ffffu64
                * 0xffff_ffffu64) by (nonlinear_arith)
                requires
                    sizes@[best as int].width <= 0xffff_ffffu64,
                    sizes@[best as int].height <= 0xffff_ffffu64,
            ;
        }
        let aj = sizes[j].width as u64 * sizes[j].height as u64;
        let ab = sizes[best].width as u64 * sizes[best].height as u64;
        if aj >= ab {
            best = j;
        }
        j = j + 1;
    }
    Some(best)
}

/// Characters that delimit tokens in post text.
pub open spec fn is_space_char(c: char) -> bool {
    c == ' ' || c == '\n' || c == '\t' || c == '\r'
}

/// Index of the first whitespace character at or after `i` (or the text
/// length): the end of the token starting at `i`.
pub open spec fn token_end(s: Seq<char>, i: int) -> int
    decreases s.len() - i when 0 <= i <= s.len()
{
    if i >= s.len() {
        s.len() as int
    } else if is_space_char(s[i]) {
        i
    } else {
        token_end(s, i + 1)
    }
}

pub proof fn lemma_token_end_bounds(s: Seq<char>, i: int)
    requires
        0 <= i <= s.len(),
    ensures
        i <= token_end(s, i) <= s.len(),
    decreases s.len() - i,
{
    if i < s.len() && !is_space_char(s[i]) {
        lemma_token_end_bounds(s, i + 1);
    }
}

/// `t` begins with the prefix `p`.
pub open spec fn starts_with(t: Seq<char>, p: Seq<char>) -> bool {
    t.len() >= p.len() && t.subrange(0, p.len() as int) == p
}

/// A token counts as a literal URL when it begins with an HTTP scheme.
pub open spec fn is_link_token(t: Seq<char>) -> bool {
    starts_with(t, "http://"@) || starts_with(t, "https://"@)
}

/// The literal URLs of the text from position `i` on: whitespace-delimited
/// tokens that begin with an HTTP scheme, in order of appearance.
pub open spec fn links_from(s: Seq<char>, i: int) -> Seq<Seq<char>>
    decreases s.len() - i when 0 <= i <= s.len() via links_from_decreases
{
    if i >= s.len() {
        Seq::empty()
    } else if is_space_char(s[i]) {
        links_from(s, i + 1)
    } else {
        let e = token_end(s, i);
        let t = s.subrange(i, e);
        let rest = links_from(s, e);
        if is_link_token(t) {
            seq![t] + rest
        } else {
            rest
        }
    }
}

#[via_fn]
proof fn links_from_decreases(s: Seq<char>, i: int) {
    if 0 <= i < s.len() && !is_space_char(s[i]) {
        lemma_token_end_bounds(s, i + 1);
    }
}

/// All literal URLs of a post text, in order.
pub open spec fn extracted_links(s: Seq<char>) -> Seq<Seq<char>> {
    links_from(s, 0)
}

/// Pull the literal URLs out of free-form post text: every whitespace-
/// delimited token that begins with `http://` or `https://`, in order.
pub fn extract_links(text: &str) -> (r: Vec<String>)
    ensures
        r.deep_view() == extracted_links(text@),
{
    let n = text.unicode_len();
    let mut r: Vec<String> = Vec::new();
    let mut i: usize = 0;
    while i < n
        invariant
            i <= n,
            n == text@.len(),
            extracted_links(text@) == r.deep_view() + links_from(text@, i as int),
        decreases n - i,
    {
        let c = text.get_char(i);
        if c == ' ' || c == '\n' || c == '\t' || c == '\r' {
            proof {
                assert(links_from(text@, i as int) == links_from(text@, i as int + 1));
            }
            i = i + 1;
        } else {
            // Find the end of the token starting at `i`.
            let mut j: usize = i + 1;
            proof {
                assert(token_end(text@, i as int) == token_end(text@, i as int + 1));
            }
            let mut stopped = false;
            while !stopped && j < n
                invariant
                    i < j <= n,
                    n == text@.len(),
                    token_end(text@, i as int) == token_end(text@, j as int),
                    stopped ==> j < n && is_space_char(text@[j as int]),
                decreases n - j, 1int - if stopped { 1int } else { 0int },
            {
                let cj = text.get_char(j);
                if cj == ' ' || cj == '\n' || cj == '\t' || cj == '\r' {
                    stopped = true;
                } else {
                    proof {
                        assert(token_end(text@, j as int) == token_end(text@, j as int + 1));
                    }
                    j = j + 1;
                }
            }
            proof {
                assert(token_end(text@, j as int) == j as int);
                lemma_token_end_bounds(text@, i as int);
            }
            let ghost t = text@.subrange(i as int, j as int);
            // Does the token begin with an HTTP scheme?
            let len = j - i;
            let http = len >= 7 && text.get_char(i) == 'h' && text.get_char(i + 1) == 't'
                && text.get_char(i + 2) == 't' && text.get_char(i + 3) == 'p' && text.get_char(
                i + 4,
            ) == ':' && text.get_char(i + 5) == '/' && text.get_char(i + 6) == '/';
            let https = len >= 8 && text.get_char(i) == 'h' && text.get_char(i + 1) == 't'
                && text.get_char(i + 2) == 't' && text.get_char(i + 3) == 'p' && text.get_char(
                i + 4,
            ) == 's' && text.get_char(i + 5) == ':' && text.get_char(i + 6) == '/'
                && text.get_char(i + 7) == '/';
            proof {
                reveal_strlit("http://");
                reveal_strlit("https://");
                assert("http://"@ =~= seq!['h', 't', 't', 'p', ':', '/', '/']);
                assert("https://"@ =~= seq!['h', 't', 't', 'p', 's', ':', '/', '/']);
                if http {
                    assert(t.subrange(0, 7) =~= "http://"@);
                }
                if https {
                    assert(t.subrange(0, 8) =~= "https://"@);
                }
                if starts_with(t, "http://"@) {
                    assert forall|k: int| 0 <= k < 7 implies t[k] == "http://"@[k] by {
                        assert(t.subrange(0, 7)[k] == t[k]);
                    }
                }
                if starts_with(t, "https://"@) {
                    assert forall|k: int| 0 <= k < 8 implies t[k] == "https://"@[k] by {
                        assert(t.subrange(0, 8)[k] == t[k]);
                    }
                }
                assert((http || https) == is_link_token(t));
            }
            if http || https {
                let ghost r0 = r.deep_view();
                let token = text.substring_char(i, j);
                let owned = token.to_owned();
                r.push(owned);
                proof {
                    assert(r.deep_view() =~= r0.push(t));
                    assert(links_from(text@, i as int) == seq![t] + links_from(
                        text@,
                        j as int,
                    ));
                    assert(r0 + (seq![t] + links_from(text@, j as int)) =~= r0.push(t)
                        + links_from(text@, j as int));
                }
            } else {
                proof {
                    assert(links_from(text@, i as int) == links_from(text@, j as int));
                }
            }
            i = j;
        }
    }
    proof {
        assert(links_from(text@, n as int) == Seq::<Seq<char>>::empty());
        assert(r.deep_view() + Seq::<Seq<char>>::empty() =~= r.deep_view());
    }
    r
}

} // verus!
