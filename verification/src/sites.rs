//! Data shared with the site loaders: post information, URL file-extension
//! handling, the e621 host pair, and the Inkbunny API payloads with the
//! decisions their responses drive.

use vstd::prelude::*;

verus! {

/// A collection of information about a post obtained from a given URL.
#[derive(Debug)]
pub struct PostInfo {
    /// File type, as a standard file extension (png, jpg, etc.)
    pub file_type: String,
    /// URL to full image
    pub url: String,
    /// If this result is personal
    pub personal: bool,
    /// URL to thumbnail, if available
    pub thumb: Option<String>,
    /// URL to original source of this image, if available
    pub source_link: Option<String>,
    /// Additional caption to add as a second result for the provided query
    pub extra_caption: Option<String>,
    /// Title for video results
    pub title: Option<String>,
    /// Human readable name of the site
    pub site_name: &'static str,
    /// Width and height of image, if available
    pub image_dimensions: Option<(u32, u32)>,
    /// Size of image in bytes, if available
    pub image_size: Option<usize>,
}

impl Default for PostInfo {
    fn default() -> (r: Self)
        ensures
            r.file_type@ == Seq::<char>::empty(),
            r.url@ == Seq::<char>::empty(),
            !r.personal,
            r.thumb is None,
            r.source_link is None,
            r.extra_caption is None,
            r.title is None,
            r.site_name@ == Seq::<char>::empty(),
            r.image_dimensions is None,
            r.image_size is None,
    {
        proof {
            reveal_strlit("");
        }
        PostInfo {
            file_type: String::new(),
            url: String::new(),
            personal: false,
            thumb: None,
            source_link: None,
            extra_caption: None,
            title: None,
            site_name: "",
            image_dimensions: None,
            image_size: None,
        }
    }
}

/// Index of the last `.` in `s`, or -1 when there is none.
pub open spec fn last_dot(s: Seq<char>) -> int
    decreases s.len(),
{
    if s.len() == 0 {
        -1
    } else if s.last() == '.' {
        s.len() - 1
    } else {
        last_dot(s.drop_last())
    }
}

/// Index of the first `?` at or after `i`, or the length of `s`.
pub open spec fn first_question(s: Seq<char>, i: int) -> int
    decreases s.len() - i when 0 <= i <= s.len()
{
    if i >= s.len() {
        s.len() as int
    } else if s[i] == '?' {
        i
    } else {
        first_question(s, i + 1)
    }
}

/// The extension a URL carries: what follows the last `.`, cut before any
/// query string. With no `.` the whole name (cut the same way) is taken.
pub open spec fn file_ext_of(s: Seq<char>) -> Seq<char> {
    let start = last_dot(s) + 1;
    s.subrange(start, first_question(s, start))
}

proof fn lemma_last_dot_at(s: Seq<char>, d: int)
    requires
        0 <= d < s.len(),
        s[d] == '.',
        forall|m: int| d < m < s.len() ==> s[m] != '.',
    ensures
        last_dot(s) == d,
    decreases s.len(),
{
    if d == s.len() - 1 {
    } else {
        assert(s.last() != '.');
        assert(s.drop_last()[d] == '.');
        lemma_last_dot_at(s.drop_last(), d);
    }
}

proof fn lemma_no_dot(s: Seq<char>)
    requires
        forall|m: int| 0 <= m < s.len() ==> s[m] != '.',
    ensures
        last_dot(s) == -1,
    decreases s.len(),
{
    if s.len() > 0 {
        lemma_no_dot(s.drop_last());
    }
}

proof fn lemma_first_question_bounds(s: Seq<char>, i: int)
    requires
        0 <= i <= s.len(),
    ensures
        i <= first_question(s, i) <= s.len(),
    decreases s.len() - i,
{
    if i < s.len() && s[i] != '?' {
        lemma_first_question_bounds(s, i + 1);
    }
}

/// A basic attempt to get the extension from a given URL. It assumes the
/// URL ends in a filename with an extension.
pub fn get_file_ext(name: &str) -> (r: Option<&str>)
    ensures
        match r {
            Some(ext) => ext@ == file_ext_of(name@),
            None => false,
        },
{
    let n = name.unicode_len();
    // Scan backwards for the last dot.
    let mut idx: usize = n;
    let mut found_dot = false;
    while idx > 0 && !found_dot
        invariant
            idx <= n,
            n == name@.len(),
            !found_dot ==> forall|m: int| idx <= m < n ==> name@[m] != '.',
            found_dot ==> 0 < idx <= n && name@[idx - 1] == '.' && forall|m: int|
                idx <= m < n ==> name@[m] != '.',
        decreases idx + if found_dot { 0int } else { 1int },
    {
        let c = name.get_char(idx - 1);
        if c == '.' {
            found_dot = true;
        } else {
            idx = idx - 1;
        }
    }
    let start = if found_dot {
        proof {
            lemma_last_dot_at(name@, idx - 1);
        }
        idx
    } else {
        proof {
            lemma_no_dot(name@);
        }
        0
    };
    // Scan forwards from the segment start for a query string.
    let mut end: usize = start;
    let mut found_q = false;
    while !found_q && end < n
        invariant
            start <= end <= n,
            n == name@.len(),
            first_question(name@, start as int) == first_question(name@, end as int),
            found_q ==> end < n && name@[end as int] == '?',
        decreases n - end, 1int - if found_q { 1int } else { 0int },
    {
        let c = name.get_char(end);
        if c == '?' {
            found_q = true;
        } else {
            proof {
                assert(first_question(name@, end as int) == first_question(
                    name@,
                    end as int + 1,
                ));
            }
            end = end + 1;
        }
    }
    proof {
        assert(first_question(name@, end as int) == end as int);
        lemma_first_question_bounds(name@, start as int);
    }
    Some(name.substring_char(start, end))
}

/// The two hosts the e621 loader can serve.
pub enum E621Host {
    E621,
    E926,
}

impl E621Host {
    /// The site's short name.
    pub fn name(&self) -> (r: &'static str)
        ensures
            match self {
                E621Host::E621 => r@ == "e621"@,
                E621Host::E926 => r@ == "e926"@,
            },
    {
        match self {
            E621Host::E621 => "e621",
            E621Host::E926 => "e926",
        }
    }

    /// The host name requests go to.
    pub fn host(&self) -> (r: &'static str)
        ensures
            match self {
                E621Host::E621 => r@ == "e621.net"@,
                E621Host::E926 => r@ == "e926.net"@,
            },
    {
        match self {
            E621Host::E621 => "e621.net",
            E621Host::E926 => "e926.net",
        }
    }
}

/// A successful Inkbunny login: the session id and the account's rating
/// permissions mask.
#[derive(Debug)]
pub struct InkbunnyLogin {
    pub sid: String,
    pub user_id: i32,
    pub ratingsmask: String,
}

/// One file of an Inkbunny submission.
#[derive(Debug)]
pub struct InkbunnyFile {
    pub file_id: String,
    pub file_name: String,
    pub thumbnail_url_medium_noncustom: String,
    pub file_url_screen: String,
}

/// One Inkbunny submission with its files.
#[derive(Debug)]
pub struct InkbunnySubmission {
    pub submission_id: String,
    pub files: Vec<InkbunnyFile>,
}

/// A page of Inkbunny submissions.
#[derive(Debug)]
pub struct InkbunnySubmissions {
    pub results_count: i32,
    pub submissions: Vec<InkbunnySubmission>,
}

/// An Inkbunny API response: either an error code or the payload.
#[derive(Debug)]
pub enum InkbunnyResponse<T> {
    Error { error_code: i32 },
    Success(T),
}

/// What a login response means for the session.
#[derive(Debug)]
pub enum LoginOutcome {
    /// Logged in; keep this session id for future requests.
    LoggedIn { sid: String },
    /// The username or password is wrong; retrying cannot help.
    InvalidCredentials,
    /// The account lacks full viewing permissions, so results would be
    /// silently incomplete.
    MissingPermissions,
    /// An error code this client does not know.
    UnknownError,
}

/// The permissions mask a usable account must carry.
pub open spec fn full_ratings_mask() -> Seq<char> {
    "11111"@
}

/// Decide what an Inkbunny login response means: error code 0 is bad
/// credentials, any other code is unknown, and a successful login is only
/// usable when the account may view every rating.
pub fn classify_login(resp: InkbunnyResponse<InkbunnyLogin>) -> (r: LoginOutcome)
    ensures
        match resp {
            InkbunnyResponse::Success(login) => if login.ratingsmask@ == full_ratings_mask() {
                match r {
                    LoginOutcome::LoggedIn { sid } => sid@ == login.sid@,
                    _ => false,
                }
            } else {
                r == LoginOutcome::MissingPermissions
            },
            InkbunnyResponse::Error { error_code } => if error_code == 0 {
                r == LoginOutcome::InvalidCredentials
            } else {
                r == LoginOutcome::UnknownError
            },
        },
{
    match resp {
        InkbunnyResponse::Success(login) => {
            if login.ratingsmask == String::from_str("11111") {
                LoginOutcome::LoggedIn { sid: login.sid }
            } else {
                LoginOutcome::MissingPermissions
            }
        },
        InkbunnyResponse::Error { error_code } => {
            if error_code == 0 {
                LoginOutcome::InvalidCredentials
            } else {
                LoginOutcome::UnknownError
            }
        },
    }
}

/// The next step of the submissions poll loop.
#[derive(Debug)]
pub enum SubmissionsStep {
    /// The page arrived.
    Done(InkbunnySubmissions),
    /// Error code 2: the session id expired — log in again and retry.
    SessionExpired,
    /// An error code this client does not know.
    UnhandledError,
}

/// Decide what a submissions response means: success carries the page
/// through unchanged, error code 2 asks for a fresh login, anything else
/// is unhandled.
pub fn submissions_step(resp: InkbunnyResponse<InkbunnySubmissions>) -> (r: SubmissionsStep)
    ensures
        match resp {
            InkbunnyResponse::Success(subs) => match r {
                SubmissionsStep::Done(out) => out == subs,
                _ => false,
            },
            InkbunnyResponse::Error { error_code } => if error_code == 2 {
                r == SubmissionsStep::SessionExpired
            } else {
                r == SubmissionsStep::UnhandledError
            },
        },
{
    match resp {
        InkbunnyResponse::Success(subs) => SubmissionsStep::Done(subs),
        InkbunnyResponse::Error { error_code } => {
            if error_code == 2 {
                SubmissionsStep::SessionExpired
            } else {
                SubmissionsStep::UnhandledError
            }
        },
    }
}

} // verus!
