//! TTL dedup store client: models the shared key-value store operations the
//! pipeline relies on — group-source dedup (set-add with a sliding expiry)
//! and the per-chat rate-limit backoff marker.

use vstd::prelude::*;

verus! {

/// Seconds a group's recorded sources stay alive after the last write.
pub const GROUP_SOURCE_TTL: u64 = 300;

/// No two elements of the sequence are equal.
pub open spec fn distinct_seq(s: Seq<Seq<char>>) -> bool {
    forall|i: int, j: int| 0 <= i < j < s.len() ==> s[i] != s[j]
}

/// `s` deduplicated, keeping the first occurrence of each element.
pub open spec fn dedup_seq(s: Seq<Seq<char>>) -> Seq<Seq<char>>
    decreases s.len(),
{
    if s.len() == 0 {
        Seq::empty()
    } else {
        let rest = dedup_seq(s.drop_last());
        if rest.contains(s.last()) {
            rest
        } else {
            rest.push(s.last())
        }
    }
}

pub proof fn lemma_dedup_seq_properties(s: Seq<Seq<char>>)
    ensures
        distinct_seq(dedup_seq(s)),
        forall|x: Seq<char>| #[trigger] dedup_seq(s).contains(x) <==> s.contains(x),
    decreases s.len(),
{
    if s.len() > 0 {
        lemma_dedup_seq_properties(s.drop_last());
        let rest = dedup_seq(s.drop_last());
        assert forall|x: Seq<char>| #[trigger] dedup_seq(s).contains(x) implies s.contains(x) by {
            if rest.contains(x) {
                assert(s.drop_last().contains(x));
                let i = choose|i: int| 0 <= i < s.drop_last().len() && s.drop_last()[i] == x;
                assert(s[i] == x);
            } else {
                assert(x == s.last());
                assert(s[s.len() - 1] == x);
            }
        }
        assert forall|x: Seq<char>| s.contains(x) implies #[trigger] dedup_seq(s).contains(x) by {
            let i = choose|i: int| 0 <= i < s.len() && s[i] == x;
            if i < s.len() - 1 {
                assert(s.drop_last()[i] == x);
                assert(rest.contains(x));
                if !rest.contains(s.last()) {
                    let j = choose|j: int| 0 <= j < rest.len() && rest[j] == x;
                    assert(dedup_seq(s)[j] == x);
                }
            } else {
                assert(x == s.last());
                if rest.contains(s.last()) {
                } else {
                    assert(dedup_seq(s)[dedup_seq(s).len() - 1] == x);
                }
            }
        }
    }
}

/// Whether `v`'s character sequences contain `x`.
pub fn contains_string(v: &Vec<String>, x: &String) -> (r: bool)
    ensures
        r == v.deep_view().contains(x@),
{
    let mut k: usize = 0;
    while k < v.len()
        invariant
            k <= v.len(),
            forall|j: int| 0 <= j < k ==> v.deep_view()[j] != x@,
        decreases v.len() - k,
    {
        if v[k] == *x {
            assert(v.deep_view()[k as int] == x@);
            return true;
        }
        k = k + 1;
    }
    false
}

/// Deduplicate a URL list, keeping first occurrences in order.
pub fn dedup_urls(urls: &Vec<String>) -> (r: Vec<String>)
    ensures
        r.deep_view() == dedup_seq(urls.deep_view()),
{
    let mut r: Vec<String> = Vec::new();
    let mut i: usize = 0;
    proof {
        assert(urls.deep_view().subrange(0, 0) =~= Seq::<Seq<char>>::empty());
    }
    while i < urls.len()
        invariant
            i <= urls.len(),
            r.deep_view() == dedup_seq(urls.deep_view().subrange(0, i as int)),
        decreases urls.len() - i,
    {
        proof {
            let prefix = urls.deep_view().subrange(0, i as int + 1);
            assert(prefix.drop_last() =~= urls.deep_view().subrange(0, i as int));
            assert(prefix.last() == urls.deep_view()[i as int]);
        }
        let u = &urls[i];
        assert(u@ == urls.deep_view()[i as int]);
        if !contains_string(&r, u) {
            r.push(u.clone());
            proof {
                assert(r.deep_view() =~= dedup_seq(
                    urls.deep_view().subrange(0, i as int + 1),
                ));
            }
        } else {
            proof {
                assert(r.deep_view() =~= dedup_seq(
                    urls.deep_view().subrange(0, i as int + 1),
                ));
            }
        }
        i = i + 1;
    }
    proof {
        assert(urls.deep_view().subrange(0, urls.deep_view().len() as int) =~= urls.deep_view());
    }
    r
}

/// One group's recorded sources, with the instant they expire.
pub struct GroupEntry {
    pub group_id: String,
    pub sources: Vec<String>,
    pub expires_at: u64,
}

/// In-memory model of the store's group-source sets: one entry per media
/// group, each with a TTL refreshed on every write.
pub struct GroupSourceStore {
    pub entries: Vec<GroupEntry>,
}

/// At least one URL of `urls` is already among `prior`: the signal that an
/// earlier message of the same group recorded a shared source.
pub open spec fn dup_detected(prior: Set<Seq<char>>, urls: Seq<Seq<char>>) -> bool {
    exists|i: int| 0 <= i < urls.len() && prior.contains(urls[i])
}

/// The group's recorded set grown by the submitted URLs.
pub open spec fn updated_sources(prior: Set<Seq<char>>, urls: Seq<Seq<char>>) -> Set<Seq<char>> {
    prior.union(urls.to_set())
}

/// Full effect of one `record_group_sources` call for media group `g`: the
/// duplicate flag reflects exactly whether a submitted URL was already alive
/// in the group's set, the set grows by the submitted URLs, the TTL restarts
/// at `now`, and every other group is untouched at every instant.
pub open spec fn group_record_transition(
    pre: GroupSourceStore,
    post: GroupSourceStore,
    g: Seq<char>,
    urls: Seq<Seq<char>>,
    now: u64,
    dup: bool,
) -> bool {
    &&& dup == dup_detected(pre.group_sources(g, now), urls)
    &&& post.has_group(g)
    &&& post.stored_sources(g) == updated_sources(pre.group_sources(g, now), urls)
    &&& post.stored_expiry(g) == now + GROUP_SOURCE_TTL
    &&& forall|h: Seq<char>, t: u64|
        h != g ==> post.group_sources(h, t) == pre.group_sources(h, t)
}

impl GroupSourceStore {
    /// Keys are unique and each entry's source list is duplicate-free.
    pub open spec fn wf(self) -> bool {
        &&& forall|i: int, j: int|
            0 <= i < j < self.entries@.len() ==> self.entries@[i].group_id@
                != self.entries@[j].group_id@
        &&& forall|i: int|
            0 <= i < self.entries@.len() ==> distinct_seq(
                #[trigger] self.entries@[i].sources.deep_view(),
            )
    }

    pub open spec fn has_group(self, g: Seq<char>) -> bool {
        exists|i: int| 0 <= i < self.entries@.len() && self.entries@[i].group_id@ == g
    }

    pub open spec fn group_index(self, g: Seq<char>) -> int {
        choose|i: int| 0 <= i < self.entries@.len() && self.entries@[i].group_id@ == g
    }

    /// The stored source set of group `g`, ignoring expiry.
    pub open spec fn stored_sources(self, g: Seq<char>) -> Set<Seq<char>> {
        self.entries@[self.group_index(g)].sources.deep_view().to_set()
    }

    /// The instant group `g`'s entry expires.
    pub open spec fn stored_expiry(self, g: Seq<char>) -> u64 {
        self.entries@[self.group_index(g)].expires_at
    }

    /// The sources visible for group `g` at instant `t`: the stored set while
    /// the entry is alive, and nothing once the TTL has passed (or the group
    /// was never written).
    pub open spec fn group_sources(self, g: Seq<char>, t: u64) -> Set<Seq<char>> {
        if self.has_group(g) && t < self.stored_expiry(g) {
            self.stored_sources(g)
        } else {
            Set::empty()
        }
    }

    pub fn new() -> (r: GroupSourceStore)
        ensures
            r.wf(),
            forall|g: Seq<char>| !r.has_group(g),
    {
        GroupSourceStore { entries: Vec::new() }
    }

    fn find_group(&self, g: &String) -> (r: Option<usize>)
        ensures
            match r {
                Some(i) => i < self.entries@.len() && self.entries@[i as int].group_id@ == g@,
                None => !self.has_group(g@),
            },
    {
        let mut k: usize = 0;
        while k < self.entries.len()
            invariant
                k <= self.entries@.len(),
                forall|j: int| 0 <= j < k ==> self.entries@[j].group_id@ != g@,
            decreases self.entries@.len() - k,
        {
            if self.entries[k].group_id == *g {
                return Some(k);
            }
            k = k + 1;
        }
        None
    }

    proof fn lemma_group_index_is(self, g: Seq<char>, i: int)
        requires
            self.wf(),
            0 <= i < self.entries@.len(),
            self.entries@[i].group_id@ == g,
        ensures
            self.group_index(g) == i,
            self.has_group(g),
    {
        assert(self.has_group(g));
        let j = self.group_index(g);
        if j != i {
            assert(self.entries@[j].group_id@ == self.entries@[i].group_id@);
        }
    }

    /// Record the candidate source URLs for a media-group message and report
    /// whether any of them had already been recorded for the group while its
    /// entry was alive. A message outside any media group (`group_id` is
    /// `None`) records nothing and reports no duplicate. Every write
    /// refreshes the group's TTL to `GROUP_SOURCE_TTL` seconds from `now`.
    pub fn record_group_sources(
        &mut self,
        group_id: Option<&String>,
        urls: &Vec<String>,
        now: u64,
    ) -> (dup: bool)
        requires
            old(self).wf(),
            now + GROUP_SOURCE_TTL <= u64::MAX,
        ensures
            final(self).wf(),
            match group_id {
                None => *final(self) == *old(self) && !dup,
                Some(g) => group_record_transition(
                    *old(self),
                    *final(self),
                    g@,
                    urls.deep_view(),
                    now,
                    dup,
                ),
            },
    {
        let g = match group_id {
            None => {
                assert(*self == *old(self));
                return false;
            },
            Some(g) => g,
        };
        let distinct = dedup_urls(urls);
        proof {
            lemma_dedup_seq_properties(urls.deep_view());
        }
        let found = self.find_group(g);
        match found {
            Some(i) if now < self.entries[i].expires_at => {
                proof {
                    old(self).lemma_group_index_is(g@, i as int);
                }
                let ghost prior = old(self).group_sources(g@, now);
                // Did any submitted URL already appear in the live set?
                let mut dup = false;
                let mut k: usize = 0;
                while k < distinct.len()
                    invariant
                        k <= distinct.deep_view().len(),
                        *self == *old(self),
                        self.wf(),
                        i < self.entries@.len(),
                        self.entries@[i as int].group_id@ == g@,
                        prior == self.entries@[i as int].sources.deep_view().to_set(),
                        dup == exists|j: int|
                            0 <= j < k && prior.contains(distinct.deep_view()[j]),
                    decreases distinct.deep_view().len() - k,
                {
                    if contains_string(&self.entries[i].sources, &distinct[k]) {
                        proof {
                            assert(self.entries@[i as int].sources.deep_view().contains(
                                distinct.deep_view()[k as int],
                            ));
                        }
                        dup = true;
                    }
                    k = k + 1;
                }
                // Merge the new URLs into the group's set.
                let mut merged = clone_string_vec(&self.entries[i].sources);
                proof {
                    assert(distinct.deep_view().subrange(0, 0) =~= Seq::<Seq<char>>::empty());
                    assert(merged.deep_view() =~= self.entries@[i as int].sources.deep_view());
                    assert(merged.deep_view().to_set() =~= prior.union(
                        distinct.deep_view().subrange(0, 0).to_set(),
                    ));
                }
                let mut m: usize = 0;
                while m < distinct.len()
                    invariant
                        m <= distinct.deep_view().len(),
                        distinct_seq(merged.deep_view()),
                        merged.deep_view().to_set() =~= prior.union(
                            distinct.deep_view().subrange(0, m as int).to_set(),
                        ),
                    decreases distinct.deep_view().len() - m,
                {
                    let ghost before = merged.deep_view();
                    let ghost x = distinct.deep_view()[m as int];
                    proof {
                        let sub = distinct.deep_view().subrange(0, m as int + 1);
                        assert(sub =~= distinct.deep_view().subrange(0, m as int).push(x));
                        lemma_to_set_push(distinct.deep_view().subrange(0, m as int), x);
                        assert(sub.to_set() == distinct.deep_view().subrange(
                            0,
                            m as int,
                        ).to_set().insert(x));
                    }
                    if !contains_string(&merged, &distinct[m]) {
                        merged.push(distinct[m].clone());
                        proof {
                            lemma_push_distinct_keeps(before, x);
                            assert(merged.deep_view() =~= before.push(x));
                            assert(distinct_seq(merged.deep_view()));
                            lemma_to_set_push(before, x);
                            assert(merged.deep_view().to_set() =~= prior.union(
                                distinct.deep_view().subrange(0, m as int + 1).to_set(),
                            ));
                        }
                    } else {
                        proof {
                            assert(before.to_set().contains(x));
                            assert(merged.deep_view().to_set() =~= prior.union(
                                distinct.deep_view().subrange(0, m as int + 1).to_set(),
                            ));
                        }
                    }
                    m = m + 1;
                }
                self.entries[i].sources = merged;
                self.entries[i].expires_at = now + GROUP_SOURCE_TTL;
                proof {
                    assert(self.wf());
                    self.lemma_group_index_is(g@, i as int);
                    assert(distinct.deep_view().subrange(0, distinct.deep_view().len() as int)
                        =~= distinct.deep_view());
                    lemma_to_set_same_elements(distinct.deep_view(), urls.deep_view());
                    assert(self.stored_sources(g@) =~= updated_sources(prior, urls.deep_view()));
                    lemma_dup_detected_same(prior, distinct.deep_view(), urls.deep_view());
                    assert(dup == dup_detected(prior, urls.deep_view()));
                    lemma_other_groups_unchanged(*old(self), *self, g@, i as int);
                }
                dup
            },
            _ => {
                // No live entry for the group: what was stored, if anything,
                // has expired, so nothing can be a duplicate.
                let ghost pre = *self;
                match found {
                    Some(i) => {
                        proof {
                            old(self).lemma_group_index_is(g@, i as int);
                        }
                        self.entries[i].sources = distinct;
                        self.entries[i].expires_at = now + GROUP_SOURCE_TTL;
                        proof {
                            assert(self.wf());
                            self.lemma_group_index_is(g@, i as int);
                            lemma_other_groups_unchanged(pre, *self, g@, i as int);
                        }
                    },
                    None => {
                        let entry = GroupEntry {
                            group_id: g.clone(),
                            sources: distinct,
                            expires_at: now + GROUP_SOURCE_TTL,
                        };
                        self.entries.push(entry);
                        proof {
                            assert(self.wf());
                            self.lemma_group_index_is(g@, self.entries@.len() - 1);
                            lemma_pushed_group_unchanged(pre, *self, g@);
                        }
                    },
                }
                proof {
                    assert(pre.group_sources(g@, now) =~= Set::<Seq<char>>::empty());
                    lemma_to_set_same_elements(dedup_seq(urls.deep_view()), urls.deep_view());
                    assert(self.stored_sources(g@) =~= updated_sources(
                        Set::empty(),
                        urls.deep_view(),
                    ));
                }
                false
            },
        }
    }
}

/// One chat's rate-limit marker: the earliest instant another platform edit
/// should be attempted for that chat.
pub struct BackoffEntry {
    pub chat_id: i64,
    pub not_before: u64,
}

/// In-memory model of the store's per-chat backoff markers. At most one
/// authoritative marker exists per chat; a new write supersedes the old one.
pub struct BackoffStore {
    pub entries: Vec<BackoffEntry>,
}

impl BackoffStore {
    /// At most one marker per chat.
    pub open spec fn wf(self) -> bool {
        forall|i: int, j: int|
            0 <= i < j < self.entries@.len() ==> self.entries@[i].chat_id
                != self.entries@[j].chat_id
    }

    pub open spec fn has_chat(self, chat: i64) -> bool {
        exists|i: int| 0 <= i < self.entries@.len() && self.entries@[i].chat_id == chat
    }

    pub open spec fn chat_index(self, chat: i64) -> int {
        choose|i: int| 0 <= i < self.entries@.len() && self.entries@[i].chat_id == chat
    }

    /// The marker stored for `chat`, if any.
    pub open spec fn backoff_of(self, chat: i64) -> Option<u64> {
        if self.has_chat(chat) {
            Some(self.entries@[self.chat_index(chat)].not_before)
        } else {
            None
        }
    }

    /// The restriction visible at instant `now`: a marker restricts only
    /// while its instant still lies in the future.
    pub open spec fn active_backoff(self, chat: i64, now: u64) -> Option<u64> {
        match self.backoff_of(chat) {
            Some(t) => if t > now {
                Some(t)
            } else {
                None
            },
            None => None,
        }
    }

    pub fn new() -> (r: BackoffStore)
        ensures
            r.wf(),
            forall|c: i64| r.backoff_of(c) == None::<u64>,
    {
        BackoffStore { entries: Vec::new() }
    }

    proof fn lemma_chat_index_is(self, chat: i64, i: int)
        requires
            self.wf(),
            0 <= i < self.entries@.len(),
            self.entries@[i].chat_id == chat,
        ensures
            self.chat_index(chat) == i,
            self.has_chat(chat),
    {
        assert(self.has_chat(chat));
        let j = self.chat_index(chat);
        if j != i {
            assert(self.entries@[j].chat_id == self.entries@[i].chat_id);
        }
    }

    fn find_chat(&self, chat: i64) -> (r: Option<usize>)
        ensures
            match r {
                Some(i) => i < self.entries@.len() && self.entries@[i as int].chat_id == chat,
                None => !self.has_chat(chat),
            },
    {
        let mut k: usize = 0;
        while k < self.entries.len()
            invariant
                k <= self.entries@.len(),
                forall|j: int| 0 <= j < k ==> self.entries@[j].chat_id != chat,
            decreases self.entries@.len() - k,
        {
            if self.entries[k].chat_id == chat {
                return Some(k);
            }
            k = k + 1;
        }
        None
    }

    /// Write the backoff marker for a chat, superseding any earlier one.
    pub fn mark_backoff(&mut self, chat: i64, not_before: u64)
        requires
            old(self).wf(),
        ensures
            final(self).wf(),
            final(self).backoff_of(chat) == Some(not_before),
            forall|c: i64|
                c != chat ==> final(self).backoff_of(c) == old(self).backoff_of(c),
    {
        let found = self.find_chat(chat);
        match found {
            Some(i) => {
                proof {
                    old(self).lemma_chat_index_is(chat, i as int);
                }
                self.entries[i].not_before = not_before;
                proof {
                    assert(self.wf());
                    self.lemma_chat_index_is(chat, i as int);
                    assert forall|c: i64| c != chat implies self.backoff_of(c) == old(
                        self,
                    ).backoff_of(c) by {
                        if old(self).has_chat(c) {
                            let j = old(self).chat_index(c);
                            old(self).lemma_chat_index_is(c, j);
                            self.lemma_chat_index_is(c, j);
                        } else {
                            if self.has_chat(c) {
                                let j = self.chat_index(c);
                                assert(old(self).entries@[j].chat_id == c);
                            }
                        }
                    }
                }
            },
            None => {
                self.entries.push(BackoffEntry { chat_id: chat, not_before });
                proof {
                    assert(self.wf());
                    self.lemma_chat_index_is(chat, self.entries@.len() - 1);
                    assert forall|c: i64| c != chat implies self.backoff_of(c) == old(
                        self,
                    ).backoff_of(c) by {
                        let n = old(self).entries@.len() as int;
                        if old(self).has_chat(c) {
                            let j = old(self).chat_index(c);
                            old(self).lemma_chat_index_is(c, j);
                            self.lemma_chat_index_is(c, j);
                        } else {
                            if self.has_chat(c) {
                                let j = self.chat_index(c);
                                assert(j != n);
                                assert(old(self).entries@[j].chat_id == c);
                            }
                        }
                    }
                }
            },
        }
    }

    /// Read the restriction for a chat at instant `now`: `Some(t)` exactly
    /// when a marker exists whose instant `t` still lies in the future.
    pub fn get_backoff(&self, chat: i64, now: u64) -> (r: Option<u64>)
        requires
            self.wf(),
        ensures
            r == self.active_backoff(chat, now),
    {
        let found = self.find_chat(chat);
        match found {
            Some(i) => {
                proof {
                    self.lemma_chat_index_is(chat, i as int);
                }
                let t = self.entries[i].not_before;
                if t > now {
                    Some(t)
                } else {
                    None
                }
            },
            None => None,
        }
    }
}

/// Clone a vector of strings, preserving the exact character sequences.
pub fn clone_string_vec(v: &Vec<String>) -> (r: Vec<String>)
    ensures
        r@ == v@,
{
    let mut r: Vec<String> = Vec::new();
    let mut i: usize = 0;
    while i < v.len()
        invariant
            i <= v@.len(),
            r@ == v@.subrange(0, i as int),
        decreases v@.len() - i,
    {
        r.push(v[i].clone());
        proof {
            assert(r@ =~= v@.subrange(0, i as int + 1));
        }
        i = i + 1;
    }
    proof {
        assert(v@.subrange(0, v@.len() as int) =~= v@);
    }
    r
}

proof fn lemma_to_set_push(s: Seq<Seq<char>>, x: Seq<char>)
    ensures
        s.push(x).to_set() =~= s.to_set().insert(x),
{
    assert forall|y: Seq<char>| s.push(x).to_set().contains(y) implies s.to_set().insert(
        x,
    ).contains(y) by {
        let i = choose|i: int| 0 <= i < s.push(x).len() && s.push(x)[i] == y;
        if i < s.len() {
            assert(s[i] == y);
        }
    }
    assert forall|y: Seq<char>| s.to_set().insert(x).contains(y) implies s.push(
        x,
    ).to_set().contains(y) by {
        if y == x {
            assert(s.push(x)[s.len() as int] == y);
        } else {
            let i = choose|i: int| 0 <= i < s.len() && s[i] == y;
            assert(s.push(x)[i] == y);
        }
    }
}

proof fn lemma_push_distinct_keeps(s: Seq<Seq<char>>, x: Seq<char>)
    requires
        distinct_seq(s),
        !s.contains(x),
    ensures
        distinct_seq(s.push(x)),
{
    let t = s.push(x);
    assert forall|i: int, j: int| 0 <= i < j < t.len() implies t[i] != t[j] by {
        if j == t.len() - 1 {
            assert(t[i] == s[i]);
            if s[i] == x {
                assert(s.contains(x));
            }
        } else {
            assert(t[i] == s[i]);
            assert(t[j] == s[j]);
        }
    }
}

proof fn lemma_dup_detected_same(prior: Set<Seq<char>>, a: Seq<Seq<char>>, b: Seq<Seq<char>>)
    requires
        forall|x: Seq<char>| #[trigger] a.contains(x) <==> b.contains(x),
    ensures
        dup_detected(prior, a) == dup_detected(prior, b),
{
    if dup_detected(prior, a) {
        let i = choose|i: int| 0 <= i < a.len() && prior.contains(a[i]);
        assert(a.contains(a[i]));
        assert(b.contains(a[i]));
        let j = choose|j: int| 0 <= j < b.len() && b[j] == a[i];
        assert(prior.contains(b[j]));
    }
    if dup_detected(prior, b) {
        let i = choose|i: int| 0 <= i < b.len() && prior.contains(b[i]);
        assert(b.contains(b[i]));
        assert(a.contains(b[i]));
        let j = choose|j: int| 0 <= j < a.len() && a[j] == b[i];
        assert(prior.contains(a[j]));
    }
}

proof fn lemma_other_groups_unchanged(
    pre: GroupSourceStore,
    post: GroupSourceStore,
    g: Seq<char>,
    i: int,
)
    requires
        pre.wf(),
        0 <= i < pre.entries@.len(),
        post.entries@.len() == pre.entries@.len(),
        pre.entries@[i].group_id@ == g,
        post.entries@[i].group_id@ == g,
        forall|j: int| 0 <= j < pre.entries@.len() && j != i ==> post.entries@[j] == pre.entries@[j],
    ensures
        forall|h: Seq<char>, t: u64|
            h != g ==> post.group_sources(h, t) == pre.group_sources(h, t),
{
    assert forall|h: Seq<char>, t: u64| h != g implies post.group_sources(h, t)
        == pre.group_sources(h, t) by {
        if pre.has_group(h) {
            let j = pre.group_index(h);
            assert(pre.entries@[j].group_id@ == h);
            assert(j != i);
            assert(post.entries@[j].group_id@ == h);
            assert(post.has_group(h));
            let j2 = post.group_index(h);
            assert(post.entries@[j2].group_id@ == h);
            if j2 != j {
                assert(pre.entries@[j2].group_id@ == h || j2 == i);
            }
            assert(j2 == j);
            assert(post.entries@[j] == pre.entries@[j]);
        } else {
            if post.has_group(h) {
                let j2 = post.group_index(h);
                assert(post.entries@[j2].group_id@ == h);
                assert(j2 != i);
                assert(pre.entries@[j2].group_id@ == h);
            }
        }
    }
}

proof fn lemma_pushed_group_unchanged(
    pre: GroupSourceStore,
    post: GroupSourceStore,
    g: Seq<char>,
)
    requires
        pre.wf(),
        !pre.has_group(g),
        post.entries@.len() == pre.entries@.len() + 1,
        forall|j: int| 0 <= j < pre.entries@.len() ==> post.entries@[j] == pre.entries@[j],
        post.entries@[pre.entries@.len() as int].group_id@ == g,
    ensures
        forall|h: Seq<char>, t: u64|
            h != g ==> post.group_sources(h, t) == pre.group_sources(h, t),
{
    assert forall|h: Seq<char>, t: u64| h != g implies post.group_sources(h, t)
        == pre.group_sources(h, t) by {
        let n = pre.entries@.len() as int;
        if pre.has_group(h) {
            let j = pre.group_index(h);
            assert(pre.entries@[j].group_id@ == h);
            assert(post.entries@[j].group_id@ == h);
            assert(post.has_group(h));
            let j2 = post.group_index(h);
            assert(post.entries@[j2].group_id@ == h);
            assert(j2 != n);
            assert(pre.entries@[j2].group_id@ == h);
            if j2 != j {
                assert(pre.entries@[j2].group_id@ == pre.entries@[j].group_id@);
            }
            assert(j2 == j);
        } else {
            if post.has_group(h) {
                let j2 = post.group_index(h);
                assert(post.entries@[j2].group_id@ == h);
                assert(j2 != n);
                assert(pre.entries@[j2].group_id@ == h);
            }
        }
    }
}

proof fn lemma_to_set_same_elements(a: Seq<Seq<char>>, b: Seq<Seq<char>>)
    requires
        forall|x: Seq<char>| #[trigger] a.contains(x) <==> b.contains(x),
    ensures
        a.to_set() =~= b.to_set(),
{
}

/// Law: recording the same non-empty URL set twice for one media group,
/// starting from a group with no live sources and staying within the TTL
/// window, reports no duplicate the first time and a duplicate the second.
pub proof fn lemma_record_twice_reports_duplicate(
    s0: GroupSourceStore,
    s1: GroupSourceStore,
    s2: GroupSourceStore,
    g: Seq<char>,
    urls: Seq<Seq<char>>,
    now1: u64,
    now2: u64,
    d1: bool,
    d2: bool,
)
    requires
        urls.len() > 0,
        s0.group_sources(g, now1) == Set::<Seq<char>>::empty(),
        group_record_transition(s0, s1, g, urls, now1, d1),
        now1 <= now2 < now1 + GROUP_SOURCE_TTL,
        group_record_transition(s1, s2, g, urls, now2, d2),
    ensures
        !d1,
        d2,
{
    assert(!d1) by {
        if dup_detected(s0.group_sources(g, now1), urls) {
            let i = choose|i: int|
                0 <= i < urls.len() && s0.group_sources(g, now1).contains(urls[i]);
        }
    }
    assert(s1.group_sources(g, now2) == updated_sources(Set::empty(), urls));
    assert(s1.group_sources(g, now2).contains(urls[0])) by {
        assert(urls.contains(urls[0]));
    }
    assert(dup_detected(s1.group_sources(g, now2), urls));
}

/// Law: a write for one media group never makes a different group report a
/// duplicate — groups' source sets are independent of each other.
pub proof fn lemma_groups_do_not_interfere(
    s0: GroupSourceStore,
    s1: GroupSourceStore,
    s2: GroupSourceStore,
    g1: Seq<char>,
    g2: Seq<char>,
    urls1: Seq<Seq<char>>,
    urls2: Seq<Seq<char>>,
    now1: u64,
    now2: u64,
    d1: bool,
    d2: bool,
)
    requires
        g1 != g2,
        group_record_transition(s0, s1, g1, urls1, now1, d1),
        group_record_transition(s1, s2, g2, urls2, now2, d2),
        !dup_detected(s0.group_sources(g2, now2), urls2),
    ensures
        !d2,
{
    assert(s1.group_sources(g2, now2) == s0.group_sources(g2, now2));
}

} // verus!
