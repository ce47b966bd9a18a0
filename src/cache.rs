//! The conditional-fetch cache: per-URL validators (`Last-Modified`,
//! `ETag`) and the local path of the stored copy, used to ask the server
//! whether a resource changed.
use crate::text::{chars_eq, chars_of, string_of};
use vstd::prelude::*;

verus! {

/// What the cache keeps for one URL.
#[derive(Clone, Debug)]
pub struct CacheEntry {
    pub url: String,
    pub last_modified: Option<String>,
    pub etag: Option<String>,
    pub path: String,
}

/// A cache entry as values: URL, last-modified, entity tag, local path.
pub type EntryView = (Seq<char>, Option<Seq<char>>, Option<Seq<char>>, Seq<char>);

pub open spec fn opt_view(o: Option<String>) -> Option<Seq<char>> {
    match o {
        Some(s) => Some(s@),
        None => None,
    }
}

impl CacheEntry {
    pub open spec fn view(&self) -> EntryView {
        (self.url@, opt_view(self.last_modified), opt_view(self.etag), self.path@)
    }
}

/// The entries as values.
pub open spec fn entry_views(es: Seq<CacheEntry>) -> Seq<EntryView> {
    es.map_values(|e: CacheEntry| e.view())
}

/// No two entries are for the same URL.
pub open spec fn urls_unique(es: Seq<EntryView>) -> bool {
    forall|a: int, b: int|
        0 <= a < es.len() && 0 <= b < es.len() && a != b ==> (#[trigger] es[a]).0 != (
        #[trigger] es[b]).0
}

/// Whether some entry is for `url`.
pub open spec fn has_url(es: Seq<EntryView>, url: Seq<char>) -> bool {
    exists|i: int| 0 <= i < es.len() && (#[trigger] es[i]).0 == url
}

/// The entry for `url`, if any.
pub open spec fn lookup(es: Seq<EntryView>, url: Seq<char>) -> Option<EntryView> {
    if has_url(es, url) {
        Some(es[choose|i: int| 0 <= i < es.len() && (#[trigger] es[i]).0 == url])
    } else {
        None
    }
}

/// The entries after `e` is recorded: it replaces the entry for its URL, or
/// is added when there is none.
pub open spec fn recorded(es: Seq<EntryView>, e: EntryView) -> Seq<EntryView> {
    if has_url(es, e.0) {
        es.update(choose|i: int| 0 <= i < es.len() && (#[trigger] es[i]).0 == e.0, e)
    } else {
        es.push(e)
    }
}

/// The number of entries for `url`.
pub open spec fn count_url(es: Seq<EntryView>, url: Seq<char>) -> nat
    decreases es.len(),
{
    if es.len() == 0 {
        0
    } else {
        count_url(es.drop_last(), url) + if es.last().0 == url {
            1nat
        } else {
            0nat
        }
    }
}

/// A character with ASCII upper case made lower.
pub open spec fn ascii_lower(c: char) -> char {
    if 'A' <= c && c <= 'Z' {
        (((c as u32) + 32) as u8) as char
    } else {
        c
    }
}

/// Whether two names are equal but for ASCII case.
pub open spec fn same_name(a: Seq<char>, b: Seq<char>) -> bool {
    a.len() == b.len() && forall|i: int| 0 <= i < a.len() ==> ascii_lower(#[trigger] a[i])
        == ascii_lower(b[i])
}

/// The value of the first header whose name is `name` but for ASCII case.
pub open spec fn header_value(hs: Seq<(String, String)>, name: Seq<char>) -> Option<Seq<char>>
    decreases hs.len(),
{
    if hs.len() == 0 {
        None
    } else if same_name(hs[0].0@, name) {
        Some(hs[0].1@)
    } else {
        header_value(hs.drop_first(), name)
    }
}

/// The entry that a response with these headers leaves for `url`.
pub open spec fn entry_from_response(
    url: Seq<char>,
    path: Seq<char>,
    hs: Seq<(String, String)>,
) -> EntryView {
    (url, header_value(hs, "Last-Modified"@), header_value(hs, "ETag"@), path)
}

/// The request headers that ask whether the stored copy is current.
pub open spec fn validators(e: Option<EntryView>) -> Seq<(Seq<char>, Seq<char>)> {
    match e {
        None => Seq::empty(),
        Some(v) => {
            let a: Seq<(Seq<char>, Seq<char>)> = match v.1 {
                Some(lm) => seq![("If-Modified-Since"@, lm)],
                None => Seq::empty(),
            };
            let b: Seq<(Seq<char>, Seq<char>)> = match v.2 {
                Some(t) => seq![("If-None-Match"@, t)],
                None => Seq::empty(),
            };
            a + b
        },
    }
}

pub open spec fn pair_views(hs: Seq<(String, String)>) -> Seq<(Seq<char>, Seq<char>)> {
    hs.map_values(|p: (String, String)| (p.0@, p.1@))
}

/// The cache: one entry per URL that was fetched and stored.
pub struct HeadersStore {
    pub entries: Vec<CacheEntry>,
}

impl HeadersStore {
    pub open spec fn view(&self) -> Seq<EntryView> {
        entry_views(self.entries@)
    }

    pub open spec fn wf(&self) -> bool {
        urls_unique(self.view())
    }

    /// An empty cache.
    pub fn new() -> (r: HeadersStore)
        ensures
            r.wf(),
            r.view() == Seq::<EntryView>::empty(),
    {
        let r = HeadersStore { entries: Vec::new() };
        proof {
            assert(r.view() =~= Seq::<EntryView>::empty());
        }
        r
    }

    /// The position of the entry for `url`.
    fn find(&self, url: &str) -> (r: Option<usize>)
        requires
            self.wf(),
        ensures
            r is Some <==> has_url(self.view(), url@),
            r is Some ==> r->0 < self.entries@.len() && self.view()[r->0 as int].0 == url@
                && lookup(self.view(), url@) == Some(self.view()[r->0 as int]),
    {
        let key = chars_of(url);
        let mut i: usize = 0;
        while i < self.entries.len()
            invariant
                self.wf(),
                key@ == url@,
                0 <= i <= self.entries@.len(),
                forall|k: int| 0 <= k < i ==> (#[trigger] self.view()[k]).0 != url@,
            decreases self.entries@.len() - i,
        {
            if chars_eq(&chars_of(self.entries[i].url.as_str()), &key) {
                proof {
                    assert(self.view()[i as int].0 == url@);
                    let c = choose|c: int|
                        0 <= c < self.view().len() && (#[trigger] self.view()[c]).0 == url@;
                    assert(c == i);
                }
                return Some(i);
            }
            i += 1;
        }
        None
    }

    /// The stored entry for `url`.
    pub fn get_headers(&self, url: &str) -> (r: Option<CacheEntry>)
        requires
            self.wf(),
        ensures
            lookup(self.view(), url@) == match r {
                Some(e) => Some(e.view()),
                None => None,
            },
    {
        match self.find(url) {
            Some(i) => Some(self.entries[i].clone_entry()),
            None => None,
        }
    }

    /// Records the entry for `url`, replacing any earlier one.
    pub fn set_headers(&mut self, entry: CacheEntry)
        requires
            old(self).wf(),
        ensures
            final(self).wf(),
            final(self).view() == recorded(old(self).view(), entry.view()),
    {
        let ghost es = self.view();
        match self.find(entry.url.as_str()) {
            Some(i) => {
                self.entries.set(i, entry);
                proof {
                    assert(self.view() =~= es.update(i as int, entry.view()));
                    let c = choose|c: int| 0 <= c < es.len() && (#[trigger] es[c]).0 == entry.view().0;
                    assert(c == i);
                }
            },
            None => {
                self.entries.push(entry);
                proof {
                    assert(self.view() =~= es.push(entry.view()));
                }
            },
        }
    }

    /// Records what a successful response for `url`, stored at `path`, says
    /// about its version: its `Last-Modified` and `ETag` headers.
    pub fn record_response(&mut self, url: &str, path: &str, response_headers: &Vec<(String, String)>)
        requires
            old(self).wf(),
        ensures
            final(self).wf(),
            final(self).view() == recorded(
                old(self).view(),
                entry_from_response(url@, path@, response_headers@),
            ),
    {
        let last_modified = header_get(response_headers, "Last-Modified");
        let etag = header_get(response_headers, "ETag");
        let entry = CacheEntry {
            url: string_of(&chars_of(url)),
            last_modified,
            etag,
            path: string_of(&chars_of(path)),
        };
        self.set_headers(entry);
    }

    /// The request headers that ask whether the stored copy of `url` is
    /// current: `If-Modified-Since` and `If-None-Match` from its entry.
    pub fn get_cached_headers(&self, url: &str) -> (r: Vec<(String, String)>)
        requires
            self.wf(),
        ensures
            pair_views(r@) == validators(lookup(self.view(), url@)),
    {
        let mut r: Vec<(String, String)> = Vec::new();
        match self.find(url) {
            None => {},
            Some(i) => {
                let e = &self.entries[i];
                match &e.last_modified {
                    Some(lm) => r.push((string_of(&chars_of("If-Modified-Since")), lm.clone())),
                    None => {},
                }
                match &e.etag {
                    Some(t) => r.push((string_of(&chars_of("If-None-Match")), t.clone())),
                    None => {},
                }
            },
        }
        proof {
            assert(pair_views(r@) =~= validators(lookup(self.view(), url@)));
        }
        r
    }

    /// The request headers for `url`: the validators, but only while the
    /// stored copy still exists.
    pub fn request_headers(&self, url: &str, stored_copy_exists: bool) -> (r: Vec<
        (String, String),
    >)
        requires
            self.wf(),
        ensures
            stored_copy_exists ==> pair_views(r@) == validators(lookup(self.view(), url@)),
            !stored_copy_exists ==> r@.len() == 0,
    {
        if stored_copy_exists {
            self.get_cached_headers(url)
        } else {
            Vec::new()
        }
    }
}

impl CacheEntry {
    pub fn clone_entry(&self) -> (r: CacheEntry)
        ensures
            r.view() == self.view(),
    {
        CacheEntry {
            url: self.url.clone(),
            last_modified: match &self.last_modified {
                Some(s) => Some(s.clone()),
                None => None,
            },
            etag: match &self.etag {
                Some(s) => Some(s.clone()),
                None => None,
            },
            path: self.path.clone(),
        }
    }
}

/// The local path of the stored copy of `url`.
pub fn get_path(store: &HeadersStore, url: &str) -> (r: Option<String>)
    requires
        store.wf(),
    ensures
        match lookup(store.view(), url@) {
            Some(e) => r is Some && r->0@ == e.3,
            None => r is None,
        },
{
    match store.find(url) {
        Some(i) => Some(store.entries[i].path.clone()),
        None => None,
    }
}

/// The stored `Last-Modified` of `url`.
pub fn get_last_modified(store: &HeadersStore, url: &str) -> (r: Option<String>)
    requires
        store.wf(),
    ensures
        match lookup(store.view(), url@) {
            Some(e) => opt_view(r) == e.1,
            None => r is None,
        },
{
    match store.find(url) {
        Some(i) => match &store.entries[i].last_modified {
            Some(s) => Some(s.clone()),
            None => None,
        },
        None => None,
    }
}

/// The stored `ETag` of `url`.
pub fn get_etag(store: &HeadersStore, url: &str) -> (r: Option<String>)
    requires
        store.wf(),
    ensures
        match lookup(store.view(), url@) {
            Some(e) => opt_view(r) == e.2,
            None => r is None,
        },
{
    match store.find(url) {
        Some(i) => match &store.entries[i].etag {
            Some(s) => Some(s.clone()),
            None => None,
        },
        None => None,
    }
}

fn lower_char(c: char) -> (r: char)
    ensures
        r == ascii_lower(c),
{
    if 'A' <= c && c <= 'Z' {
        (((c as u32) + 32) as u8) as char
    } else {
        c
    }
}

fn names_match(a: &Vec<char>, b: &Vec<char>) -> (r: bool)
    ensures
        r == same_name(a@, b@),
{
    if a.len() != b.len() {
        return false;
    }
    let mut i: usize = 0;
    while i < a.len()
        invariant
            a@.len() == b@.len(),
            0 <= i <= a@.len(),
            forall|k: int| 0 <= k < i ==> ascii_lower(#[trigger] a@[k]) == ascii_lower(b@[k]),
        decreases a@.len() - i,
    {
        if lower_char(a[i]) != lower_char(b[i]) {
            return false;
        }
        i += 1;
    }
    true
}

/// The value of the first header named `name`, ignoring ASCII case.
pub fn header_get(hs: &Vec<(String, String)>, name: &str) -> (r: Option<String>)
    ensures
        opt_view(r) == header_value(hs@, name@),
{
    let key = chars_of(name);
    let mut i: usize = 0;
    proof {
        assert(hs@.subrange(0, hs@.len() as int) =~= hs@);
    }
    while i < hs.len()
        invariant
            0 <= i <= hs@.len(),
            key@ == name@,
            header_value(hs@, name@) == header_value(hs@.subrange(i as int, hs@.len() as int), name@),
        decreases hs@.len() - i,
    {
        proof {
            let rest = hs@.subrange(i as int, hs@.len() as int);
            assert(rest.drop_first() =~= hs@.subrange(i + 1, hs@.len() as int));
            assert(rest[0] == hs@[i as int]);
        }
        let k = chars_of(hs[i].0.as_str());
        if names_match(&k, &key) {
            return Some(hs[i].1.clone());
        }
        i += 1;
    }
    None
}

/// Recording the same response twice for a URL leaves one entry for it, and
/// the second recording changes nothing.
pub proof fn lemma_record_idempotent(es: Seq<EntryView>, e: EntryView)
    requires
        urls_unique(es),
    ensures
        urls_unique(recorded(es, e)),
        recorded(recorded(es, e), e) == recorded(es, e),
        count_url(recorded(es, e), e.0) == 1,
        lookup(recorded(es, e), e.0) == Some(e),
{
    let r = recorded(es, e);
    lemma_recorded_unique(es, e);
    assert(has_url(r, e.0)) by {
        if has_url(es, e.0) {
            let i = choose|i: int| 0 <= i < es.len() && (#[trigger] es[i]).0 == e.0;
            assert(r[i] == e);
        } else {
            assert(r[es.len() as int] == e);
        }
    }
    let k = choose|i: int| 0 <= i < r.len() && (#[trigger] r[i]).0 == e.0;
    assert(r[k] == e) by {
        if has_url(es, e.0) {
            let i = choose|i: int| 0 <= i < es.len() && (#[trigger] es[i]).0 == e.0;
            assert(r[i].0 == e.0);
        } else {
            assert(r[es.len() as int].0 == e.0);
        }
    }
    assert(r.update(k, e) =~= r);
    lemma_count_unique(r, k);
}

pub proof fn lemma_recorded_unique(es: Seq<EntryView>, e: EntryView)
    requires
        urls_unique(es),
    ensures
        urls_unique(recorded(es, e)),
{
    let r = recorded(es, e);
    if has_url(es, e.0) {
        let i = choose|i: int| 0 <= i < es.len() && (#[trigger] es[i]).0 == e.0;
        assert forall|a: int, b: int|
            0 <= a < r.len() && 0 <= b < r.len() && a != b implies (#[trigger] r[a]).0 != (
            #[trigger] r[b]).0 by {
            if a == i {
                assert(es[b].0 != es[i].0);
            } else if b == i {
                assert(es[a].0 != es[i].0);
            }
        }
    } else {
        assert forall|a: int, b: int|
            0 <= a < r.len() && 0 <= b < r.len() && a != b implies (#[trigger] r[a]).0 != (
            #[trigger] r[b]).0 by {
            if a == es.len() {
                assert(r[b] == es[b]);
            } else if b == es.len() {
                assert(r[a] == es[a]);
            }
        }
    }
}

/// With unique URLs, the URL at position `k` occurs once.
pub proof fn lemma_count_unique(es: Seq<EntryView>, k: int)
    requires
        urls_unique(es),
        0 <= k < es.len(),
    ensures
        count_url(es, es[k].0) == 1,
    decreases es.len(),
{
    let u = es[k].0;
    let d = es.drop_last();
    assert(urls_unique(d)) by {
        assert forall|a: int, b: int|
            0 <= a < d.len() && 0 <= b < d.len() && a != b implies (#[trigger] d[a]).0 != (
            #[trigger] d[b]).0 by {
            assert(es[a].0 != es[b].0);
        }
    }
    if k == es.len() - 1 {
        assert forall|i: int| 0 <= i < d.len() implies (#[trigger] d[i]).0 != u by {
            assert(es[i].0 != es[k].0);
        }
        lemma_count_none(d, u);
    } else {
        assert(d[k] == es[k]);
        lemma_count_unique(d, k);
        assert(es.last().0 != u) by {
            assert(es[es.len() - 1].0 != es[k].0);
        }
    }
}

proof fn lemma_count_none(d: Seq<EntryView>, u: Seq<char>)
    requires
        forall|i: int| 0 <= i < d.len() ==> (#[trigger] d[i]).0 != u,
    ensures
        count_url(d, u) == 0,
    decreases d.len(),
{
    if d.len() > 0 {
        lemma_count_none(d.drop_last(), u);
    }
}

} // verus!
