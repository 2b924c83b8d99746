//! The site's configuration and the decisions of its request handlers:
//! which file a request is answered with and what its session counter
//! becomes.

use vstd::prelude::*;

use crate::paths::{normalized, path_matches_page, same_page, sanitize_relative_path, sanitized};

verus! {

/// The key of the `i`-th entry of a rewrite list.
pub open spec fn key_at(e: Seq<(String, String)>, i: int) -> Seq<char> {
    e[i].0@
}

/// No key occurs twice in a rewrite list.
pub open spec fn keys_distinct(e: Seq<(String, String)>) -> bool {
    forall|i: int, j: int| 0 <= i < j < e.len() ==> key_at(e, i) != key_at(e, j)
}

/// A rewrite list as a map from request path to rewritten path.
pub open spec fn entries_map(e: Seq<(String, String)>) -> Map<Seq<char>, Seq<char>> {
    Map::new(
        |k: Seq<char>| exists|i: int| 0 <= i < e.len() && #[trigger] key_at(e, i) == k,
        |k: Seq<char>| e[choose|i: int| 0 <= i < e.len() && #[trigger] key_at(e, i) == k].1@,
    )
}

/// In a list with distinct keys, each entry is what the map holds for its key.
proof fn lemma_entry(e: Seq<(String, String)>, i: int)
    requires
        keys_distinct(e),
        0 <= i < e.len(),
    ensures
        entries_map(e).contains_key(key_at(e, i)),
        entries_map(e)[key_at(e, i)] == e[i].1@,
{
    let k = key_at(e, i);
    assert(exists|j: int| 0 <= j < e.len() && #[trigger] key_at(e, j) == k);
    let j = choose|j: int| 0 <= j < e.len() && #[trigger] key_at(e, j) == k;
    if j != i {
        if j < i {
            assert(key_at(e, j) != key_at(e, i));
        } else {
            assert(key_at(e, i) != key_at(e, j));
        }
    }
}

/// Putting `(k, v)` at position `i` (over the entry for `k`, or at the end
/// when `k` is new) and keeping every other entry in place inserts `k ↦ v`
/// into the map.
proof fn lemma_map_after_put(
    old_e: Seq<(String, String)>,
    new_e: Seq<(String, String)>,
    i: int,
    k: Seq<char>,
    v: Seq<char>,
)
    requires
        keys_distinct(old_e),
        keys_distinct(new_e),
        0 <= i < new_e.len(),
        key_at(new_e, i) == k,
        new_e[i].1@ == v,
        i < old_e.len() ==> key_at(old_e, i) == k,
        forall|j: int| 0 <= j < new_e.len() && j != i ==> j < old_e.len() && new_e[j] == old_e[j],
        old_e.len() <= new_e.len(),
    ensures
        entries_map(new_e) == entries_map(old_e).insert(k, v),
{
    let nm = entries_map(new_e);
    let om = entries_map(old_e);
    lemma_entry(new_e, i);
    assert forall|q: Seq<char>| #[trigger] nm.contains_key(q) <==> om.insert(k, v).contains_key(q) by {
        if nm.contains_key(q) && q != k {
            let j = choose|j: int| 0 <= j < new_e.len() && #[trigger] key_at(new_e, j) == q;
            assert(new_e[j] == old_e[j]);
            assert(key_at(old_e, j) == q);
        }
        if om.contains_key(q) && q != k {
            let j = choose|j: int| 0 <= j < old_e.len() && #[trigger] key_at(old_e, j) == q;
            assert(new_e[j] == old_e[j]);
            assert(key_at(new_e, j) == q);
        }
    }
    assert forall|q: Seq<char>| #[trigger] nm.contains_key(q) implies nm[q] == om.insert(k, v)[q] by {
        if q != k {
            let j = choose|j: int| 0 <= j < new_e.len() && #[trigger] key_at(new_e, j) == q;
            assert(new_e[j] == old_e[j]);
            lemma_entry(new_e, j);
            lemma_entry(old_e, j);
        }
    }
    assert(nm =~= om.insert(k, v));
}

/// A table of path rewrites: a request for a key is answered as a request
/// for its value. Each key occurs once.
pub struct RewriteTable {
    entries: Vec<(String, String)>,
}

impl View for RewriteTable {
    type V = Map<Seq<char>, Seq<char>>;

    /// The rewrites as a map from request path to rewritten path.
    closed spec fn view(&self) -> Map<Seq<char>, Seq<char>> {
        entries_map(self.entries@)
    }
}

impl RewriteTable {
    /// No key occurs twice.
    pub closed spec fn wf(&self) -> bool {
        keys_distinct(self.entries@)
    }

    /// An empty table.
    pub fn new() -> (t: RewriteTable)
        ensures
            t.wf(),
            t@ == Map::<Seq<char>, Seq<char>>::empty(),
    {
        let t = RewriteTable { entries: Vec::new() };
        assert(t@ =~= Map::<Seq<char>, Seq<char>>::empty());
        t
    }

    /// The position of `key` among the entries, if it is there.
    fn find(&self, key: &String) -> (r: Option<usize>)
        requires
            self.wf(),
        ensures
            r matches Some(i) ==> i < self.entries@.len() && key_at(self.entries@, i as int) == key@,
            r is None ==> !self@.contains_key(key@),
    {
        let mut i: usize = 0;
        while i < self.entries.len()
            invariant
                i <= self.entries@.len(),
                forall|j: int| 0 <= j < i ==> key_at(self.entries@, j) != key@,
            decreases self.entries@.len() - i,
        {
            if self.entries[i].0 == *key {
                return Some(i);
            }
            i = i + 1;
        }
        None
    }

    /// Sets the rewrite of `from` to `to`, replacing any earlier one.
    pub fn insert(&mut self, from: String, to: String)
        requires
            old(self).wf(),
        ensures
            final(self).wf(),
            final(self)@ == old(self)@.insert(from@, to@),
    {
        let ghost old_e = self.entries@;
        let ghost k = from@;
        let ghost v = to@;
        match self.find(&from) {
            Some(i) => {
                self.entries.set(i, (from, to));
                proof {
                    let e = self.entries@;
                    assert forall|a: int, b: int| 0 <= a < b < e.len() implies key_at(e, a) != key_at(e, b) by {
                        assert(key_at(old_e, a) != key_at(old_e, b));
                        if a == i as int {
                            assert(key_at(e, a) == key_at(old_e, a));
                        }
                        if b == i as int {
                            assert(key_at(e, b) == key_at(old_e, b));
                        }
                    }
                    lemma_map_after_put(old_e, e, i as int, k, v);
                }
            },
            None => {
                self.entries.push((from, to));
                proof {
                    let e = self.entries@;
                    let n = old_e.len() as int;
                    assert forall|j: int| 0 <= j < n implies key_at(old_e, j) != k by {
                        lemma_entry(old_e, j);
                    }
                    assert forall|a: int, b: int| 0 <= a < b < e.len() implies key_at(e, a) != key_at(e, b) by {
                        assert(key_at(e, a) == key_at(old_e, a));
                        if b < n {
                            assert(key_at(e, b) == key_at(old_e, b));
                        }
                    }
                    lemma_map_after_put(old_e, e, n, k, v);
                }
            },
        }
    }

    /// The rewrite of `path`, if the table has one.
    pub fn get(&self, path: &str) -> (r: Option<String>)
        requires
            self.wf(),
        ensures
            r matches Some(v) ==> self@.contains_key(path@) && v@ == self@[path@],
            r is None ==> !self@.contains_key(path@),
    {
        let key = String::from_str(path);
        match self.find(&key) {
            Some(i) => {
                proof {
                    lemma_entry(self.entries@, i as int);
                }
                Some(self.entries[i].1.clone())
            },
            None => None,
        }
    }
}


/// The pages that the session logic answers with, as paths under the
/// static root.
pub struct PageConfig {
    pub index_first_visit: String,
    pub index_returning_visit: String,
    pub session_age_gt_20: String,
    pub session_age_lte_20: String,
}

/// Whether visits are counted in a session cookie, how long the session
/// lives, and whether its cookie is marked secure.
pub struct SessionConfig {
    pub enabled: bool,
    pub ttl_hours: i64,
    pub secure_cookie: bool,
}

/// The session lifetime, in hours, when the configuration names none.
pub fn default_session_ttl_hours() -> (h: i64)
    ensures
        h == 2,
{
    2
}

impl Default for SessionConfig {
    /// Sessions off, with the default lifetime and an insecure cookie.
    fn default() -> (c: SessionConfig)
        ensures
            !c.enabled,
            c.ttl_hours == 2,
            !c.secure_cookie,
    {
        SessionConfig { enabled: false, ttl_hours: default_session_ttl_hours(), secure_cookie: false }
    }
}

/// What the handlers share: the static root, the rewrites, the pages and
/// the session settings.
pub struct SiteState {
    pub static_dir: String,
    pub rewrites: RewriteTable,
    pub pages: PageConfig,
    pub session: SessionConfig,
}

/// A path that is served without a session: the first-visit page or the
/// under-21 page, by the request path or by its rewrite, or the root `/`.
pub open spec fn public_path(request: Seq<char>, rewritten: Seq<char>, pages: PageConfig) -> bool {
    ||| same_page(request, pages.index_first_visit@)
    ||| same_page(rewritten, pages.index_first_visit@)
    ||| same_page(request, pages.session_age_lte_20@)
    ||| same_page(rewritten, pages.session_age_lte_20@)
    ||| request == "/"@
}

/// Whether a request is served without a session (see `public_path`).
pub fn is_public_path(request_path: &str, rewritten_path: &str, pages: &PageConfig) -> (b: bool)
    ensures
        b == public_path(request_path@, rewritten_path@, *pages),
        b == (normalized(request_path@) == normalized(pages.index_first_visit@)
            || normalized(rewritten_path@) == normalized(pages.index_first_visit@)
            || normalized(request_path@) == normalized(pages.session_age_lte_20@)
            || normalized(rewritten_path@) == normalized(pages.session_age_lte_20@)
            || request_path@ == "/"@),
{
    path_matches_page(request_path, pages.index_first_visit.as_str())
        || path_matches_page(rewritten_path, pages.index_first_visit.as_str())
        || path_matches_page(request_path, pages.session_age_lte_20.as_str())
        || path_matches_page(rewritten_path, pages.session_age_lte_20.as_str())
        || String::from_str(request_path) == String::from_str("/")
}

/// The path that a request for `path` is served from: its rewrite where the
/// table has one, else the path itself.
pub open spec fn rewritten(rewrites: Map<Seq<char>, Seq<char>>, path: Seq<char>) -> Seq<char> {
    if rewrites.contains_key(path) {
        rewrites[path]
    } else {
        path
    }
}

impl RewriteTable {
    /// The path that a request for `path` is served from (see `rewritten`).
    pub fn rewrite(&self, path: &str) -> (r: String)
        requires
            self.wf(),
        ensures
            r@ == rewritten(self@, path@),
    {
        match self.get(path) {
            Some(v) => v,
            None => String::from_str(path),
        }
    }
}

/// How a handler answers: the file to serve, as a path under the static
/// root, and the value to store as the session's visit counter, if any.
pub struct Route {
    pub path: String,
    pub counter: Option<i32>,
}

/// The visit counter after one more counted visit.
pub open spec fn next_count(stored: Option<i32>) -> int {
    match stored {
        Some(c) => c + 1,
        None => 1,
    }
}

/// The counter value a route stores, as an integer.
pub open spec fn stored_value(counter: Option<i32>) -> Option<int> {
    match counter {
        Some(c) => Some(c as int),
        None => None,
    }
}

/// The page answering `/session?fage=..`: the over-20 page for ages over
/// 20, else the under-21 page.
pub open spec fn session_age_page(fage: i32, pages: PageConfig) -> Seq<char> {
    if fage > 20 {
        pages.session_age_gt_20@
    } else {
        pages.session_age_lte_20@
    }
}

/// The counter stored by `/session?fage=..`: one more visit, for ages over
/// 20 with sessions on; nothing otherwise.
pub open spec fn session_age_counter(fage: i32, enabled: bool, stored: Option<i32>) -> Option<int> {
    if fage > 20 && enabled {
        Some(next_count(stored))
    } else {
        None
    }
}

/// The page answering `/`: the returning-visit page for a visitor with a
/// stored counter when sessions are on, else the first-visit page.
pub open spec fn index_page(enabled: bool, stored: Option<i32>, pages: PageConfig) -> Seq<char> {
    if enabled && stored is Some {
        pages.index_returning_visit@
    } else {
        pages.index_first_visit@
    }
}

/// The counter stored by `/`: one more visit for a returning visitor when
/// sessions are on; nothing otherwise.
pub open spec fn index_counter(enabled: bool, stored: Option<i32>) -> Option<int> {
    if enabled && stored is Some {
        Some(next_count(stored))
    } else {
        None
    }
}

/// Whether a request for `request` is let through to its rewrite: always
/// with sessions off, and with sessions on when the path is public or the
/// visitor has a stored counter.
pub open spec fn static_admitted(
    request: Seq<char>,
    rewrites: Map<Seq<char>, Seq<char>>,
    pages: PageConfig,
    enabled: bool,
    stored: Option<i32>,
) -> bool {
    !enabled || public_path(request, rewritten(rewrites, request), pages) || stored is Some
}

/// The file answering any other request: its rewrite when admitted, else
/// the first-visit page.
pub open spec fn static_page(
    request: Seq<char>,
    rewrites: Map<Seq<char>, Seq<char>>,
    pages: PageConfig,
    enabled: bool,
    stored: Option<i32>,
) -> Seq<char> {
    if static_admitted(request, rewrites, pages, enabled, stored) {
        rewritten(rewrites, request)
    } else {
        pages.index_first_visit@
    }
}

/// The counter stored by any other request: one more visit when sessions
/// are on, the path is not public and the visitor has a stored counter.
pub open spec fn static_counter(
    request: Seq<char>,
    rewrites: Map<Seq<char>, Seq<char>>,
    pages: PageConfig,
    enabled: bool,
    stored: Option<i32>,
) -> Option<int> {
    if enabled && !public_path(request, rewritten(rewrites, request), pages) && stored is Some {
        Some(next_count(stored))
    } else {
        None
    }
}

/// The largest age that `/session` accepts.
pub open spec fn max_fage() -> i32 {
    32767
}

/// Answer to `/session?fage=..`: refused (`None`) for an age above 32767;
/// otherwise the page of `session_age_page` and the counter of
/// `session_age_counter`.
pub fn session_age_route(fage: i32, state: &SiteState, stored: Option<i32>) -> (r: Option<Route>)
    requires
        fage <= max_fage() && fage > 20 && state.session.enabled ==> stored != Some(i32::MAX),
    ensures
        r is None <==> fage > max_fage(),
        r matches Some(route) ==> route.path@ == session_age_page(fage, state.pages)
            && stored_value(route.counter) == session_age_counter(fage, state.session.enabled, stored),
        fage <= 20 ==> (r matches Some(route) && route.path@ == state.pages.session_age_lte_20@
            && route.counter is None),
        20 < fage <= max_fage() ==> (r matches Some(route) && route.path@
            == state.pages.session_age_gt_20@ && (state.session.enabled ==> stored_value(
            route.counter,
        ) == Some(
            match stored {
                Some(c) => c + 1,
                None => 1int,
            },
        )) && (!state.session.enabled ==> route.counter is None)),
{
    if fage > 32767 {
        return None;
    }
    if fage > 20 {
        let counter = if state.session.enabled {
            let c = match stored {
                Some(c) => c + 1,
                None => 1,
            };
            Some(c)
        } else {
            None
        };
        Some(Route { path: state.pages.session_age_gt_20.clone(), counter })
    } else {
        Some(Route { path: state.pages.session_age_lte_20.clone(), counter: None })
    }
}

/// Answer to `/` (see `index_page` and `index_counter`).
pub fn index_route(state: &SiteState, stored: Option<i32>) -> (r: Route)
    requires
        state.session.enabled ==> stored != Some(i32::MAX),
    ensures
        r.path@ == index_page(state.session.enabled, stored, state.pages),
        stored_value(r.counter) == index_counter(state.session.enabled, stored),
        !state.session.enabled ==> r.path@ == state.pages.index_first_visit@ && r.counter is None,
        state.session.enabled && stored is None ==> r.path@ == state.pages.index_first_visit@
            && r.counter is None,
        state.session.enabled && stored is Some ==> r.path@ == state.pages.index_returning_visit@
            && stored_value(r.counter) == Some(stored.unwrap() + 1),
{
    if state.session.enabled {
        if let Some(count) = stored {
            return Route { path: state.pages.index_returning_visit.clone(), counter: Some(count + 1) };
        }
        return Route { path: state.pages.index_first_visit.clone(), counter: None };
    }
    Route { path: state.pages.index_first_visit.clone(), counter: None }
}

/// Answer to any other path (see `static_page` and `static_counter`).
pub fn static_route(request_path: &str, state: &SiteState, stored: Option<i32>) -> (r: Route)
    requires
        state.rewrites.wf(),
        state.session.enabled && !public_path(
            request_path@,
            rewritten(state.rewrites@, request_path@),
            state.pages,
        ) ==> stored != Some(i32::MAX),
    ensures
        r.path@ == static_page(
            request_path@,
            state.rewrites@,
            state.pages,
            state.session.enabled,
            stored,
        ),
        stored_value(r.counter) == static_counter(
            request_path@,
            state.rewrites@,
            state.pages,
            state.session.enabled,
            stored,
        ),
        ({
            let target = rewritten(state.rewrites@, request_path@);
            let public = public_path(request_path@, target, state.pages);
            &&& !state.session.enabled ==> r.path@ == target && r.counter is None
            &&& state.session.enabled && public ==> r.path@ == target && r.counter is None
            &&& state.session.enabled && !public && stored is Some ==> r.path@ == target
                && stored_value(r.counter) == Some(stored.unwrap() + 1)
            &&& state.session.enabled && !public && stored is None ==> r.path@
                == state.pages.index_first_visit@ && r.counter is None
        }),
{
    let target = state.rewrites.rewrite(request_path);
    if !state.session.enabled {
        return Route { path: target, counter: None };
    }
    if is_public_path(request_path, target.as_str(), &state.pages) {
        return Route { path: target, counter: None };
    }
    if let Some(count) = stored {
        return Route { path: target, counter: Some(count + 1) };
    }
    Route { path: state.pages.index_first_visit.clone(), counter: None }
}

/// A visitor who holds a session counter is served every path from its
/// rewrite (or from the path itself where the table has none), public or
/// not; only a path that is neither public nor requested with a counter
/// falls back to the first-visit page.
pub proof fn lemma_counter_holder_is_served(
    request: Seq<char>,
    rewrites: Map<Seq<char>, Seq<char>>,
    pages: PageConfig,
    enabled: bool,
    c: i32,
)
    ensures
        static_page(request, rewrites, pages, enabled, Some(c)) == (if rewrites.contains_key(request) {
            rewrites[request]
        } else {
            request
        }),
        enabled && !public_path(request, rewritten(rewrites, request), pages) ==> static_counter(
            request,
            rewrites,
            pages,
            enabled,
            Some(c),
        ) == Some(c + 1),
{
}

/// `/session` with an age of 20 or less answers with the under-21 page and
/// never stores a counter, whatever the session holds; an accepted age over
/// 20 answers with the over-20 page and, with sessions on, stores the
/// stored count plus one.
pub proof fn lemma_session_age_answers(fage: i32, pages: PageConfig, enabled: bool, stored: Option<i32>)
    ensures
        fage <= 20 ==> session_age_page(fage, pages) == pages.session_age_lte_20@
            && session_age_counter(fage, enabled, stored) is None,
        fage > 20 ==> session_age_page(fage, pages) == pages.session_age_gt_20@,
        fage > 20 && enabled ==> session_age_counter(fage, enabled, stored) == Some(
            match stored {
                Some(c) => c + 1,
                None => 1int,
            },
        ),
        !enabled ==> session_age_counter(fage, enabled, stored) is None,
{
}

/// `/` answers with the first-visit page unless sessions are on and the
/// visitor holds a counter, in which case it answers with the
/// returning-visit page and stores the count plus one.
pub proof fn lemma_index_answers(enabled: bool, stored: Option<i32>, pages: PageConfig)
    ensures
        !enabled ==> index_page(enabled, stored, pages) == pages.index_first_visit@
            && index_counter(enabled, stored) is None,
        stored is None ==> index_page(enabled, stored, pages) == pages.index_first_visit@
            && index_counter(enabled, stored) is None,
        enabled && stored is Some ==> index_page(enabled, stored, pages)
            == pages.index_returning_visit@ && index_counter(enabled, stored) == Some(
            stored.unwrap() + 1,
        ),
{
}

/// A request is public exactly when its path or its rewrite has the normal
/// form of the first-visit page or of the under-21 page, or it is `/`
/// itself: pages in other directories never count.
pub proof fn lemma_public_path_by_normal_forms(request: Seq<char>, target: Seq<char>, pages: PageConfig)
    ensures
        public_path(request, target, pages) == (normalized(request) == normalized(
            pages.index_first_visit@,
        ) || normalized(target) == normalized(pages.index_first_visit@) || normalized(request)
            == normalized(pages.session_age_lte_20@) || normalized(target) == normalized(
            pages.session_age_lte_20@,
        ) || request == "/"@),
{
}

/// Reading a rewrite back: after `from` is set to `to`, a request for
/// `from` is served from `to`, and every other path keeps its rewrite.
pub proof fn lemma_rewrite_read_after_write(
    rewrites: Map<Seq<char>, Seq<char>>,
    from: Seq<char>,
    to: Seq<char>,
    path: Seq<char>,
)
    ensures
        rewritten(rewrites.insert(from, to), from) == to,
        path != from ==> rewritten(rewrites.insert(from, to), path) == rewritten(rewrites, path),
{
}

/// With sessions off, no handler stores a counter, and every path is served
/// from its rewrite.
pub proof fn lemma_sessions_off_store_nothing(
    fage: i32,
    request: Seq<char>,
    rewrites: Map<Seq<char>, Seq<char>>,
    pages: PageConfig,
    stored: Option<i32>,
)
    ensures
        session_age_counter(fage, false, stored) is None,
        index_counter(false, stored) is None,
        static_counter(request, rewrites, pages, false, stored) is None,
        static_page(request, rewrites, pages, false, stored) == rewritten(rewrites, request),
{
}

/// Whenever a handler stores a counter, it is the stored one plus one (one
/// when there was none).
pub proof fn lemma_counter_counts_one_visit(
    fage: i32,
    request: Seq<char>,
    rewrites: Map<Seq<char>, Seq<char>>,
    pages: PageConfig,
    enabled: bool,
    stored: Option<i32>,
)
    ensures
        session_age_counter(fage, enabled, stored) matches Some(c) ==> c == next_count(stored),
        index_counter(enabled, stored) matches Some(c) ==> c == next_count(stored),
        static_counter(request, rewrites, pages, enabled, stored) matches Some(c) ==> c
            == next_count(stored),
{
}

/// The session gate: with sessions on, a visitor without a counter who asks
/// for a path that is not public gets the first-visit page instead, and a
/// public path is served from its rewrite whatever the session holds.
pub proof fn lemma_session_gate(
    request: Seq<char>,
    rewrites: Map<Seq<char>, Seq<char>>,
    pages: PageConfig,
    stored: Option<i32>,
)
    ensures
        !public_path(request, rewritten(rewrites, request), pages) ==> static_page(
            request,
            rewrites,
            pages,
            true,
            None,
        ) == pages.index_first_visit@,
        public_path(request, rewritten(rewrites, request), pages) ==> static_page(
            request,
            rewrites,
            pages,
            true,
            stored,
        ) == rewritten(rewrites, request),
{
}

/// Why a configured or requested file cannot be served.
#[derive(Clone, Copy, Debug, PartialEq, Eq, Structural)]
pub enum ServeError {
    /// The path climbs out of the static root.
    BadRequest,
    /// Nothing servable is there.
    NotFound,
}

/// The segments under the static root of a path to serve, or `BadRequest`
/// where the path climbs out of the root.
pub fn served_segments(relative_path: &str) -> (r: Result<Vec<String>, ServeError>)
    ensures
        r matches Ok(segs) ==> sanitized(relative_path@) == Some(segs.deep_view()),
        r matches Err(e) ==> e == ServeError::BadRequest && sanitized(relative_path@) is None,
{
    match sanitize_relative_path(relative_path) {
        Some(segs) => Ok(segs),
        None => Err(ServeError::BadRequest),
    }
}

/// Which file answers a request once its path is resolved under the root.
#[derive(Clone, Copy, Debug, PartialEq, Eq, Structural)]
pub enum FileChoice {
    /// The path itself, which is a file.
    Itself,
    /// The `index.html` inside the path, which is a directory.
    DirectoryIndex,
}

/// Picks the file to serve from what is on disk: the path if it is a file,
/// else its `index.html` if the path is a directory holding one, else
/// `NotFound`.
pub fn choose_file(is_file: bool, is_dir: bool, index_is_file: bool) -> (r: Result<FileChoice, ServeError>)
    ensures
        is_file ==> r == Ok::<FileChoice, ServeError>(FileChoice::Itself),
        !is_file && is_dir && index_is_file ==> r == Ok::<FileChoice, ServeError>(FileChoice::DirectoryIndex),
        !is_file && !(is_dir && index_is_file) ==> r == Err::<FileChoice, ServeError>(ServeError::NotFound),
{
    if is_file {
        return Ok(FileChoice::Itself);
    }
    if is_dir {
        if index_is_file {
            return Ok(FileChoice::DirectoryIndex);
        }
    }
    Err(ServeError::NotFound)
}

} // verus!
