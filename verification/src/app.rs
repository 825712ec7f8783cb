//! The state the interface keeps between frames: the cache of window icons,
//! the selection, the status line and the refresh timer. Time is handed in as
//! milliseconds on a clock that never goes back.

use vstd::prelude::*;

use crate::config::Config;
use crate::text::push_str;
use crate::ui::{find_window, window_with};
use crate::window_manager::{Placement, WindowInfo};

verus! {

// ---------------------------------------------------------------------------
// Icon cache
// ---------------------------------------------------------------------------

/// How many icons the cache holds at most.
pub const ICON_CACHE_MAX: usize = 100;

/// How long an icon stays in the cache without being used, in milliseconds.
pub const ICON_CACHE_TTL_MS: u64 = 300_000;

struct CacheEntry<T> {
    key: String,
    value: T,
    last_used: u64,
}

/// Textures of window icons, by key, each dropped once it has gone unused for
/// the time to live, the least recently used dropped first when it is full.
pub struct IconCache<T> {
    entries: Vec<CacheEntry<T>>,
    max_size: usize,
    ttl: u64,
}

/// `last_used` is too long ago at `now`. A clock reading before `last_used`
/// counts as no time at all.
pub open spec fn is_expired(last_used: u64, now: u64, ttl: u64) -> bool {
    !(if now >= last_used {
        now - last_used
    } else {
        0
    } < ttl)
}

spec fn has_key<T>(s: Seq<CacheEntry<T>>, k: Seq<char>) -> bool {
    exists|i: int| 0 <= i < s.len() && (#[trigger] s[i]).key@ == k
}

spec fn entries_map<T>(s: Seq<CacheEntry<T>>) -> Map<Seq<char>, (T, u64)> {
    Map::new(
        |k: Seq<char>| has_key(s, k),
        |k: Seq<char>|
            {
                let i = choose|i: int| 0 <= i < s.len() && (#[trigger] s[i]).key@ == k;
                (s[i].value, s[i].last_used)
            },
    )
}

spec fn distinct_keys<T>(s: Seq<CacheEntry<T>>) -> bool {
    forall|i: int, j: int| 0 <= i < s.len() && 0 <= j < s.len() && i != j ==> s[i].key@ != s[j].key@
}

/// The entries of `m` that have not expired at `now`.
pub open spec fn unexpired<T>(m: Map<Seq<char>, (T, u64)>, now: u64, ttl: u64) -> Map<
    Seq<char>,
    (T, u64),
> {
    m.restrict(Set::new(|k: Seq<char>| m.contains_key(k) && !is_expired(m[k].1, now, ttl)))
}

/// `k` is an entry of `m` used no later than any other.
pub open spec fn is_oldest<T>(m: Map<Seq<char>, (T, u64)>, k: Seq<char>) -> bool {
    &&& m.contains_key(k)
    &&& forall|j: Seq<char>| #[trigger] m.contains_key(j) ==> m[k].1 <= m[j].1
}

proof fn lemma_lookup<T>(s: Seq<CacheEntry<T>>, i: int)
    requires
        distinct_keys(s),
        0 <= i < s.len(),
    ensures
        entries_map(s).contains_key(s[i].key@),
        entries_map(s)[s[i].key@] == (s[i].value, s[i].last_used),
{
    let k = s[i].key@;
    assert(has_key(s, k));
    let j = choose|j: int| 0 <= j < s.len() && (#[trigger] s[j]).key@ == k;
    assert(i == j);
}

proof fn lemma_remove<T>(s: Seq<CacheEntry<T>>, i: int)
    requires
        distinct_keys(s),
        0 <= i < s.len(),
    ensures
        distinct_keys(s.remove(i)),
        entries_map(s.remove(i)) == entries_map(s).remove(s[i].key@),
{
    let r = s.remove(i);
    assert forall|a: int, b: int|
        0 <= a < r.len() && 0 <= b < r.len() && a != b implies r[a].key@ != r[b].key@ by {
        let a0 = if a < i {
            a
        } else {
            a + 1
        };
        let b0 = if b < i {
            b
        } else {
            b + 1
        };
        assert(r[a] == s[a0] && r[b] == s[b0]);
    }
    let m = entries_map(s);
    let mr = entries_map(r);
    assert forall|k: Seq<char>| #[trigger] mr.contains_key(k) == m.remove(s[i].key@).contains_key(k) by {
        if mr.contains_key(k) {
            let j = choose|j: int| 0 <= j < r.len() && (#[trigger] r[j]).key@ == k;
            let j0 = if j < i {
                j
            } else {
                j + 1
            };
            assert(s[j0] == r[j]);
            assert(has_key(s, k));
        }
        if m.remove(s[i].key@).contains_key(k) {
            let j = choose|j: int| 0 <= j < s.len() && (#[trigger] s[j]).key@ == k;
            assert(j != i);
            let j1 = if j < i {
                j
            } else {
                j - 1
            };
            assert(r[j1] == s[j]);
            assert(has_key(r, k));
        }
    }
    assert forall|k: Seq<char>| #[trigger] mr.contains_key(k) implies mr[k] == m.remove(
        s[i].key@,
    )[k] by {
        let j = choose|j: int| 0 <= j < r.len() && (#[trigger] r[j]).key@ == k;
        let j0 = if j < i {
            j
        } else {
            j + 1
        };
        assert(s[j0] == r[j]);
        lemma_lookup(r, j);
        lemma_lookup(s, j0);
    }
    assert(mr =~= m.remove(s[i].key@));
}

proof fn lemma_update<T>(s: Seq<CacheEntry<T>>, i: int, e: CacheEntry<T>)
    requires
        distinct_keys(s),
        0 <= i < s.len(),
        e.key@ == s[i].key@,
    ensures
        distinct_keys(s.update(i, e)),
        entries_map(s.update(i, e)) == entries_map(s).insert(e.key@, (e.value, e.last_used)),
{
    let u = s.update(i, e);
    assert forall|a: int, b: int|
        0 <= a < u.len() && 0 <= b < u.len() && a != b implies u[a].key@ != u[b].key@ by {
        assert(u[a].key@ == s[a].key@ && u[b].key@ == s[b].key@);
    }
    let m = entries_map(s);
    let mu = entries_map(u);
    assert forall|k: Seq<char>| #[trigger] mu.contains_key(k) == m.insert(
        e.key@,
        (e.value, e.last_used),
    ).contains_key(k) by {
        if mu.contains_key(k) {
            let j = choose|j: int| 0 <= j < u.len() && (#[trigger] u[j]).key@ == k;
            assert(s[j].key@ == k);
            assert(has_key(s, k));
        }
        if m.contains_key(k) {
            let j = choose|j: int| 0 <= j < s.len() && (#[trigger] s[j]).key@ == k;
            assert(u[j].key@ == k);
            assert(has_key(u, k));
        }
        if k == e.key@ {
            assert(u[i].key@ == k);
            assert(has_key(u, k));
        }
    }
    assert forall|k: Seq<char>| #[trigger] mu.contains_key(k) implies mu[k] == m.insert(
        e.key@,
        (e.value, e.last_used),
    )[k] by {
        let j = choose|j: int| 0 <= j < u.len() && (#[trigger] u[j]).key@ == k;
        lemma_lookup(u, j);
        if j != i {
            lemma_lookup(s, j);
        }
    }
    assert(mu =~= m.insert(e.key@, (e.value, e.last_used)));
}

proof fn lemma_push<T>(s: Seq<CacheEntry<T>>, e: CacheEntry<T>)
    requires
        distinct_keys(s),
        !has_key(s, e.key@),
    ensures
        distinct_keys(s.push(e)),
        entries_map(s.push(e)) == entries_map(s).insert(e.key@, (e.value, e.last_used)),
{
    let p = s.push(e);
    assert forall|a: int, b: int|
        0 <= a < p.len() && 0 <= b < p.len() && a != b implies p[a].key@ != p[b].key@ by {
        if a == s.len() {
            assert(p[b] == s[b]);
        } else if b == s.len() {
            assert(p[a] == s[a]);
        }
    }
    let m = entries_map(s);
    let mp = entries_map(p);
    assert forall|k: Seq<char>| #[trigger] mp.contains_key(k) == m.insert(
        e.key@,
        (e.value, e.last_used),
    ).contains_key(k) by {
        if mp.contains_key(k) && k != e.key@ {
            let j = choose|j: int| 0 <= j < p.len() && (#[trigger] p[j]).key@ == k;
            assert(p[j] == s[j]);
            assert(has_key(s, k));
        }
        if m.contains_key(k) {
            let j = choose|j: int| 0 <= j < s.len() && (#[trigger] s[j]).key@ == k;
            assert(p[j] == s[j]);
            assert(has_key(p, k));
        }
        if k == e.key@ {
            assert(p[s.len() as int] == e);
            assert(has_key(p, k));
        }
    }
    assert forall|k: Seq<char>| #[trigger] mp.contains_key(k) implies mp[k] == m.insert(
        e.key@,
        (e.value, e.last_used),
    )[k] by {
        let j = choose|j: int| 0 <= j < p.len() && (#[trigger] p[j]).key@ == k;
        lemma_lookup(p, j);
        if j < s.len() {
            assert(p[j] == s[j]);
            lemma_lookup(s, j);
        }
    }
    assert(mp =~= m.insert(e.key@, (e.value, e.last_used)));
}

proof fn lemma_len<T>(s: Seq<CacheEntry<T>>)
    requires
        distinct_keys(s),
    ensures
        entries_map(s).len() == s.len(),
        entries_map(s).dom().finite(),
    decreases s.len(),
{
    let keys = s.map_values(|e: CacheEntry<T>| e.key@);
    assert(keys.no_duplicates()) by {
        assert forall|i: int, j: int|
            0 <= i < keys.len() && 0 <= j < keys.len() && i != j implies keys[i] != keys[j] by {
            assert(keys[i] == s[i].key@ && keys[j] == s[j].key@);
        }
    }
    keys.unique_seq_to_set();
    assert forall|k: Seq<char>| #[trigger] entries_map(s).dom().contains(k) == keys.to_set().contains(
        k,
    ) by {
        if entries_map(s).dom().contains(k) {
            let j = choose|j: int| 0 <= j < s.len() && (#[trigger] s[j]).key@ == k;
            assert(keys[j] == k);
        }
        if keys.to_set().contains(k) {
            let j = choose|j: int| 0 <= j < keys.len() && keys[j] == k;
            assert(s[j].key@ == k);
            assert(has_key(s, k));
        }
    }
    assert(entries_map(s).dom() =~= keys.to_set());
}

impl<T> IconCache<T> {
    /// The cached entries: each key's value and when it was last used.
    pub closed spec fn view_entries(&self) -> Map<Seq<char>, (T, u64)> {
        entries_map(self.entries@)
    }

    pub closed spec fn capacity(&self) -> nat {
        self.max_size as nat
    }

    pub closed spec fn time_to_live(&self) -> u64 {
        self.ttl
    }

    /// Keys are unique and the cache is within its capacity.
    pub closed spec fn wf(&self) -> bool {
        &&& distinct_keys(self.entries@)
        &&& self.entries@.len() <= self.max_size
        &&& self.max_size >= 1
    }

    /// An empty cache for 100 icons, each kept for five minutes after its last
    /// use.
    pub fn new() -> (r: Self)
        ensures
            r.wf(),
            r.view_entries() == Map::<Seq<char>, (T, u64)>::empty(),
            r.capacity() == ICON_CACHE_MAX,
            r.time_to_live() == ICON_CACHE_TTL_MS,
    {
        let r = IconCache { entries: Vec::new(), max_size: ICON_CACHE_MAX, ttl: ICON_CACHE_TTL_MS };
        assert(r.view_entries() =~= Map::<Seq<char>, (T, u64)>::empty());
        r
    }

    /// How many entries the cache holds.
    pub fn len(&self) -> (r: usize)
        requires
            self.wf(),
        ensures
            r == self.view_entries().len(),
            r <= self.capacity(),
    {
        proof {
            lemma_len(self.entries@);
        }
        self.entries.len()
    }

    fn expired(&self, last_used: u64, now: u64) -> (r: bool)
        ensures
            r == is_expired(last_used, now, self.ttl),
    {
        let elapsed = if now >= last_used {
            now - last_used
        } else {
            0
        };
        !(elapsed < self.ttl)
    }

    fn position(&self, key: &String) -> (r: Option<usize>)
        requires
            self.wf(),
        ensures
            match r {
                Some(i) => i < self.entries@.len() && self.entries@[i as int].key@ == key@,
                None => !has_key(self.entries@, key@),
            },
    {
        let mut i: usize = 0;
        while i < self.entries.len()
            invariant
                i <= self.entries@.len(),
                forall|j: int| 0 <= j < i ==> (#[trigger] self.entries@[j]).key@ != key@,
            decreases self.entries@.len() - i,
        {
            if self.entries[i].key == *key {
                return Some(i);
            }
            i = i + 1;
        }
        None
    }

    /// Drops every entry that has gone unused for the time to live.
    pub fn cleanup_expired(&mut self, now: u64)
        requires
            old(self).wf(),
        ensures
            final(self).wf(),
            final(self).view_entries() == unexpired(old(self).view_entries(), now, old(self).time_to_live()),
            final(self).capacity() == old(self).capacity(),
            final(self).time_to_live() == old(self).time_to_live(),
    {
        let ghost start = self.view_entries();
        let mut i: usize = 0;
        while i < self.entries.len()
            invariant
                self.wf(),
                i <= self.entries@.len(),
                self.max_size == old(self).max_size,
                self.ttl == old(self).ttl,
                forall|j: int|
                    0 <= j < i ==> !is_expired(
                        (#[trigger] self.entries@[j]).last_used,
                        now,
                        self.ttl,
                    ),
                unexpired(self.view_entries(), now, self.ttl) == unexpired(start, now, self.ttl),
            decreases self.entries@.len() - i,
        {
            if self.expired(self.entries[i].last_used, now) {
                proof {
                    let s = self.entries@;
                    lemma_remove(s, i as int);
                    lemma_lookup(s, i as int);
                    let m = entries_map(s);
                    let k = s[i as int].key@;
                    assert(unexpired(m.remove(k), now, self.ttl) =~= unexpired(m, now, self.ttl));
                }
                self.entries.remove(i);
            } else {
                i = i + 1;
            }
        }
        proof {
            let s = self.entries@;
            let m = entries_map(s);
            assert forall|k: Seq<char>| m.contains_key(k) implies !is_expired(
                #[trigger] m[k].1,
                now,
                self.ttl,
            ) by {
                let j = choose|j: int| 0 <= j < s.len() && (#[trigger] s[j]).key@ == k;
                lemma_lookup(s, j);
            }
            assert(unexpired(m, now, self.ttl) =~= m);
        }
    }

    /// Drops an entry used no later than any other.
    fn remove_oldest(&mut self)
        requires
            old(self).wf(),
            old(self).entries@.len() > 0,
        ensures
            final(self).wf(),
            final(self).max_size == old(self).max_size,
            final(self).ttl == old(self).ttl,
            final(self).entries@.len() == old(self).entries@.len() - 1,
            exists|k: Seq<char>|
                #[trigger] is_oldest(old(self).view_entries(), k) && final(self).view_entries()
                    == old(self).view_entries().remove(k),
    {
        let mut oldest: usize = 0;
        let mut i: usize = 1;
        while i < self.entries.len()
            invariant
                0 <= oldest < i <= self.entries@.len(),
                forall|j: int|
                    0 <= j < i ==> self.entries@[oldest as int].last_used <= (#[trigger] self.entries@[j]).last_used,
            decreases self.entries@.len() - i,
        {
            if self.entries[i].last_used < self.entries[oldest].last_used {
                oldest = i;
            }
            i = i + 1;
        }
        let ghost m = entries_map(self.entries@);
        let ghost k = self.entries@[oldest as int].key@;
        proof {
            let s = self.entries@;
            lemma_lookup(s, oldest as int);
            assert forall|j: Seq<char>| #[trigger] m.contains_key(j) implies m[k].1 <= m[j].1 by {
                let x = choose|x: int| 0 <= x < s.len() && (#[trigger] s[x]).key@ == j;
                lemma_lookup(s, x);
            }
            lemma_remove(s, oldest as int);
            assert(is_oldest(m, k));
        }
        self.entries.remove(oldest);
        assert(m == old(self).view_entries());
        assert(is_oldest(old(self).view_entries(), k) && self.view_entries() == old(
            self,
        ).view_entries().remove(k));
    }

    /// Whether `key` holds an entry that has not expired at `now`.
    pub fn contains_key(&self, key: &str, now: u64) -> (r: bool)
        requires
            self.wf(),
        ensures
            r == (self.view_entries().contains_key(key@) && !is_expired(
                self.view_entries()[key@].1,
                now,
                self.time_to_live(),
            )),
    {
        let k = key.to_owned();
        match self.position(&k) {
            Some(i) => {
                proof {
                    lemma_lookup(self.entries@, i as int);
                }
                !self.expired(self.entries[i].last_used, now)
            },
            None => false,
        }
    }

    /// The value under `key`, marked as used at `now`; an entry that has
    /// expired is dropped instead.
    pub fn get(&mut self, key: &str, now: u64) -> (r: Option<&T>)
        requires
            old(self).wf(),
        ensures
            final(self).wf(),
            final(self).capacity() == old(self).capacity(),
            final(self).time_to_live() == old(self).time_to_live(),
            ({
                let m = old(self).view_entries();
                if !m.contains_key(key@) {
                    r is None && final(self).view_entries() == m
                } else if is_expired(m[key@].1, now, old(self).time_to_live()) {
                    r is None && final(self).view_entries() == m.remove(key@)
                } else {
                    r == Some(&m[key@].0) && final(self).view_entries() == m.insert(
                        key@,
                        (m[key@].0, now),
                    )
                }
            }),
    {
        let k = key.to_owned();
        let i = match self.position(&k) {
            Some(i) => i,
            None => return None,
        };
        proof {
            lemma_lookup(self.entries@, i as int);
        }
        if self.expired(self.entries[i].last_used, now) {
            proof {
                lemma_remove(self.entries@, i as int);
            }
            self.entries.remove(i);
            return None;
        }
        proof {
            let s = self.entries@;
            let e = CacheEntry { key: s[i as int].key, value: s[i as int].value, last_used: now };
            lemma_update(s, i as int, e);
        }
        self.entries[i].last_used = now;
        Some(&self.entries[i].value)
    }

    /// Stores `value` under `key` as used at `now`, after dropping the expired
    /// entries and, when the cache is still full, the least recently used one.
    pub fn insert(&mut self, key: String, value: T, now: u64)
        requires
            old(self).wf(),
        ensures
            final(self).wf(),
            final(self).capacity() == old(self).capacity(),
            final(self).time_to_live() == old(self).time_to_live(),
            ({
                let fresh = unexpired(old(self).view_entries(), now, old(self).time_to_live());
                if fresh.len() >= old(self).capacity() {
                    exists|k: Seq<char>|
                        #[trigger] is_oldest(fresh, k) && final(self).view_entries() == fresh.remove(k).insert(
                            key@,
                            (value, now),
                        )
                } else {
                    final(self).view_entries() == fresh.insert(key@, (value, now))
                }
            }),
    {
        self.cleanup_expired(now);
        proof {
            lemma_len(self.entries@);
        }
        let ghost fresh = self.view_entries();
        let full = self.entries.len() >= self.max_size;
        if full {
            self.remove_oldest();
        }
        let ghost trimmed = self.view_entries();
        match self.position(&key) {
            Some(i) => {
                let entry = CacheEntry { key, value, last_used: now };
                proof {
                    lemma_update(self.entries@, i as int, entry);
                }
                self.entries.set(i, entry);
            },
            None => {
                let entry = CacheEntry { key, value, last_used: now };
                proof {
                    lemma_push(self.entries@, entry);
                }
                self.entries.push(entry);
            },
        }
        proof {
            assert(self.view_entries() == trimmed.insert(key@, (value, now)));
            if full {
                assert(exists|k: Seq<char>| #[trigger] is_oldest(fresh, k) && trimmed == fresh.remove(k));
                let oldest = choose|k: Seq<char>| #[trigger] is_oldest(fresh, k) && trimmed == fresh.remove(k);
                assert(self.view_entries() == fresh.remove(oldest).insert(key@, (value, now)));
            } else {
                assert(trimmed == fresh);
            }
        }
    }
}

// ---------------------------------------------------------------------------
// Session
// ---------------------------------------------------------------------------

/// How often the window list is refreshed, in milliseconds.
pub const REFRESH_INTERVAL_MS: u64 = 5_000;

/// How long the outcome of an action stays on screen, in milliseconds.
pub const STATUS_TTL_MS: u64 = 4_000;

/// Milliseconds from `since` to `now`; none when the clock reads earlier.
pub open spec fn elapsed(since: u64, now: u64) -> u64 {
    if now >= since {
        (now - since) as u64
    } else {
        0
    }
}

fn elapsed_ms(since: u64, now: u64) -> (r: u64)
    ensures
        r == elapsed(since, now),
{
    if now >= since {
        now - since
    } else {
        0
    }
}

/// The outcome of the last action, as shown under the controls.
#[derive(Debug, Clone)]
pub struct StatusLine {
    pub message: String,
    pub is_error: bool,
    pub shown_at: u64,
}

/// What the interface remembers between frames besides the windows and the
/// placement. The window is selected by handle, never by list index: the list
/// is rebuilt and re-sorted every few seconds, so an index could silently come
/// to mean a different application.
#[derive(Debug, Clone)]
pub struct Session {
    pub selected_hwnd: Option<isize>,
    pub selected_display: Option<usize>,
    pub last_refresh: u64,
    pub needs_repaint: bool,
    pub status: Option<StatusLine>,
}

/// A saved display index can outlive the monitor it referred to: it is
/// clamped to the last display, and there is no selection without displays.
pub open spec fn clamped_display(saved: usize, count: usize) -> Option<usize> {
    if count == 0 {
        None
    } else if saved <= count - 1 {
        Some(saved)
    } else {
        Some((count - 1) as usize)
    }
}

/// The display chosen at start-up is the saved one whenever it still exists;
/// a saved index past the displays found falls back to the last display, and
/// with no display there is no selection. Whatever is chosen names a display.
pub proof fn the_saved_display_is_kept_when_it_exists(saved: usize, count: usize)
    ensures
        count == 0 <==> clamped_display(saved, count) is None,
        match clamped_display(saved, count) {
            Some(i) => {
                &&& i < count
                &&& saved < count ==> i == saved
                &&& saved >= count ==> i == count - 1
            },
            None => true,
        },
{
}

/// The text shown after an action succeeded on the window titled `title`.
pub open spec fn success_message(title: Seq<char>, restoring: bool) -> Seq<char> {
    if restoring {
        "Restored borders on "@ + title
    } else {
        "Made borderless: "@ + title
    }
}

/// The text shown after an action failed on the window titled `title`.
pub open spec fn failure_message(title: Seq<char>, error: Seq<char>) -> Seq<char> {
    title + ": "@ + error
}

/// The title used in the status line: the window's, or a stand-in when it is
/// no longer listed.
pub open spec fn action_title(ws: Seq<WindowInfo>, hwnd: isize) -> Seq<char> {
    match window_with(ws, hwnd) {
        Some(w) => w.title@,
        None => "selected window"@,
    }
}

pub fn title_for_action(windows: &[WindowInfo], hwnd: isize) -> (r: String)
    ensures
        r@ == action_title(windows@, hwnd),
{
    match find_window(windows, hwnd) {
        Some(i) => windows[i].title.clone(),
        None => {
            let mut s = String::new();
            push_str(&mut s, "selected window");
            s
        },
    }
}

impl Session {
    /// The state at start-up, with the saved display index clamped to the
    /// displays found.
    pub fn new(saved_display_index: usize, display_count: usize, now: u64) -> (r: Session)
        ensures
            r.selected_hwnd is None,
            r.selected_display == clamped_display(saved_display_index, display_count),
            r.last_refresh == now,
            !r.needs_repaint,
            r.status is None,
    {
        let selected_display = if display_count == 0 {
            None
        } else if saved_display_index <= display_count - 1 {
            Some(saved_display_index)
        } else {
            Some(display_count - 1)
        };
        Session {
            selected_hwnd: None,
            selected_display,
            last_refresh: now,
            needs_repaint: false,
            status: None,
        }
    }

    /// A new window list arrived at `now`: the selection is kept only while its
    /// window is still listed.
    pub fn after_refresh(&mut self, listed: &[WindowInfo], now: u64)
        ensures
            final(self).last_refresh == now,
            final(self).needs_repaint,
            final(self).selected_hwnd == match old(self).selected_hwnd {
                Some(h) => if window_with(listed@, h) is Some {
                    Some(h)
                } else {
                    None
                },
                None => None,
            },
            final(self).selected_display == old(self).selected_display,
            final(self).status == old(self).status,
    {
        self.last_refresh = now;
        self.needs_repaint = true;
        match self.selected_hwnd {
            Some(h) => {
                if find_window(listed, h).is_none() {
                    self.selected_hwnd = None;
                }
            },
            None => {},
        }
    }

    /// The scan ended at `now` without a result: the timer starts over so a new
    /// scan can be started instead of waiting on it forever.
    pub fn after_lost_refresh(&mut self, now: u64)
        ensures
            *final(self) == (Session { last_refresh: now, ..*old(self) }),
    {
        self.last_refresh = now;
    }

    /// A new scan is due: none is running and the interval has passed.
    pub fn refresh_due(&self, scan_running: bool, now: u64) -> (r: bool)
        ensures
            r == (!scan_running && elapsed(self.last_refresh, now) >= REFRESH_INTERVAL_MS),
    {
        !scan_running && elapsed_ms(self.last_refresh, now) >= REFRESH_INTERVAL_MS
    }

    /// The refresh key was pressed.
    pub fn on_refresh_key(&mut self)
        ensures
            *final(self) == (Session { needs_repaint: true, ..*old(self) }),
    {
        self.needs_repaint = true;
    }

    /// The escape key was pressed: the selection is cleared.
    pub fn on_escape_key(&mut self)
        ensures
            *final(self) == (Session { needs_repaint: true, selected_hwnd: None, ..*old(self) }),
    {
        self.selected_hwnd = None;
        self.needs_repaint = true;
    }

    /// An action on the window titled `title` ended at `now` with `outcome`
    /// (the error's text on failure); `restoring` tells whether it put back a
    /// saved frame.
    pub fn after_action(&mut self, title: &String, restoring: bool, outcome: &Result<(), String>, now: u64)
        ensures
            final(self).needs_repaint,
            final(self).selected_hwnd == old(self).selected_hwnd,
            final(self).selected_display == old(self).selected_display,
            final(self).last_refresh == old(self).last_refresh,
            match final(self).status {
                Some(line) => {
                    &&& line.shown_at == now
                    &&& match outcome {
                        Ok(()) => !line.is_error && line.message@ == success_message(
                            title@,
                            restoring,
                        ),
                        Err(e) => line.is_error && line.message@ == failure_message(title@, e@),
                    }
                },
                None => false,
            },
    {
        let mut message = String::new();
        let is_error = match outcome {
            Ok(()) => {
                if restoring {
                    push_str(&mut message, "Restored borders on ");
                } else {
                    push_str(&mut message, "Made borderless: ");
                }
                push_str(&mut message, title.as_str());
                false
            },
            Err(e) => {
                push_str(&mut message, title.as_str());
                push_str(&mut message, ": ");
                push_str(&mut message, e.as_str());
                true
            },
        };
        self.status = Some(StatusLine { message, is_error, shown_at: now });
        self.needs_repaint = true;
    }

    /// The status line to show at `now`; once it has been on screen for its
    /// time it is dropped.
    pub fn current_status(&mut self, now: u64) -> (r: Option<&StatusLine>)
        ensures
            final(self).selected_hwnd == old(self).selected_hwnd,
            final(self).selected_display == old(self).selected_display,
            final(self).last_refresh == old(self).last_refresh,
            final(self).needs_repaint == old(self).needs_repaint,
            match old(self).status {
                Some(line) => if elapsed(line.shown_at, now) >= STATUS_TTL_MS {
                    r is None && final(self).status is None
                } else {
                    r == Some(&line) && final(self).status == old(self).status
                },
                None => r is None && final(self).status is None,
            },
    {
        let expired = match &self.status {
            Some(line) => elapsed_ms(line.shown_at, now) >= STATUS_TTL_MS,
            None => return None,
        };
        if expired {
            self.status = None;
            return None;
        }
        self.status.as_ref()
    }

    /// Whether to redraw soon rather than at the next refresh; the request is
    /// cleared.
    pub fn take_repaint(&mut self) -> (r: bool)
        ensures
            r == old(self).needs_repaint,
            *final(self) == (Session { needs_repaint: false, ..*old(self) }),
    {
        let r = self.needs_repaint;
        self.needs_repaint = false;
        r
    }

    /// The settings to save: the placement, and the selected display (the
    /// first when none is selected).
    pub fn config_to_save(&self, placement: &Placement) -> (r: Config)
        ensures
            r == (Config {
                placement: *placement,
                display_index: match self.selected_display {
                    Some(i) => i,
                    None => 0,
                },
            }),
    {
        let display_index = match self.selected_display {
            Some(i) => i,
            None => 0,
        };
        Config { placement: *placement, display_index }
    }
}

} // verus!
