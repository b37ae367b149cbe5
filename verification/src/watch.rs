//! Decisions of the file watcher: which paths are editor artifacts, how
//! watched paths are shown.

use vstd::prelude::*;
use crate::utils::path::{extension, file_name, path_extension, path_file_name, path_stripped, strip_prefix};
use crate::utils::keyed::{distinct_keys, entries_map, find_entry, lemma_entry_found, remove_entry, set_entry};
use crate::utils::text::{ends_with, from_chars, has_prefix, has_suffix, push_all, starts_with, str_eq, to_chars};
use crate::utils::rss::{decimal, decimal_chars};

verus! {

/// The extensions of editor backup and swap files.
pub open spec fn is_temp_extension(e: Seq<char>) -> bool {
    e == "bck"@ || e == "bak"@ || e == "backup"@ || e == "swp"@ || e == "swo"@ || e == "tmp"@
}

/// The text of an optional component, empty when there is none.
pub open spec fn or_empty(o: Option<Seq<char>>) -> Seq<char> {
    match o {
        Some(s) => s,
        None => seq![],
    }
}

/// Whether a path is a temporary or backup file left by an editor: a backup
/// or swap extension, a name ending in `~`, or a hidden name.
pub open spec fn is_temp_path(path: Seq<char>) -> bool {
    let name = or_empty(path_file_name(path));
    let ext = or_empty(path_extension(path));
    is_temp_extension(ext) || has_suffix(name, seq!['~']) || has_prefix(name, seq!['.'])
}

/// Checks whether a path is a temp or backup file (an editor artifact).
pub fn is_temp_file(path: &str) -> (b: bool)
    ensures
        b == is_temp_path(path@),
{
    let name = match file_name(path) {
        Some(n) => n,
        None => String::new(),
    };
    let ext = match extension(path) {
        Some(e) => e,
        None => String::new(),
    };
    let e = ext.as_str();
    let temp_ext = str_eq(e, "bck") || str_eq(e, "bak") || str_eq(e, "backup") || str_eq(e, "swp")
        || str_eq(e, "swo") || str_eq(e, "tmp");
    let n = to_chars(name.as_str());
    let tilde: Vec<char> = vec!['~'];
    let dot: Vec<char> = vec!['.'];
    assert(tilde@ =~= seq!['~']);
    assert(dot@ =~= seq!['.']);
    temp_ext || ends_with(&n, &tilde) || starts_with(&n, &dot)
}

/// A path shown relative to the root (as it is when it lies outside the
/// root), with a trailing `/` for a directory.
pub open spec fn relative_display(path: Seq<char>, root: Seq<char>, is_dir: bool) -> Seq<char> {
    let rel = match path_stripped(path, root) {
        Some(r) => r,
        None => path,
    };
    if is_dir {
        rel.push('/')
    } else {
        rel
    }
}

/// Formats a path relative to the root, with a trailing slash for
/// directories.
pub fn format_rel(path: &str, root: &str, is_dir: bool) -> (r: String)
    ensures
        r@ == relative_display(path@, root@, is_dir),
{
    let rel = match strip_prefix(path, root) {
        Some(r) => r,
        None => path.to_string(),
    };
    let mut out = to_chars(rel.as_str());
    if is_dir {
        out.push('/');
    }
    from_chars(&out)
}


/// Quiet time after the last file event before a batch of changes is
/// handled, in milliseconds.
pub const DEBOUNCE_MS: u64 = 300;

/// Time after a full rebuild during which new events wait, in milliseconds.
pub const REBUILD_COOLDOWN_MS: u64 = 800;

/// How long the watcher waits for events when nothing is pending, in
/// milliseconds.
pub const IDLE_TIMEOUT_MS: u64 = 60000;

/// Milliseconds from `t` to `now`; zero when `now` is earlier (as a
/// monotonic clock's elapsed time is).
pub open spec fn elapsed(t: u64, now: u64) -> int {
    if now >= t {
        now - t
    } else {
        0
    }
}

/// Whether the last event, if any, is at least the debounce time ago.
pub open spec fn quiet_since(last_event: Option<u64>, now: u64) -> bool {
    match last_event {
        Some(t) => elapsed(t, now) >= DEBOUNCE_MS,
        None => false,
    }
}

/// Whether the last rebuild, if any, is less than the cooldown ago.
pub open spec fn cooling_down(last_rebuild: Option<u64>, now: u64) -> bool {
    match last_rebuild {
        Some(t) => elapsed(t, now) < REBUILD_COOLDOWN_MS,
        None => false,
    }
}

/// Batches rapid file events: paths wait until events stop for a while, and
/// a rebuild starts a cooldown. Times are milliseconds of a monotonic clock.
pub struct Debouncer {
    pending: Vec<String>,
    last_event: Option<u64>,
    last_rebuild: Option<u64>,
}

impl Debouncer {
    #[verifier::type_invariant]
    spec fn wf(self) -> bool {
        forall|i: int, j: int| 0 <= i < j < self.pending@.len() ==> self.pending@[i]@ != self.pending@[j]@
    }

    /// The paths waiting to be handled.
    pub closed spec fn pending_paths(&self) -> Set<Seq<char>> {
        self.pending@.map_values(|s: String| s@).to_set()
    }

    /// When the last event came, since the last batch was taken.
    pub closed spec fn last_event_at(&self) -> Option<u64> {
        self.last_event
    }

    /// When the last full rebuild happened.
    pub closed spec fn last_rebuild_at(&self) -> Option<u64> {
        self.last_rebuild
    }

    /// Nothing pending, no event, no rebuild.
    pub fn new() -> (r: Debouncer)
        ensures
            r.pending_paths() == Set::<Seq<char>>::empty(),
            r.last_event_at() is None,
            r.last_rebuild_at() is None,
    {
        let r = Debouncer { pending: Vec::new(), last_event: None, last_rebuild: None };
        assert(r.pending_paths() =~= Set::<Seq<char>>::empty());
        r
    }

    /// Whether a rebuild happened less than the cooldown ago.
    pub fn in_cooldown(&self, now: u64) -> (r: bool)
        ensures
            r == cooling_down(self.last_rebuild_at(), now),
    {
        match self.last_rebuild {
            Some(t) => now.saturating_sub(t) < REBUILD_COOLDOWN_MS,
            None => false,
        }
    }

    /// Adds the paths of an event, leaving out editor artifacts, and notes
    /// the event's time.
    pub fn add(&mut self, paths: &[String], now: u64)
        ensures
            final(self).pending_paths() == old(self).pending_paths().union(
                paths@.map_values(|s: String| s@).to_set().filter(|p: Seq<char>| !is_temp_path(p)),
            ),
            final(self).last_event_at() == Some(now),
            final(self).last_rebuild_at() == old(self).last_rebuild_at(),
    {
        proof {
            use_type_invariant(&*self);
        }
        let ghost start = self.pending_paths();
        let mut i: usize = 0;
        while i < paths.len()
            invariant
                i <= paths@.len(),
                self.last_rebuild == old(self).last_rebuild,
                start == old(self).pending_paths(),
                self.pending_paths() == start.union(
                    paths@.subrange(0, i as int).map_values(|s: String| s@).to_set().filter(
                        |p: Seq<char>| !is_temp_path(p),
                    ),
                ),
            decreases paths.len() - i,
        {
            let ghost before = self.pending_paths();
            let ghost added = paths@.subrange(0, i as int).map_values(|s: String| s@).to_set().filter(
                |p: Seq<char>| !is_temp_path(p),
            );
            let ghost p = paths@[i as int]@;
            if !is_temp_file(paths[i].as_str()) {
                self.insert_pending(paths[i].as_str());
            }
            proof {
                let next = paths@.subrange(0, i + 1).map_values(|s: String| s@);
                assert(next =~= paths@.subrange(0, i as int).map_values(|s: String| s@).push(p));
                lemma_push_to_set(paths@.subrange(0, i as int).map_values(|s: String| s@), p);
                assert(next.to_set().filter(|q: Seq<char>| !is_temp_path(q)) =~= if is_temp_path(p) {
                    added
                } else {
                    added.insert(p)
                });
                assert(self.pending_paths() =~= start.union(next.to_set().filter(|q: Seq<char>| !is_temp_path(q))));
            }
            i = i + 1;
        }
        assert(paths@.subrange(0, paths@.len() as int) =~= paths@);
        proof {
            use_type_invariant(&*self);
        }
        self.last_event = Some(now);
    }

    fn insert_pending(&mut self, path: &str)
        ensures
            final(self).pending_paths() == old(self).pending_paths().insert(path@),
            final(self).last_event == old(self).last_event,
            final(self).last_rebuild == old(self).last_rebuild,
    {
        proof {
            use_type_invariant(&*self);
        }
        let ghost before = self.pending@;
        let mut i: usize = 0;
        while i < self.pending.len()
            invariant
                i <= self.pending@.len(),
                self.pending@ == before,
                forall|j: int| 0 <= j < i ==> #[trigger] before[j]@ != path@,
            decreases self.pending.len() - i,
        {
            if str_eq(self.pending[i].as_str(), path) {
                proof {
                    assert(before.map_values(|s: String| s@)[i as int] == path@);
                    assert(self.pending_paths() =~= self.pending_paths().insert(path@));
                }
                return;
            }
            i = i + 1;
        }
        let mut pending: Vec<String> = Vec::new();
        std::mem::swap(&mut pending, &mut self.pending);
        pending.push(path.to_owned());
        proof {
            assert(pending@.map_values(|s: String| s@) =~= before.map_values(|s: String| s@).push(path@));
            lemma_push_to_set(before.map_values(|s: String| s@), path@);
        }
        self.pending = pending;
    }

    /// Whether a batch is due: paths are pending and the last event is at
    /// least the debounce time ago.
    pub fn ready(&self, now: u64) -> (r: bool)
        ensures
            r == (self.pending_paths().len() > 0 && quiet_since(self.last_event_at(), now)),
    {
        proof {
            use_type_invariant(self);
            lemma_distinct_to_set_len(self.pending@.map_values(|s: String| s@));
        }
        self.pending.len() > 0 && match self.last_event {
            Some(t) => now.saturating_sub(t) >= DEBOUNCE_MS,
            None => false,
        }
    }

    /// Takes the pending paths (each once) and forgets the last event.
    pub fn take(&mut self) -> (r: Vec<String>)
        ensures
            r@.map_values(|s: String| s@).to_set() == old(self).pending_paths(),
            forall|i: int, j: int| 0 <= i < j < r@.len() ==> r@[i]@ != r@[j]@,
            final(self).pending_paths() == Set::<Seq<char>>::empty(),
            final(self).last_event_at() is None,
            final(self).last_rebuild_at() == old(self).last_rebuild_at(),
    {
        proof {
            use_type_invariant(&*self);
        }
        let mut r: Vec<String> = Vec::new();
        std::mem::swap(&mut r, &mut self.pending);
        self.last_event = None;
        assert(self.pending_paths() =~= Set::<Seq<char>>::empty());
        r
    }

    /// Notes a full rebuild, which starts the cooldown.
    pub fn mark_rebuild(&mut self, now: u64)
        ensures
            final(self).pending_paths() == old(self).pending_paths(),
            final(self).last_event_at() == old(self).last_event_at(),
            final(self).last_rebuild_at() == Some(now),
    {
        proof {
            use_type_invariant(&*self);
        }
        self.last_rebuild = Some(now);
    }

    /// How long to wait for the next event: the debounce time when paths are
    /// pending, else the idle timeout.
    pub fn timeout_ms(&self) -> (r: u64)
        ensures
            r == if self.pending_paths().len() == 0 {
                IDLE_TIMEOUT_MS
            } else {
                DEBOUNCE_MS
            },
    {
        proof {
            use_type_invariant(self);
            lemma_distinct_to_set_len(self.pending@.map_values(|s: String| s@));
        }
        if self.pending.len() == 0 {
            IDLE_TIMEOUT_MS
        } else {
            DEBOUNCE_MS
        }
    }
}

/// A sequence's set has an element when the sequence is not empty, and
/// none when it is.
proof fn lemma_distinct_to_set_len(s: Seq<Seq<char>>)
    ensures
        s.len() == 0 <==> s.to_set().len() == 0,
{
    if s.len() == 0 {
        assert(s.to_set() =~= Set::<Seq<char>>::empty());
    } else {
        assert(s.to_set().contains(s[0]));
        vstd::seq_lib::seq_to_set_is_finite(s);
        if s.to_set().len() == 0 {
            s.to_set().lemma_len0_is_empty();
        }
    }
}

proof fn lemma_push_to_set(s: Seq<Seq<char>>, x: Seq<char>)
    ensures
        s.push(x).to_set() == s.to_set().insert(x),
{
    assert forall|y: Seq<char>| #[trigger] s.push(x).to_set().contains(y) <==> s.to_set().insert(x).contains(y) by {
        if s.push(x).contains(y) && y != x {
            let k = choose|k: int| 0 <= k < s.push(x).len() && s.push(x)[k] == y;
            assert(s[k] == y);
        }
        if s.contains(y) {
            let k = choose|k: int| 0 <= k < s.len() && s[k] == y;
            assert(s.push(x)[k] == y);
        }
        if y == x {
            assert(s.push(x)[s.len() as int] == y);
        }
    }
    assert(s.push(x).to_set() =~= s.to_set().insert(x));
}


/// What the watcher finds at a changed path.
#[derive(Clone, Copy, Debug, PartialEq, Eq, Structural)]
pub enum FileState {
    /// The path no longer exists.
    Missing,
    /// The file cannot be opened or read.
    Unreadable,
    /// The file's content hash.
    Hashed(u64),
}

/// Observing one path: the hash cache afterwards, and whether the path
/// counts as changed. A missing file is forgotten and changed, an
/// unreadable one is changed, and a readable one is unchanged exactly when
/// its hash is the cached one (otherwise its hash is cached).
pub open spec fn observe(cache: Map<Seq<char>, u64>, path: Seq<char>, state: FileState) -> (Map<Seq<char>, u64>, bool) {
    match state {
        FileState::Missing => (cache.remove(path), true),
        FileState::Unreadable => (cache, true),
        FileState::Hashed(h) => if cache.contains_key(path) && cache[path] == h {
            (cache, false)
        } else {
            (cache.insert(path, h), true)
        },
    }
}

/// Observing paths in order: the cache afterwards, the changed paths and
/// the unchanged ones, each in order.
pub open spec fn observe_all(cache: Map<Seq<char>, u64>, observed: Seq<(String, FileState)>) -> (
    Map<Seq<char>, u64>,
    Seq<Seq<char>>,
    Seq<Seq<char>>,
)
    decreases observed.len(),
{
    if observed.len() == 0 {
        (cache, seq![], seq![])
    } else {
        let (m, c, u) = observe_all(cache, observed.drop_last());
        let (p, state) = observed.last();
        let (m2, changed) = observe(m, p@, state);
        if changed {
            (m2, c.push(p@), u)
        } else {
            (m2, c, u.push(p@))
        }
    }
}

/// The cache after recording the hashes of files, skipping editor
/// artifacts; a later hash of a path wins.
pub open spec fn populated(cache: Map<Seq<char>, u64>, files: Seq<(String, u64)>) -> Map<Seq<char>, u64>
    decreases files.len(),
{
    if files.len() == 0 {
        cache
    } else {
        let m = populated(cache, files.drop_last());
        let (p, h) = files.last();
        if is_temp_path(p@) {
            m
        } else {
            m.insert(p@, h)
        }
    }
}

/// Paths split into those whose content changed and those only touched.
pub struct FilterResult {
    pub changed: Vec<String>,
    pub unchanged: Vec<String>,
}

/// The content hash of each watched file, so that a file touched without
/// a change of content does not cause a rebuild.
pub struct ContentCache {
    hashes: Vec<(String, u64)>,
}

impl View for ContentCache {
    type V = Map<Seq<char>, u64>;

    closed spec fn view(&self) -> Map<Seq<char>, u64> {
        entries_map(self.hashes@)
    }
}

impl ContentCache {
    #[verifier::type_invariant]
    spec fn wf(self) -> bool {
        distinct_keys(self.hashes@)
    }

    /// An empty cache.
    pub fn new() -> (r: ContentCache)
        ensures
            r@ == Map::<Seq<char>, u64>::empty(),
    {
        ContentCache { hashes: Vec::new() }
    }

    /// Records the hashes of the watched files found at startup (editor
    /// artifacts left out), so that a first touch without a change is
    /// recognized.
    pub fn populate(&mut self, files: &[(String, u64)])
        ensures
            final(self)@ == populated(old(self)@, files@),
    {
        proof {
            use_type_invariant(&*self);
        }
        let mut hashes: Vec<(String, u64)> = Vec::new();
        std::mem::swap(&mut hashes, &mut self.hashes);
        let ghost start = entries_map(hashes@);
        let mut i: usize = 0;
        while i < files.len()
            invariant
                i <= files@.len(),
                distinct_keys(hashes@),
                entries_map(hashes@) == populated(start, files@.subrange(0, i as int)),
            decreases files.len() - i,
        {
            assert(files@.subrange(0, i + 1).drop_last() =~= files@.subrange(0, i as int));
            let (p, h) = (&files[i].0, files[i].1);
            if !is_temp_file(p.as_str()) {
                set_entry(&mut hashes, p.as_str().to_owned(), h);
            }
            i = i + 1;
        }
        assert(files@.subrange(0, files@.len() as int) =~= files@);
        self.hashes = hashes;
    }

    /// Splits observed paths into changed and unchanged ones, updating the
    /// cached hashes as `observe` says.
    pub fn filter(&mut self, observed: &[(String, FileState)]) -> (r: FilterResult)
        ensures
            (final(self)@, r.changed@.map_values(|s: String| s@), r.unchanged@.map_values(|s: String| s@))
                == observe_all(old(self)@, observed@),
    {
        proof {
            use_type_invariant(&*self);
        }
        let mut hashes: Vec<(String, u64)> = Vec::new();
        std::mem::swap(&mut hashes, &mut self.hashes);
        let ghost start = entries_map(hashes@);
        let mut changed: Vec<String> = Vec::new();
        let mut unchanged: Vec<String> = Vec::new();
        let mut i: usize = 0;
        while i < observed.len()
            invariant
                i <= observed@.len(),
                distinct_keys(hashes@),
                (entries_map(hashes@), changed@.map_values(|s: String| s@), unchanged@.map_values(|s: String| s@))
                    == observe_all(start, observed@.subrange(0, i as int)),
            decreases observed.len() - i,
        {
            assert(observed@.subrange(0, i + 1).drop_last() =~= observed@.subrange(0, i as int));
            let (p, state) = (&observed[i].0, observed[i].1);
            let ghost c0 = changed@.map_values(|s: String| s@);
            let ghost u0 = unchanged@.map_values(|s: String| s@);
            let ghost m0 = entries_map(hashes@);
            match state {
                FileState::Missing => {
                    remove_entry(&mut hashes, p.as_str());
                    changed.push(p.as_str().to_owned());
                    assert(changed@.map_values(|s: String| s@) =~= c0.push(p@));
                },
                FileState::Unreadable => {
                    changed.push(p.as_str().to_owned());
                    assert(changed@.map_values(|s: String| s@) =~= c0.push(p@));
                },
                FileState::Hashed(h) => {
                    let same = match find_entry(&hashes, p.as_str()) {
                        Some(k) => {
                            proof {
                                lemma_entry_found(hashes@, k as int);
                            }
                            hashes[k].1 == h
                        },
                        None => {
                            proof {
                                crate::utils::keyed::lemma_entry_absent(hashes@, p@);
                            }
                            false
                        },
                    };
                    if same {
                        unchanged.push(p.as_str().to_owned());
                        assert(unchanged@.map_values(|s: String| s@) =~= u0.push(p@));
                    } else {
                        set_entry(&mut hashes, p.as_str().to_owned(), h);
                        changed.push(p.as_str().to_owned());
                        assert(changed@.map_values(|s: String| s@) =~= c0.push(p@));
                    }
                },
            }
            i = i + 1;
        }
        assert(observed@.subrange(0, observed@.len() as int) =~= observed@);
        self.hashes = hashes;
        FilterResult { changed, unchanged }
    }
}

/// A file touched without a change of content is unchanged, and the cache
/// stays as it is.
pub proof fn law_touch_without_change(cache: Map<Seq<char>, u64>, path: Seq<char>, h: u64)
    requires
        cache.contains_key(path),
        cache[path] == h,
    ensures
        observe(cache, path, FileState::Hashed(h)) == (cache, false),
{
}

/// Seeing the same content twice: the second look finds no change.
pub proof fn law_second_look_unchanged(cache: Map<Seq<char>, u64>, path: Seq<char>, h: u64)
    ensures
        observe(observe(cache, path, FileState::Hashed(h)).0, path, FileState::Hashed(h)).1 == false,
{
}

/// A deleted file always counts as changed and is forgotten.
pub proof fn law_missing_is_changed(cache: Map<Seq<char>, u64>, path: Seq<char>)
    ensures
        observe(cache, path, FileState::Missing).1,
        !observe(cache, path, FileState::Missing).0.contains_key(path),
{
}

// =============================================================================
// Status lines of a rebuild
// =============================================================================

/// The words joined with `sep` between them.
pub open spec fn joined_with(ws: Seq<Seq<char>>, sep: Seq<char>) -> Seq<char>
    decreases ws.len(),
{
    if ws.len() == 0 {
        seq![]
    } else if ws.len() == 1 {
        ws[0]
    } else {
        joined_with(ws.drop_last(), sep) + sep + ws.last()
    }
}

/// The status line after an incremental rebuild of `count` files, `first`
/// naming the first target: `rebuilt: <first>` for one file, else
/// `rebuilt <count> files`.
pub open spec fn rebuild_text(count: nat, first: Seq<char>) -> Seq<char> {
    if count == 1 {
        "rebuilt: "@ + first
    } else {
        "rebuilt "@ + decimal(count) + " files"@
    }
}

/// The status line after an incremental rebuild of `count` files.
pub fn rebuild_message(count: usize, first: &str) -> (r: String)
    ensures
        r@ == rebuild_text(count as nat, first@),
{
    if count == 1 {
        let mut out = to_chars("rebuilt: ");
        push_all(&mut out, &to_chars(first));
        from_chars(&out)
    } else {
        let mut out = to_chars("rebuilt ");
        push_all(&mut out, &decimal_chars(count as u64));
        push_all(&mut out, &to_chars(" files"));
        from_chars(&out)
    }
}

/// The context of a failed rebuild: the changed dependencies when the
/// rebuild was a clean one (dependencies changed), else the rebuilt files,
/// joined with `, `.
pub open spec fn failure_text(clean: bool, triggers: Seq<Seq<char>>, targets: Seq<Seq<char>>) -> Seq<char> {
    "failed: "@ + joined_with(if clean { triggers } else { targets }, ", "@)
}

/// The views of a list of strings.
pub open spec fn names_view(s: Seq<String>) -> Seq<Seq<char>> {
    s.map_values(|x: String| x@)
}

/// The status line of a failed rebuild.
pub fn failure_message(clean: bool, triggers: &[String], targets: &[String]) -> (r: String)
    ensures
        r@ == failure_text(clean, names_view(triggers@), names_view(targets@)),
{
    let names = if clean { triggers } else { targets };
    let mut out = to_chars("failed: ");
    let ghost start = out@;
    let mut i: usize = 0;
    while i < names.len()
        invariant
            i <= names@.len(),
            out@ == start + joined_with(names_view(names@.subrange(0, i as int)), ", "@),
        decreases names@.len() - i,
    {
        let ghost before = out@;
        if i > 0 {
            push_all(&mut out, &to_chars(", "));
        }
        push_all(&mut out, &to_chars(names[i].as_str()));
        proof {
            let pre = names_view(names@.subrange(0, i + 1));
            assert(pre.drop_last() =~= names_view(names@.subrange(0, i as int)));
            assert(pre.last() == names@[i as int]@);
            if i == 0 {
                assert(pre.len() == 1);
                assert(joined_with(names_view(names@.subrange(0, 0)), ", "@) =~= Seq::<char>::empty());
                assert(out@ =~= start + pre[0]);
            } else {
                assert(out@ =~= start + (joined_with(pre.drop_last(), ", "@) + ", "@ + pre.last()));
            }
        }
        i = i + 1;
    }
    assert(names@.subrange(0, i as int) =~= names@);
    from_chars(&out)
}

} // verus!
