//! File watching: glob matching of watched paths and the watcher's settings.

use vstd::prelude::*;
use crate::str_map::{entries_map, keys_distinct, lemma_entries_map, KeyMap};
use crate::text::{
    decimal, u64_to_string, char_index, chars_of, contains, contains_exec, ends_with, find_first, find_from,
    last_char_index, lemma_char_index, lemma_find_first, lemma_last_char_index, occurs_at_exec, starts_with, sub_vec, trim_end_char, trim_start_char,
};

verus! {

/// `*` matches any run of characters, `?` any single character, anything
/// else itself.
pub open spec fn wild_match(p: Seq<char>, t: Seq<char>) -> bool
    decreases p.len() + t.len(),
{
    if p.len() == 0 {
        t.len() == 0
    } else if p.last() == '*' {
        wild_match(p.drop_last(), t) || (t.len() > 0 && wild_match(p, t.drop_last()))
    } else if t.len() == 0 {
        false
    } else if p.last() == '?' || p.last() == t.last() {
        wild_match(p.drop_last(), t.drop_last())
    } else {
        false
    }
}

/// Matches `text` against a pattern of `*` and `?` wildcards.
pub fn simple_pattern_match(pattern: &Vec<char>, text: &Vec<char>) -> (res: bool)
    ensures
        res == wild_match(pattern@, text@),
{
    let n = text.len();
    let mut prev: Vec<bool> = Vec::new();
    prev.push(true);
    assert(pattern@.take(0).len() == 0 && text@.take(0).len() == 0);
    let mut j: usize = 0;
    while j < n
        invariant
            j <= n,
            n == text@.len(),
            prev@.len() == j + 1,
            forall|k: int| 0 <= k <= j ==> prev@[k] == wild_match(pattern@.take(0), #[trigger] text@.take(k)),
        decreases n - j,
    {
        prev.push(false);
        assert(text@.take(j + 1).len() == j + 1);
        j = j + 1;
    }
    let mut i: usize = 0;
    while i < pattern.len()
        invariant
            i <= pattern@.len(),
            n == text@.len(),
            prev@.len() == n + 1,
            forall|k: int| 0 <= k <= n ==> prev@[k] == wild_match(pattern@.take(i as int), #[trigger] text@.take(k)),
        decreases pattern@.len() - i,
    {
        let pc = pattern[i];
        let ghost pi = pattern@.take(i + 1);
        assert(pi.drop_last() =~= pattern@.take(i as int));
        assert(pi.last() == pc);
        let mut cur: Vec<bool> = Vec::new();
        let first = if pc == '*' { prev[0] } else { false };
        cur.push(first);
        let mut k: usize = 0;
        while k < n
            invariant
                k <= n,
                n == text@.len(),
                i < pattern@.len(),
                pi.len() > 0,
                pi.last() == pc,
                pi.drop_last() == pattern@.take(i as int),
                prev@.len() == n + 1,
                forall|q: int| 0 <= q <= n ==> prev@[q] == wild_match(pattern@.take(i as int), #[trigger] text@.take(q)),
                cur@.len() == k + 1,
                forall|q: int| 0 <= q <= k ==> cur@[q] == wild_match(pi, #[trigger] text@.take(q)),
            decreases n - k,
        {
            let ghost tk = text@.take(k + 1);
            assert(tk.drop_last() =~= text@.take(k as int));
            assert(tk.last() == text@[k as int]);
            let v = if pc == '*' {
                prev[k + 1] || cur[k]
            } else if pc == '?' || pc == text[k] {
                prev[k]
            } else {
                false
            };
            cur.push(v);
            k = k + 1;
        }
        prev = cur;
        i = i + 1;
    }
    assert(pattern@.take(pattern@.len() as int) =~= pattern@);
    assert(text@.take(n as int) =~= text@);
    prev[n]
}


/// Text before the first `/`.
pub open spec fn first_segment(s: Seq<char>) -> Seq<char> {
    s.take(char_index(s, '/'))
}

/// Text after the last `/`.
pub open spec fn last_segment(s: Seq<char>) -> Seq<char> {
    s.skip(last_char_index(s, '/') + 1)
}

/// The path starts with `prefix`, or its first segment matches it.
pub open spec fn starts_glob(path: Seq<char>, prefix: Seq<char>) -> bool {
    starts_with(path, prefix) || wild_match(prefix, first_segment(path))
}

/// The file name or the whole path matches `suffix`.
pub open spec fn ends_glob(path: Seq<char>, suffix: Seq<char>) -> bool {
    wild_match(suffix, last_segment(path)) || wild_match(suffix, path)
}

/// Glob matching with `*`, `?` and `**`: a pattern `**/dir/**` matches any
/// path inside a `dir` component; one `**` splits the pattern into a prefix
/// and a suffix matched at the path's start and end; anything else is matched
/// with wildcards against the whole path.
pub open spec fn glob_match(pat: Seq<char>, path: Seq<char>) -> bool {
    let r = pat.skip(3);
    if starts_with(pat, "**/"@) && ends_with(r, "/**"@) {
        let core = r.take(r.len() - 3);
        path == core || starts_with(path, core + "/"@) || contains(path, "/"@ + core + "/"@)
    } else {
        let a = find_first(pat, "**"@, 0);
        let rest = pat.skip(a + 2);
        if a >= 0 && !contains(rest, "**"@) {
            let prefix = trim_end_char(pat.take(a), '/');
            let suffix = trim_start_char(rest, '/');
            if prefix.len() == 0 && suffix.len() == 0 {
                true
            } else if prefix.len() == 0 {
                ends_glob(path, suffix)
            } else if suffix.len() == 0 {
                starts_glob(path, prefix)
            } else {
                starts_glob(path, prefix) && ends_glob(path, suffix)
            }
        } else {
            wild_match(pat, path)
        }
    }
}

fn first_segment_exec(path: &Vec<char>) -> (res: Vec<char>)
    ensures
        res@ == first_segment(path@),
{
    let mut i: usize = 0;
    while i < path.len() && path[i] != '/'
        invariant
            i <= path@.len(),
            forall|j: int| 0 <= j < i ==> path@[j] != '/',
        decreases path@.len() - i,
    {
        i = i + 1;
    }
    proof {
        lemma_char_index(path@, '/', i as int);
    }
    sub_vec(path, 0, i)
}

fn last_segment_exec(path: &Vec<char>) -> (res: Vec<char>)
    ensures
        res@ == last_segment(path@),
{
    let mut i: usize = path.len();
    while i > 0 && path[i - 1] != '/'
        invariant
            i <= path@.len(),
            forall|j: int| i <= j < path@.len() ==> path@[j] != '/',
        decreases i,
    {
        i = i - 1;
    }
    proof {
        lemma_last_char_index(path@, '/', i - 1);
    }
    assert(path@.subrange(i as int, path@.len() as int) =~= path@.skip(i as int));
    sub_vec(path, i, path.len())
}

fn starts_glob_exec(path: &Vec<char>, prefix: &Vec<char>) -> (res: bool)
    ensures
        res == starts_glob(path@, prefix@),
{
    if occurs_at_exec(path, prefix, 0) {
        return true;
    }
    let seg = first_segment_exec(path);
    simple_pattern_match(prefix, &seg)
}

fn ends_glob_exec(path: &Vec<char>, suffix: &Vec<char>) -> (res: bool)
    ensures
        res == ends_glob(path@, suffix@),
{
    let seg = last_segment_exec(path);
    simple_pattern_match(suffix, &seg) || simple_pattern_match(suffix, path)
}

/// Whether `path` matches the glob `pattern`; see [`glob_match`].
#[verifier::rlimit(40)]
pub fn simple_glob_match(pattern: &str, path: &str) -> (res: bool)
    ensures
        res == glob_match(pattern@, path@),
{
    proof {
        reveal_strlit("**/");
        reveal_strlit("/**");
        reveal_strlit("**");
        reveal_strlit("/");
    }
    let pat = chars_of(pattern);
    let pv = chars_of(path);
    let ghost p = pat@;
    let ghost r = p.skip(3);
    let head = chars_of("**/");
    let tail = chars_of("/**");
    if pat.len() >= 6 && occurs_at_exec(&pat, &head, 0) && occurs_at_exec(&pat, &tail, pat.len() - 3) {
        assert(starts_with(p, "**/"@));
        assert(ends_with(r, "/**"@)) by {
            assert(r.subrange(r.len() - 3, r.len() as int) =~= p.subrange(p.len() - 3, p.len() as int));
        }
        let core = sub_vec(&pat, 3, pat.len() - 3);
        assert(core@ =~= r.take(r.len() - 3));
        if pv.len() == core.len() && occurs_at_exec(&pv, &core, 0) {
            assert(pv@ =~= core@);
            return true;
        }
        assert(pv@ != core@) by {
            if pv@ == core@ {
                assert(pv@.subrange(0, core@.len() as int) =~= pv@);
            }
        }
        let mut with_slash = core.clone();
        with_slash.push('/');
        assert(with_slash@ =~= core@ + "/"@);
        if occurs_at_exec(&pv, &with_slash, 0) {
            return true;
        }
        let mut wrapped: Vec<char> = Vec::new();
        wrapped.push('/');
        let mut q: usize = 0;
        while q < core.len()
            invariant
                q <= core@.len(),
                wrapped@ == seq!['/'] + core@.take(q as int),
            decreases core@.len() - q,
        {
            wrapped.push(core[q]);
            assert(core@.take(q + 1) =~= core@.take(q as int).push(core@[q as int]));
            q = q + 1;
        }
        wrapped.push('/');
        assert(core@.take(q as int) =~= core@);
        assert(wrapped@ =~= "/"@ + core@ + "/"@);
        return contains_exec(&pv, &wrapped);
    }
    assert(!(starts_with(p, "**/"@) && ends_with(r, "/**"@))) by {
        if starts_with(p, "**/"@) && ends_with(r, "/**"@) {
            assert(r.subrange(r.len() - 3, r.len() as int) =~= p.subrange(p.len() - 3, p.len() as int));
        }
    }
    let stars = chars_of("**");
    let found = find_from(&pat, &stars, 0);
    proof {
        lemma_find_first(p, "**"@, 0, match found { Some(i) => Some(i as int), None => None });
    }
    match found {
        Some(a) => {
            let rest = sub_vec(&pat, a + 2, pat.len());
            assert(rest@ =~= p.skip(a + 2));
            if !contains_exec(&rest, &stars) {
                let mut pe = a;
                assert(p.take(a as int) =~= p.subrange(0, a as int));
                while pe > 0 && pat[pe - 1] == '/'
                    invariant
                        pe <= a < p.len(),
                        p == pat@,
                        trim_end_char(p.take(a as int), '/') == trim_end_char(p.subrange(0, pe as int), '/'),
                    decreases pe,
                {
                    assert(p.subrange(0, pe as int).drop_last() =~= p.subrange(0, pe - 1));
                    pe = pe - 1;
                }
                let mut ss: usize = 0;
                assert(rest@.subrange(0, rest@.len() as int) =~= rest@);
                while ss < rest.len() && rest[ss] == '/'
                    invariant
                        ss <= rest@.len(),
                        trim_start_char(rest@, '/') == trim_start_char(rest@.subrange(ss as int, rest@.len() as int), '/'),
                    decreases rest@.len() - ss,
                {
                    assert(rest@.subrange(ss as int, rest@.len() as int).drop_first() =~= rest@.subrange(ss + 1, rest@.len() as int));
                    ss = ss + 1;
                }
                let prefix = sub_vec(&pat, 0, pe);
                let suffix = sub_vec(&rest, ss, rest.len());
                assert(trim_end_char(prefix@, '/') == prefix@);
                assert(trim_start_char(suffix@, '/') == suffix@);
                if prefix.len() == 0 && suffix.len() == 0 {
                    return true;
                }
                if prefix.len() == 0 {
                    return ends_glob_exec(&pv, &suffix);
                }
                if suffix.len() == 0 {
                    return starts_glob_exec(&pv, &prefix);
                }
                return starts_glob_exec(&pv, &prefix) && ends_glob_exec(&pv, &suffix);
            }
        },
        None => {},
    }
    simple_pattern_match(&pat, &pv)
}


/// Watcher settings.
#[derive(Debug, Clone)]
pub struct WatcherConfig {
    /// Debounce interval in milliseconds.
    pub debounce_ms: u64,
    /// Glob patterns of watched files.
    pub include_patterns: Vec<String>,
    /// Glob patterns of ignored paths.
    pub ignore_patterns: Vec<String>,
    /// Most files tracked.
    pub max_files: usize,
    /// Whether watching is on.
    pub enabled: bool,
}

fn push_str_vec(v: &mut Vec<String>, s: &str)
    ensures
        final(v).deep_view() == old(v).deep_view().push(s@),
{
    let ghost before = v.deep_view();
    v.push(String::from_str(s));
    assert(v.deep_view() =~= before.push(s@));
}

impl Default for WatcherConfig {
    fn default() -> (res: Self)
        ensures
            res.debounce_ms == 300,
            res.include_patterns.deep_view() == seq!["**/*.rs"@, "**/*.toml"@, "**/*.md"@, "**/*.json"@, "**/*.yaml"@, "**/*.yml"@],
            res.ignore_patterns.deep_view() == seq!["**/target/**"@, "**/.git/**"@, "**/node_modules/**"@, "**/.orch/**"@],
            res.max_files == 10_000,
            res.enabled,
    {
        let mut watched: Vec<String> = Vec::new();
        assert(watched.deep_view() =~= seq![]);
        push_str_vec(&mut watched, "**/*.rs");
        push_str_vec(&mut watched, "**/*.toml");
        push_str_vec(&mut watched, "**/*.md");
        push_str_vec(&mut watched, "**/*.json");
        push_str_vec(&mut watched, "**/*.yaml");
        push_str_vec(&mut watched, "**/*.yml");
        let mut ignore: Vec<String> = Vec::new();
        assert(ignore.deep_view() =~= seq![]);
        push_str_vec(&mut ignore, "**/target/**");
        push_str_vec(&mut ignore, "**/.git/**");
        push_str_vec(&mut ignore, "**/node_modules/**");
        push_str_vec(&mut ignore, "**/.orch/**");
        WatcherConfig {
            debounce_ms: 300,
            include_patterns: watched,
            ignore_patterns: ignore,
            max_files: 10_000,
            enabled: true,
        }
    }
}

/// Kind of change to a file.
#[derive(Debug, Clone, Copy, PartialEq, Eq, Hash, Structural)]
pub enum ChangeKind {
    Created,
    Modified,
    Deleted,
}

/// Label of a change kind.
pub open spec fn change_label(k: ChangeKind) -> Seq<char> {
    match k {
        ChangeKind::Created => "created"@,
        ChangeKind::Modified => "modified"@,
        ChangeKind::Deleted => "deleted"@,
    }
}

impl ChangeKind {
    /// The kind's label.
    pub fn to_string(&self) -> (res: String)
        ensures
            res@ == change_label(*self),
    {
        match self {
            ChangeKind::Created => String::from_str("created"),
            ChangeKind::Modified => String::from_str("modified"),
            ChangeKind::Deleted => String::from_str("deleted"),
        }
    }
}

/// A detected change; `timestamp` is in nanoseconds since the Unix epoch.
#[derive(Debug, Clone)]
pub struct FileChangeEvent {
    pub path: String,
    pub kind: ChangeKind,
    pub timestamp: u128,
}

/// Modification time (nanoseconds since the Unix epoch) and size of a file.
#[derive(Debug, Clone, Copy, PartialEq, Eq, Structural)]
pub struct FileSnapshot {
    pub modified: u128,
    pub size: u64,
}

impl View for FileSnapshot {
    type V = FileSnapshot;

    open spec fn view(&self) -> FileSnapshot {
        *self
    }
}

/// A change waiting out the debounce interval.
#[derive(Debug, Clone, Copy, PartialEq, Eq, Structural)]
pub struct PendingChange {
    pub kind: ChangeKind,
    pub timestamp: u128,
}

impl View for PendingChange {
    type V = PendingChange;

    open spec fn view(&self) -> PendingChange {
        *self
    }
}

/// Polling file watcher. The directory walk and file metadata are read by the
/// caller; the watcher keeps the snapshots and decides which changes to report.
#[derive(Debug)]
pub struct FileWatcher {
    pub config: WatcherConfig,
    pub root: String,
    pub snapshots: KeyMap<FileSnapshot>,
    pub last_scan: Option<u128>,
    pub pending_events: Vec<FileChangeEvent>,
    pub debounce_buffer: KeyMap<PendingChange>,
}

/// Some pattern of `pats` matches `path`.
pub open spec fn any_glob(pats: Seq<Seq<char>>, path: Seq<char>) -> bool {
    exists|i: int| 0 <= i < pats.len() && glob_match(#[trigger] pats[i], path)
}

impl FileWatcher {
    /// A watcher of `root` with nothing scanned yet.
    pub fn new(root: String, config: WatcherConfig) -> (res: Self)
        ensures
            res.root == root,
            res.config == config,
            res.snapshots@ == Map::<Seq<char>, FileSnapshot>::empty(),
            res.last_scan is None,
            res.pending_events@.len() == 0,
            res.debounce_buffer@ == Map::<Seq<char>, PendingChange>::empty(),
    {
        FileWatcher {
            config,
            root,
            snapshots: KeyMap::new(),
            last_scan: None,
            pending_events: Vec::new(),
            debounce_buffer: KeyMap::new(),
        }
    }

    /// Whether a relative path matches an ignore pattern.
    pub fn should_ignore(&self, path: &str) -> (res: bool)
        ensures
            res == any_glob(self.config.ignore_patterns.deep_view(), path@),
    {
        let pats = &self.config.ignore_patterns;
        let mut i: usize = 0;
        while i < pats.len()
            invariant
                i <= pats@.len(),
                pats == &self.config.ignore_patterns,
                forall|j: int| 0 <= j < i ==> !glob_match(#[trigger] pats.deep_view()[j], path@),
            decreases pats@.len() - i,
        {
            if simple_glob_match(pats[i].as_str(), path) {
                assert(glob_match(pats.deep_view()[i as int], path@));
                return true;
            }
            i = i + 1;
        }
        false
    }

    /// Whether a relative path matches an include pattern (any path when there are none).
    pub fn matches_include(&self, path: &str) -> (res: bool)
        ensures
            res == (self.config.include_patterns@.len() == 0 || any_glob(
                self.config.include_patterns.deep_view(),
                path@,
            )),
    {
        let pats = &self.config.include_patterns;
        if pats.len() == 0 {
            return true;
        }
        let mut i: usize = 0;
        while i < pats.len()
            invariant
                i <= pats@.len(),
                pats == &self.config.include_patterns,
                forall|j: int| 0 <= j < i ==> !glob_match(#[trigger] pats.deep_view()[j], path@),
            decreases pats@.len() - i,
        {
            if simple_glob_match(pats[i].as_str(), path) {
                assert(glob_match(pats.deep_view()[i as int], path@));
                return true;
            }
            i = i + 1;
        }
        false
    }

    /// One-line description of the watcher's state.
    pub fn status_summary(&self) -> (res: String)
        ensures
            res@ == "Watching "@ + decimal(self.snapshots@.len()) + " files (debounce: "@
                + decimal(self.config.debounce_ms as nat) + "ms, buffer: "@ + decimal(
                self.debounce_buffer@.len(),
            ) + ", pending: "@ + decimal(self.pending_events@.len()) + ", "@ + (if self.last_scan is Some {
                "scanned"@
            } else {
                "not_scanned"@
            }) + ")"@,
    {
        let mut out = String::from_str("Watching ");
        out.append(u64_to_string(self.snapshots.len() as u64).as_str());
        out.append(" files (debounce: ");
        out.append(u64_to_string(self.config.debounce_ms).as_str());
        out.append("ms, buffer: ");
        out.append(u64_to_string(self.debounce_buffer.len() as u64).as_str());
        out.append(", pending: ");
        out.append(u64_to_string(self.pending_events.len() as u64).as_str());
        out.append(", ");
        if self.last_scan.is_some() {
            out.append("scanned");
        } else {
            out.append("not_scanned");
        }
        out.append(")");
        out
    }

    /// Number of tracked files.
    pub fn tracked_file_count(&self) -> (res: usize)
        ensures
            res == self.snapshots@.len(),
    {
        self.snapshots.len()
    }
}


/// A change as plain values: path, kind and time.
pub type EventView = (Seq<char>, ChangeKind, u128);

/// The view of a change.
pub open spec fn event_view(e: FileChangeEvent) -> EventView {
    (e.path@, e.kind, e.timestamp)
}

/// The views of a list of changes.
pub open spec fn event_views(es: Seq<FileChangeEvent>) -> Seq<EventView> {
    es.map_values(|e: FileChangeEvent| event_view(e))
}

/// A scanned file as plain values: path, and its snapshot when its
/// metadata could be read.
pub type ScanView = (Seq<char>, Option<FileSnapshot>);

/// The views of scanned files.
pub open spec fn scan_views(fs: Seq<(String, Option<FileSnapshot>)>) -> Seq<ScanView> {
    fs.map_values(|f: (String, Option<FileSnapshot>)| (f.0@, f.1))
}

/// The snapshots after recording the scanned files that have metadata.
pub open spec fn recorded(snaps: Map<Seq<char>, FileSnapshot>, fs: Seq<ScanView>) -> Map<Seq<char>, FileSnapshot>
    decreases fs.len(),
{
    if fs.len() == 0 {
        snaps
    } else {
        let m = recorded(snaps, fs.drop_last());
        match fs.last().1 {
            Some(s) => m.insert(fs.last().0, s),
            None => m,
        }
    }
}

/// The snapshots and the created and modified files after checking the
/// scanned files in order at `now`.
pub open spec fn checked(snaps: Map<Seq<char>, FileSnapshot>, fs: Seq<ScanView>, now: u128) -> (Map<Seq<char>, FileSnapshot>, Seq<EventView>)
    decreases fs.len(),
{
    if fs.len() == 0 {
        (snaps, seq![])
    } else {
        let (m, ev) = checked(snaps, fs.drop_last(), now);
        let (p, meta) = fs.last();
        match meta {
            None => (m, ev),
            Some(s) => if m.contains_key(p) {
                if m[p] != s { (m.insert(p, s), ev.push((p, ChangeKind::Modified, now))) } else { (m, ev) }
            } else {
                (m.insert(p, s), ev.push((p, ChangeKind::Created, now)))
            },
        }
    }
}

/// Whether a path was scanned.
pub open spec fn scanned(fs: Seq<ScanView>, p: Seq<char>) -> bool {
    exists|i: int| 0 <= i < fs.len() && #[trigger] fs[i].0 == p
}

/// The debounce interval in nanoseconds.
pub open spec fn window_ns(debounce_ms: u64) -> int {
    debounce_ms * 1_000_000
}

/// Whether a buffered change has waited out the interval at `now` (a
/// change from the future has waited nothing).
pub open spec fn due(c: PendingChange, now: u128, debounce_ms: u64) -> bool {
    (if now >= c.timestamp { now - c.timestamp } else { 0 }) >= window_ns(debounce_ms)
}

/// The buffer after adding changes in order; a later change of a path
/// replaces an earlier one.
pub open spec fn buffered(buf: Map<Seq<char>, PendingChange>, evs: Seq<EventView>) -> Map<Seq<char>, PendingChange>
    decreases evs.len(),
{
    if evs.len() == 0 {
        buf
    } else {
        buffered(buf, evs.drop_last()).insert(evs.last().0, PendingChange { kind: evs.last().1, timestamp: evs.last().2 })
    }
}

/// Whether `out` lists each due change of `b` once, in some order.
pub open spec fn flushes(out: Seq<EventView>, b: Map<Seq<char>, PendingChange>, now: u128, debounce_ms: u64) -> bool {
    &&& forall|i: int, j: int| 0 <= i < j < out.len() ==> (#[trigger] out[i]).0 != (#[trigger] out[j]).0
    &&& forall|i: int| 0 <= i < out.len() ==> {
        let e = #[trigger] out[i];
        b.contains_key(e.0) && b[e.0] == (PendingChange { kind: e.1, timestamp: e.2 }) && due(b[e.0], now, debounce_ms)
    }
    &&& forall|p: Seq<char>| #[trigger] b.contains_key(p) && due(b[p], now, debounce_ms) ==> exists|i: int| 0 <= i < out.len() && (#[trigger] out[i]).0 == p
}

/// The changes of `b` that have not waited out the interval.
pub open spec fn not_due(b: Map<Seq<char>, PendingChange>, now: u128, debounce_ms: u64) -> Map<Seq<char>, PendingChange> {
    Map::new(|p: Seq<char>| b.contains_key(p) && !due(b[p], now, debounce_ms), |p: Seq<char>| b[p])
}

fn copy_event(e: &FileChangeEvent) -> (res: FileChangeEvent)
    ensures
        event_view(res) == event_view(*e),
{
    FileChangeEvent { path: e.path.clone(), kind: e.kind, timestamp: e.timestamp }
}

impl FileWatcher {
    /// Records the baseline: each scanned file whose metadata could be read.
    pub fn initial_scan(&mut self, files: &Vec<(String, Option<FileSnapshot>)>, now: u128) -> (res: usize)
        ensures
            final(self).snapshots@ == recorded(old(self).snapshots@, scan_views(files@)),
            final(self).last_scan == Some(now),
            res == final(self).snapshots@.len(),
            final(self).config == old(self).config,
            final(self).debounce_buffer@ == old(self).debounce_buffer@,
    {
        let ghost fs = scan_views(files@);
        let mut i: usize = 0;
        while i < files.len()
            invariant
                fs == scan_views(files@),
                i <= fs.len(),
                self.snapshots@ == recorded(old(self).snapshots@, fs.take(i as int)),
                self.config == old(self).config,
                self.debounce_buffer@ == old(self).debounce_buffer@,
            decreases fs.len() - i,
        {
            assert(fs.take(i + 1).drop_last() =~= fs.take(i as int));
            if let Some(snap) = files[i].1 {
                self.snapshots.insert(files[i].0.clone(), snap);
            }
            i = i + 1;
        }
        assert(fs.take(fs.len() as int) =~= fs);
        self.last_scan = Some(now);
        self.snapshots.len()
    }

    /// Adds the changes to the debounce buffer, then takes out and returns
    /// the changes that waited out the interval, which also become the
    /// pending events.
    pub fn apply_debounce(&mut self, events: Vec<FileChangeEvent>, now: u128) -> (res: Vec<FileChangeEvent>)
        ensures
            flushes(event_views(res@), buffered(old(self).debounce_buffer@, event_views(events@)), now, old(self).config.debounce_ms),
            final(self).debounce_buffer@ == not_due(buffered(old(self).debounce_buffer@, event_views(events@)), now, old(self).config.debounce_ms),
            event_views(final(self).pending_events@) == event_views(res@),
            final(self).last_scan == Some(now),
            final(self).snapshots@ == old(self).snapshots@,
            final(self).config == old(self).config,
    {
        let ghost evs = event_views(events@);
        let mut i: usize = 0;
        while i < events.len()
            invariant
                evs == event_views(events@),
                i <= evs.len(),
                self.debounce_buffer@ == buffered(old(self).debounce_buffer@, evs.take(i as int)),
                self.snapshots@ == old(self).snapshots@,
                self.config == old(self).config,
            decreases evs.len() - i,
        {
            assert(evs.take(i + 1).drop_last() =~= evs.take(i as int));
            let e = &events[i];
            self.debounce_buffer.insert(e.path.clone(), PendingChange { kind: e.kind, timestamp: e.timestamp });
            i = i + 1;
        }
        assert(evs.take(evs.len() as int) =~= evs);
        let ghost b = self.debounce_buffer@;
        let window: u128 = (self.config.debounce_ms as u128) * 1_000_000u128;
        let entries = self.debounce_buffer.entries();
        proof {
            lemma_entries_map(entries@);
        }
        let mut flushed: Vec<FileChangeEvent> = Vec::new();
        let mut remaining: KeyMap<PendingChange> = KeyMap::new();
        let mut k: usize = 0;
        while k < entries.len()
            invariant
                k <= entries@.len(),
                keys_distinct(entries@),
                entries_map(entries@) == b,
                forall|q: int| 0 <= q < entries@.len() ==> #[trigger] b[entries@[q].0@] == entries@[q].1 && b.contains_key(entries@[q].0@),
                window == window_ns(old(self).config.debounce_ms),
                forall|a: int, c: int| 0 <= a < c < flushed@.len() ==> (#[trigger] event_views(flushed@)[a]).0 != (#[trigger] event_views(flushed@)[c]).0,
                forall|a: int| 0 <= a < flushed@.len() ==> exists|q: int| 0 <= q < k && (#[trigger] event_views(flushed@)[a]).0 == entries@[q].0@,
                forall|a: int| 0 <= a < flushed@.len() ==> {
                    let e = #[trigger] event_views(flushed@)[a];
                    b.contains_key(e.0) && b[e.0] == (PendingChange { kind: e.1, timestamp: e.2 }) && due(b[e.0], now, old(self).config.debounce_ms)
                },
                forall|q: int| 0 <= q < k && due(entries@[q].1, now, old(self).config.debounce_ms) ==>
                    exists|a: int| 0 <= a < flushed@.len() && (#[trigger] event_views(flushed@)[a]).0 == entries@[q].0@,
                forall|p: Seq<char>| #[trigger] remaining@.contains_key(p) <==> exists|q: int| 0 <= q < k && entries@[q].0@ == p && !due(entries@[q].1, now, old(self).config.debounce_ms),
                forall|p: Seq<char>| #[trigger] remaining@.contains_key(p) ==> remaining@[p] == b[p],
            decreases entries@.len() - k,
        {
            let (path, change) = (&entries[k].0, entries[k].1);
            assert(b[entries@[k as int].0@] == entries@[k as int].1);
            let age: u128 = if now >= change.timestamp { now - change.timestamp } else { 0 };
            let ghost fb = event_views(flushed@);
            if age >= window {
                flushed.push(FileChangeEvent { path: path.clone(), kind: change.kind, timestamp: change.timestamp });
                assert(event_views(flushed@) =~= fb.push((path@, change.kind, change.timestamp)));
                assert forall|a: int| 0 <= a < fb.len() implies fb[a].0 != path@ by {
                    let q = choose|q: int| 0 <= q < k && #[trigger] fb[a].0 == entries@[q].0@;
                }
                assert forall|q: int| 0 <= q < k + 1 && due(entries@[q].1, now, old(self).config.debounce_ms) implies
                    exists|a: int| 0 <= a < flushed@.len() && (#[trigger] event_views(flushed@)[a]).0 == entries@[q].0@ by {
                    if q < k {
                        let a = choose|a: int| 0 <= a < fb.len() && (#[trigger] fb[a]).0 == entries@[q].0@;
                        assert(event_views(flushed@)[a] == fb[a]);
                    } else {
                        assert(event_views(flushed@)[fb.len() as int].0 == entries@[q].0@);
                    }
                }
            } else {
                remaining.insert(path.clone(), change);
            }
            k = k + 1;
        }
        proof {
            let fv = event_views(flushed@);
            assert forall|p: Seq<char>| #[trigger] b.contains_key(p) && due(b[p], now, old(self).config.debounce_ms) implies exists|a: int| 0 <= a < fv.len() && (#[trigger] fv[a]).0 == p by {
                let q = choose|q: int| 0 <= q < entries@.len() && entries@[q].0@ == p;
                assert(b[entries@[q].0@] == entries@[q].1);
            }
            assert(remaining@ =~= not_due(b, now, old(self).config.debounce_ms)) by {
                assert forall|p: Seq<char>| remaining@.contains_key(p) <==> not_due(b, now, old(self).config.debounce_ms).contains_key(p) by {
                    if b.contains_key(p) {
                        let q = choose|q: int| 0 <= q < entries@.len() && entries@[q].0@ == p;
                        assert(b[entries@[q].0@] == entries@[q].1);
                        if remaining@.contains_key(p) {
                            let q2 = choose|q2: int| 0 <= q2 < entries@.len() && entries@[q2].0@ == p && !due(entries@[q2].1, now, old(self).config.debounce_ms);
                            assert(b[entries@[q2].0@] == entries@[q2].1);
                        }
                    } else if remaining@.contains_key(p) {
                        let q2 = choose|q2: int| 0 <= q2 < entries@.len() && entries@[q2].0@ == p && !due(entries@[q2].1, now, old(self).config.debounce_ms);
                    }
                }
            }
        }
        self.debounce_buffer = remaining;
        let mut pending: Vec<FileChangeEvent> = Vec::new();
        let mut j: usize = 0;
        while j < flushed.len()
            invariant
                j <= flushed@.len(),
                event_views(pending@) =~= event_views(flushed@).take(j as int),
            decreases flushed@.len() - j,
        {
            let ghost pb = event_views(pending@);
            pending.push(copy_event(&flushed[j]));
            assert(event_views(pending@) =~= pb.push(event_view(flushed@[j as int])));
            assert(event_views(flushed@).take(j + 1) =~= event_views(flushed@).take(j as int).push(event_view(flushed@[j as int])));
            j = j + 1;
        }
        assert(event_views(flushed@).take(flushed@.len() as int) =~= event_views(flushed@));
        self.pending_events = pending;
        self.last_scan = Some(now);
        flushed
    }
}


/// Whether `d` lists, once each, a deletion at `now` of every path of `m`
/// that the scan `fs` no longer found.
pub open spec fn deletions(d: Seq<EventView>, m: Map<Seq<char>, FileSnapshot>, fs: Seq<ScanView>, now: u128) -> bool {
    &&& forall|i: int, j: int| 0 <= i < j < d.len() ==> (#[trigger] d[i]).0 != (#[trigger] d[j]).0
    &&& forall|i: int| 0 <= i < d.len() ==> (#[trigger] d[i]).1 == ChangeKind::Deleted && d[i].2 == now && m.contains_key(d[i].0) && !scanned(fs, d[i].0)
    &&& forall|p: Seq<char>| #[trigger] m.contains_key(p) && !scanned(fs, p) ==> exists|i: int| 0 <= i < d.len() && (#[trigger] d[i]).0 == p
}

/// The snapshots of the paths that the scan still found.
pub open spec fn kept(m: Map<Seq<char>, FileSnapshot>, fs: Seq<ScanView>) -> Map<Seq<char>, FileSnapshot> {
    Map::new(|p: Seq<char>| m.contains_key(p) && scanned(fs, p), |p: Seq<char>| m[p])
}

fn was_scanned(files: &Vec<(String, Option<FileSnapshot>)>, path: &str) -> (res: bool)
    ensures
        res == scanned(scan_views(files@), path@),
{
    let ghost fs = scan_views(files@);
    let mut i: usize = 0;
    while i < files.len()
        invariant
            fs == scan_views(files@),
            i <= fs.len(),
            forall|j: int| 0 <= j < i ==> fs[j].0 != path@,
        decreases fs.len() - i,
    {
        if crate::text::str_eq(files[i].0.as_str(), path) {
            assert(fs[i as int].0 == path@);
            return true;
        }
        i = i + 1;
    }
    false
}

/// Whether `gone` lists, once each, the paths of `m` that the scan `fs`
/// no longer found.
pub open spec fn gone_ok(gone: Seq<Seq<char>>, m: Map<Seq<char>, FileSnapshot>, fs: Seq<ScanView>) -> bool {
    &&& forall|a: int, c: int| 0 <= a < c < gone.len() ==> #[trigger] gone[a] != #[trigger] gone[c]
    &&& forall|a: int| 0 <= a < gone.len() ==> m.contains_key(#[trigger] gone[a]) && !scanned(fs, gone[a])
    &&& forall|p: Seq<char>| #[trigger] m.contains_key(p) && !scanned(fs, p) ==> exists|a: int| 0 <= a < gone.len() && #[trigger] gone[a] == p
}

/// Deletions at `now` of the listed paths.
pub open spec fn deleted_events(gone: Seq<Seq<char>>, now: u128) -> Seq<EventView> {
    gone.map_values(|p: Seq<char>| (p, ChangeKind::Deleted, now))
}

impl FileWatcher {
    fn check_scan(&mut self, current: &Vec<(String, Option<FileSnapshot>)>, now: u128) -> (raw: Vec<FileChangeEvent>)
        ensures
            final(self).snapshots@ == checked(old(self).snapshots@, scan_views(current@), now).0,
            event_views(raw@) == checked(old(self).snapshots@, scan_views(current@), now).1,
            final(self).config == old(self).config,
            final(self).debounce_buffer@ == old(self).debounce_buffer@,
    {
        let ghost fs = scan_views(current@);
        let mut raw: Vec<FileChangeEvent> = Vec::new();
        let mut i: usize = 0;
        assert(event_views(raw@) =~= Seq::<EventView>::empty());
        while i < current.len()
            invariant
                fs == scan_views(current@),
                i <= fs.len(),
                self.snapshots@ == checked(old(self).snapshots@, fs.take(i as int), now).0,
                event_views(raw@) == checked(old(self).snapshots@, fs.take(i as int), now).1,
                self.config == old(self).config,
                self.debounce_buffer@ == old(self).debounce_buffer@,
            decreases fs.len() - i,
        {
            assert(fs.take(i + 1).drop_last() =~= fs.take(i as int));
            let path = &current[i].0;
            if let Some(snap) = current[i].1 {
                let changed = match self.snapshots.get(path.as_str()) {
                    Some(old_snap) => if *old_snap != snap { Some(ChangeKind::Modified) } else { None },
                    None => Some(ChangeKind::Created),
                };
                if let Some(kind) = changed {
                    let ghost rb = event_views(raw@);
                    raw.push(FileChangeEvent { path: path.clone(), kind, timestamp: now });
                    assert(event_views(raw@) =~= rb.push((path@, kind, now)));
                    self.snapshots.insert(path.clone(), snap);
                }
            }
            i = i + 1;
        }
        assert(fs.take(fs.len() as int) =~= fs);
        raw
    }

    fn collect_gone(&self, current: &Vec<(String, Option<FileSnapshot>)>) -> (gone: Vec<String>)
        ensures
            gone_ok(gone.deep_view(), self.snapshots@, scan_views(current@)),
    {
        let ghost fs = scan_views(current@);
        let ghost m = self.snapshots@;
        let entries = self.snapshots.entries();
        proof {
            lemma_entries_map(entries@);
        }
        let mut gone: Vec<String> = Vec::new();
        let mut k: usize = 0;
        while k < entries.len()
            invariant
                k <= entries@.len(),
                keys_distinct(entries@),
                entries_map(entries@) == m,
                fs == scan_views(current@),
                forall|q: int| 0 <= q < entries@.len() ==> #[trigger] m.contains_key(entries@[q].0@),
                forall|a: int, c: int| 0 <= a < c < gone@.len() ==> #[trigger] gone.deep_view()[a] != #[trigger] gone.deep_view()[c],
                forall|a: int| 0 <= a < gone@.len() ==> m.contains_key(#[trigger] gone.deep_view()[a]) && !scanned(fs, gone.deep_view()[a])
                    && exists|q: int| 0 <= q < k && entries@[q].0@ == gone.deep_view()[a],
                forall|q: int| 0 <= q < k && !scanned(fs, entries@[q].0@) ==> exists|a: int| 0 <= a < gone@.len() && #[trigger] gone.deep_view()[a] == entries@[q].0@,
            decreases entries@.len() - k,
        {
            if !was_scanned(current, entries[k].0.as_str()) {
                let ghost gb = gone.deep_view();
                gone.push(entries[k].0.clone());
                assert(gone.deep_view() =~= gb.push(entries@[k as int].0@));
                assert forall|a: int| 0 <= a < gb.len() implies gb[a] != entries@[k as int].0@ by {
                    let q = choose|q: int| 0 <= q < k && entries@[q].0@ == gb[a];
                }
                assert forall|q: int| 0 <= q < k + 1 && !scanned(fs, entries@[q].0@) implies exists|a: int| 0 <= a < gone@.len() && #[trigger] gone.deep_view()[a] == entries@[q].0@ by {
                    if q < k {
                        let a = choose|a: int| 0 <= a < gb.len() && #[trigger] gb[a] == entries@[q].0@;
                        assert(gone.deep_view()[a] == gb[a]);
                    } else {
                        assert(gone.deep_view()[gb.len() as int] == entries@[q].0@);
                    }
                }
            }
            k = k + 1;
        }
        assert forall|p: Seq<char>| #[trigger] m.contains_key(p) && !scanned(fs, p) implies exists|a: int| 0 <= a < gone.deep_view().len() && #[trigger] gone.deep_view()[a] == p by {
            let q = choose|q: int| 0 <= q < entries@.len() && entries@[q].0@ == p;
        }
        gone
    }

    fn drop_gone(&mut self, gone: &Vec<String>, raw: &mut Vec<FileChangeEvent>, now: u128)
        requires
            forall|a: int, c: int| 0 <= a < c < gone@.len() ==> #[trigger] gone.deep_view()[a] != #[trigger] gone.deep_view()[c],
        ensures
            forall|p: Seq<char>| #[trigger] final(self).snapshots@.contains_key(p) <==> (old(self).snapshots@.contains_key(p) && !gone.deep_view().contains(p)),
            forall|p: Seq<char>| #[trigger] final(self).snapshots@.contains_key(p) ==> final(self).snapshots@[p] == old(self).snapshots@[p],
            event_views(final(raw)@) == event_views(old(raw)@) + deleted_events(gone.deep_view(), now),
            final(self).config == old(self).config,
            final(self).debounce_buffer@ == old(self).debounce_buffer@,
    {
        let ghost gd = gone.deep_view();
        let ghost r0 = event_views(raw@);
        let mut j: usize = 0;
        assert(r0 + deleted_events(gd.take(0), now) =~= r0);
        while j < gone.len()
            invariant
                j <= gone@.len(),
                gd == gone.deep_view(),
                event_views(raw@) == r0 + deleted_events(gd.take(j as int), now),
                forall|p: Seq<char>| #[trigger] self.snapshots@.contains_key(p) <==> (old(self).snapshots@.contains_key(p) && !gd.take(j as int).contains(p)),
                forall|p: Seq<char>| #[trigger] self.snapshots@.contains_key(p) ==> self.snapshots@[p] == old(self).snapshots@[p],
                self.config == old(self).config,
                self.debounce_buffer@ == old(self).debounce_buffer@,
            decreases gone@.len() - j,
        {
            let ghost rb = event_views(raw@);
            raw.push(FileChangeEvent { path: gone[j].clone(), kind: ChangeKind::Deleted, timestamp: now });
            assert(gd.take(j + 1) =~= gd.take(j as int).push(gd[j as int]));
            assert(event_views(raw@) =~= r0 + deleted_events(gd.take(j + 1), now)) by {
                assert(event_views(raw@) =~= rb.push((gd[j as int], ChangeKind::Deleted, now)));
            }
            let ghost sb = self.snapshots@;
            assert(gone@[j as int]@ == gd[j as int]);
            self.snapshots.remove(gone[j].as_str());
            assert forall|p: Seq<char>| #[trigger] self.snapshots@.contains_key(p) <==> (old(self).snapshots@.contains_key(p) && !gd.take(j + 1).contains(p)) by {
                assert(self.snapshots@.contains_key(p) <==> (sb.contains_key(p) && p != gd[j as int]));
                assert(sb.contains_key(p) <==> (old(self).snapshots@.contains_key(p) && !gd.take(j as int).contains(p)));
                if p == gd[j as int] {
                    assert(gd.take(j + 1)[j as int] == p);
                }
                if gd.take(j + 1).contains(p) && p != gd[j as int] {
                    let a = choose|a: int| 0 <= a < j + 1 && #[trigger] gd.take(j + 1)[a] == p;
                    assert(gd.take(j as int)[a] == p);
                }
                if gd.take(j as int).contains(p) {
                    let a = choose|a: int| 0 <= a < j && #[trigger] gd.take(j as int)[a] == p;
                    assert(gd.take(j + 1)[a] == p);
                }
            }
            j = j + 1;
        }
        assert(gd.take(gd.len() as int) =~= gd);
    }

    /// Checks a new scan at `now`: a file with new metadata is created or
    /// modified, a tracked file the scan missed is deleted; the changes go
    /// through the debounce buffer, and the ones due are returned. A
    /// disabled watcher reports nothing.
    pub fn poll(&mut self, current: &Vec<(String, Option<FileSnapshot>)>, now: u128) -> (res: Vec<FileChangeEvent>)
        ensures
            !old(self).config.enabled ==> res@.len() == 0 && final(self).snapshots@ == old(self).snapshots@
                && final(self).debounce_buffer@ == old(self).debounce_buffer@,
            old(self).config.enabled ==> ({
                let fs = scan_views(current@);
                let (m, ev) = checked(old(self).snapshots@, fs, now);
                &&& final(self).snapshots@ == kept(m, fs)
                &&& exists|d: Seq<EventView>| #![auto] deletions(d, m, fs, now) && {
                    let b = buffered(old(self).debounce_buffer@, ev + d);
                    &&& flushes(event_views(res@), b, now, old(self).config.debounce_ms)
                    &&& final(self).debounce_buffer@ == not_due(b, now, old(self).config.debounce_ms)
                }
                &&& final(self).last_scan == Some(now)
            }),
            final(self).config == old(self).config,
    {
        if !self.config.enabled {
            return Vec::new();
        }
        let ghost fs = scan_views(current@);
        let mut raw = self.check_scan(current, now);
        let ghost m = self.snapshots@;
        let ghost ev = event_views(raw@);
        let gone = self.collect_gone(current);
        self.drop_gone(&gone, &mut raw, now);
        let ghost d = deleted_events(gone.deep_view(), now);
        proof {
            let gd = gone.deep_view();
            assert(deletions(d, m, fs, now)) by {
                assert forall|p: Seq<char>| #[trigger] m.contains_key(p) && !scanned(fs, p) implies exists|i: int| 0 <= i < d.len() && (#[trigger] d[i]).0 == p by {
                    let a = choose|a: int| 0 <= a < gd.len() && #[trigger] gd[a] == p;
                    assert(d[a].0 == p);
                }
            }
            assert(self.snapshots@ =~= kept(m, fs)) by {
                assert forall|p: Seq<char>| #[trigger] self.snapshots@.contains_key(p) <==> kept(m, fs).contains_key(p) by {
                    if m.contains_key(p) && !scanned(fs, p) {
                        let a = choose|a: int| 0 <= a < gd.len() && #[trigger] gd[a] == p;
                        assert(gd.contains(p));
                    }
                    if gd.contains(p) {
                        let a = choose|a: int| 0 <= a < gd.len() && #[trigger] gd[a] == p;
                        assert(!scanned(fs, gd[a]));
                    }
                }
            }
        }
        self.apply_debounce(raw, now)
    }
}

} // verus!
