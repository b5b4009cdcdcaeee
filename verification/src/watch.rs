use vstd::prelude::*;

use crate::assets::dest_set;
use crate::meta::ChapterItem;
use crate::snapshot::SnapshotStore;
use crate::strutil::{append_str, str_ends_with, string_of, vec_contains_str};

verus! {

/// How many revisions back the snapshot store keeps when caches are evicted
/// after a metadata-driven rebuild.
pub const SNAPSHOT_RETAIN: u64 = 10;

/// An event the orchestrator consumes, in arrival order: a batch of changed
/// source paths, or a viewer's hold/release of one page path.
#[derive(Debug)]
pub enum WatchEvent {
    FilesystemChange(Vec<String>),
    HoldPath(String, bool),
}

/// The zero-payload reload broadcast; delivery to subscribers is
/// best-effort.
#[derive(Debug, Clone, Copy, PartialEq, Eq, Structural)]
pub enum WatchSignal {
    Reload,
}

/// Which chapters one event asks to rebuild.
#[derive(Debug)]
pub enum RebuildScope {
    /// Nothing to rebuild (a no-op heartbeat).
    Skip,
    /// Every chapter, ignoring the active-path filter.
    Full,
    /// Only the chapters whose paths are in the active set.
    Active(Vec<String>),
}

/// What the caller must do after one event: the rebuild scope, whether to
/// broadcast a reload, and whether to evict stale compiler caches.
#[derive(Debug)]
pub struct StepOutcome {
    pub scope: RebuildScope,
    pub reload: bool,
    pub evict: bool,
}

/// The registry of pages currently held by viewers: normalized page path to
/// hold count. An entry exists exactly while its count is positive.
pub struct ActiveRegistry {
    entries: Vec<(String, u64)>,
}

spec fn unique_keys(es: Seq<(String, u64)>) -> bool {
    forall|i: int, j: int|
        #![trigger es[i], es[j]]
        0 <= i < j < es.len() ==> es[i].0@ != es[j].0@
}

spec fn positive_counts(es: Seq<(String, u64)>) -> bool {
    forall|i: int| 0 <= i < es.len() ==> (#[trigger] es[i]).1 >= 1
}

spec fn reg_idx_of(es: Seq<(String, u64)>, k: Seq<char>) -> int {
    choose|i: int| 0 <= i < es.len() && es[i].0@ == k
}

spec fn reg_map_of(es: Seq<(String, u64)>) -> Map<Seq<char>, u64> {
    Map::new(
        |k: Seq<char>| exists|i: int| 0 <= i < es.len() && es[i].0@ == k,
        |k: Seq<char>| es[reg_idx_of(es, k)].1,
    )
}

proof fn lemma_reg_index(es: Seq<(String, u64)>, i: int)
    requires
        unique_keys(es),
        0 <= i < es.len(),
    ensures
        reg_map_of(es).dom().contains(es[i].0@),
        reg_map_of(es)[es[i].0@] == es[i].1,
        reg_idx_of(es, es[i].0@) == i,
{
    let k = es[i].0@;
    assert(exists|j: int| 0 <= j < es.len() && es[j].0@ == k);
    let w = reg_idx_of(es, k);
    assert(0 <= w < es.len() && es[w].0@ == k);
    if w != i {
        if w < i {
            assert(es[w].0@ != es[i].0@);
        } else {
            assert(es[i].0@ != es[w].0@);
        }
        assert(false);
    }
}

proof fn lemma_reg_update(es: Seq<(String, u64)>, i: int, e: (String, u64))
    requires
        unique_keys(es),
        0 <= i < es.len(),
        e.0@ == es[i].0@,
    ensures
        unique_keys(es.update(i, e)),
        reg_map_of(es.update(i, e)) == reg_map_of(es).insert(e.0@, e.1),
{
    let ns = es.update(i, e);
    assert forall|a: int, b: int|
        #![trigger ns[a], ns[b]]
        0 <= a < b < ns.len() implies ns[a].0@ != ns[b].0@ by {
        assert(es[a].0@ != es[b].0@);
        assert(ns[a].0@ == es[a].0@ && ns[b].0@ == es[b].0@);
    }
    let mnew = reg_map_of(ns);
    let tgt = reg_map_of(es).insert(e.0@, e.1);
    assert forall|k: Seq<char>| mnew.dom().contains(k) implies tgt.dom().contains(k) && mnew[k]
        == tgt[k] by {
        let j = reg_idx_of(ns, k);
        assert(0 <= j < ns.len() && ns[j].0@ == k);
        lemma_reg_index(ns, j);
        if k == e.0@ {
            assert(j == i) by {
                if j != i {
                    if j < i {
                        assert(es[j].0@ != es[i].0@);
                    } else {
                        assert(es[i].0@ != es[j].0@);
                    }
                }
            }
        } else {
            assert(j != i);
            assert(ns[j] == es[j]);
            lemma_reg_index(es, j);
        }
    }
    assert forall|k: Seq<char>| tgt.dom().contains(k) implies mnew.dom().contains(k) by {
        if k == e.0@ {
            assert(ns[i].0@ == k);
        } else {
            let j = reg_idx_of(es, k);
            assert(0 <= j < es.len() && es[j].0@ == k);
            assert(j != i);
            assert(ns[j].0@ == k);
        }
    }
    assert(mnew =~= tgt);
}

proof fn lemma_reg_push(es: Seq<(String, u64)>, e: (String, u64))
    requires
        unique_keys(es),
        forall|i: int| 0 <= i < es.len() ==> (#[trigger] es[i]).0@ != e.0@,
    ensures
        unique_keys(es.push(e)),
        reg_map_of(es.push(e)) == reg_map_of(es).insert(e.0@, e.1),
{
    let ns = es.push(e);
    assert forall|a: int, b: int|
        #![trigger ns[a], ns[b]]
        0 <= a < b < ns.len() implies ns[a].0@ != ns[b].0@ by {
        if b < es.len() {
            assert(es[a].0@ != es[b].0@);
        } else {
            assert(ns[b] == e);
            assert(es[a].0@ != e.0@);
        }
    }
    let mnew = reg_map_of(ns);
    let tgt = reg_map_of(es).insert(e.0@, e.1);
    assert forall|k: Seq<char>| mnew.dom().contains(k) implies tgt.dom().contains(k) && mnew[k]
        == tgt[k] by {
        let j = reg_idx_of(ns, k);
        assert(0 <= j < ns.len() && ns[j].0@ == k);
        lemma_reg_index(ns, j);
        if k == e.0@ {
            assert(j == es.len()) by {
                if j < es.len() {
                    assert(es[j].0@ != e.0@);
                }
            }
        } else {
            assert(j < es.len());
            assert(ns[j] == es[j]);
            lemma_reg_index(es, j);
        }
    }
    assert forall|k: Seq<char>| tgt.dom().contains(k) implies mnew.dom().contains(k) by {
        if k == e.0@ {
            assert(ns[es.len() as int].0@ == k);
        } else {
            let j = reg_idx_of(es, k);
            assert(0 <= j < es.len() && es[j].0@ == k);
            assert(ns[j].0@ == k);
        }
    }
    assert(mnew =~= tgt);
}

proof fn lemma_reg_remove(es: Seq<(String, u64)>, i: int)
    requires
        unique_keys(es),
        0 <= i < es.len(),
    ensures
        unique_keys(es.remove(i)),
        reg_map_of(es.remove(i)) == reg_map_of(es).remove(es[i].0@),
{
    let ns = es.remove(i);
    assert forall|a: int, b: int|
        #![trigger ns[a], ns[b]]
        0 <= a < b < ns.len() implies ns[a].0@ != ns[b].0@ by {
        let oa = if a < i {
            a
        } else {
            a + 1
        };
        let ob = if b < i {
            b
        } else {
            b + 1
        };
        assert(ns[a] == es[oa] && ns[b] == es[ob]);
        assert(es[oa].0@ != es[ob].0@);
    }
    let mnew = reg_map_of(ns);
    let tgt = reg_map_of(es).remove(es[i].0@);
    assert forall|k: Seq<char>| mnew.dom().contains(k) implies tgt.dom().contains(k) && mnew[k]
        == tgt[k] by {
        let j = reg_idx_of(ns, k);
        assert(0 <= j < ns.len() && ns[j].0@ == k);
        lemma_reg_index(ns, j);
        let oj = if j < i {
            j
        } else {
            j + 1
        };
        assert(ns[j] == es[oj]);
        lemma_reg_index(es, oj);
        assert(k != es[i].0@) by {
            if oj < i {
                assert(es[oj].0@ != es[i].0@);
            } else {
                assert(es[i].0@ != es[oj].0@);
            }
        }
    }
    assert forall|k: Seq<char>| tgt.dom().contains(k) implies mnew.dom().contains(k) by {
        let j = reg_idx_of(es, k);
        assert(0 <= j < es.len() && es[j].0@ == k);
        assert(j != i);
        if j < i {
            assert(ns[j] == es[j]);
            assert(ns[j].0@ == k);
        } else {
            assert(ns[j - 1] == es[j]);
            assert(ns[j - 1].0@ == k);
        }
    }
    assert(mnew =~= tgt);
}

/// The hold/release transition on the registry model: increments insert or
/// bump a count (saturating at the machine limit); decrements lower a count,
/// remove the entry at one, and ignore unknown paths. The boolean says
/// whether membership changed: the path appeared, or disappeared.
pub open spec fn spec_hold(m: Map<Seq<char>, u64>, p: Seq<char>, inc: bool) -> (
    Map<Seq<char>, u64>,
    bool,
) {
    if inc {
        if m.dom().contains(p) {
            (m.insert(p, if m[p] < u64::MAX { (m[p] + 1) as u64 } else { m[p] }), false)
        } else {
            (m.insert(p, 1), true)
        }
    } else {
        if m.dom().contains(p) {
            if m[p] > 1 {
                (m.insert(p, (m[p] - 1) as u64), false)
            } else {
                (m.remove(p), true)
            }
        } else {
            (m, false)
        }
    }
}

impl ActiveRegistry {
    /// Path to hold count.
    pub closed spec fn as_map(&self) -> Map<Seq<char>, u64> {
        reg_map_of(self.entries@)
    }

    pub closed spec fn wf(&self) -> bool {
        unique_keys(self.entries@) && positive_counts(self.entries@)
    }

    pub closed spec fn len(&self) -> nat {
        self.entries@.len()
    }

    pub fn new() -> (r: ActiveRegistry)
        ensures
            r.wf(),
            r.as_map() == Map::<Seq<char>, u64>::empty(),
            r.len() == 0,
    {
        let r = ActiveRegistry { entries: Vec::new() };
        proof {
            assert(r.as_map() =~= Map::<Seq<char>, u64>::empty());
        }
        r
    }

    /// Applies one hold (`inc` true) or release (`inc` false) for a
    /// normalized path; answers whether registry membership changed.
    pub fn hold(&mut self, path: &String, inc: bool) -> (changed: bool)
        requires
            old(self).wf(),
            old(self).len() < usize::MAX,
        ensures
            final(self).wf(),
            final(self).len() <= old(self).len() + 1,
            (final(self).as_map(), changed) == spec_hold(old(self).as_map(), path@, inc),
    {
        let ghost es = self.entries@;
        let n = self.entries.len();
        let mut i: usize = 0;
        while i < n
            invariant
                0 <= i <= n,
                n == self.entries@.len(),
                self.entries@ == es,
                es == old(self).entries@,
                self.wf(),
                forall|j: int| 0 <= j < i ==> (#[trigger] es[j]).0@ != path@,
            decreases n - i,
        {
            if path.eq(&self.entries[i].0) {
                proof {
                    lemma_reg_index(es, i as int);
                }
                let cnt = self.entries[i].1;
                if inc {
                    let newcnt = if cnt < u64::MAX {
                        cnt + 1
                    } else {
                        cnt
                    };
                    let e = (path.clone(), newcnt);
                    proof {
                        lemma_reg_update(es, i as int, e);
                    }
                    self.entries[i] = e;
                    proof {
                        assert(self.entries@ =~= es.update(i as int, e));
                    }
                    return false;
                } else {
                    if cnt > 1 {
                        let e = (path.clone(), cnt - 1);
                        proof {
                            lemma_reg_update(es, i as int, e);
                        }
                        self.entries[i] = e;
                        proof {
                            assert(self.entries@ =~= es.update(i as int, e));
                        }
                        return false;
                    } else {
                        proof {
                            lemma_reg_remove(es, i as int);
                        }
                        self.entries.remove(i);
                        return true;
                    }
                }
            }
            i = i + 1;
        }
        proof {
            if self.as_map().dom().contains(path@) {
                let w = reg_idx_of(es, path@);
                assert(0 <= w < es.len() && es[w].0@ == path@);
                assert(false);
            }
        }
        if inc {
            let e = (path.clone(), 1u64);
            proof {
                lemma_reg_push(es, e);
            }
            self.entries.push(e);
            true
        } else {
            false
        }
    }

    /// The hold count of a path, zero when absent.
    pub fn count_of(&self, path: &String) -> (r: u64)
        requires
            self.wf(),
        ensures
            r == (if self.as_map().dom().contains(path@) {
                self.as_map()[path@]
            } else {
                0u64
            }),
    {
        let n = self.entries.len();
        let mut i: usize = 0;
        while i < n
            invariant
                0 <= i <= n,
                n == self.entries@.len(),
                self.wf(),
                forall|j: int| 0 <= j < i ==> (#[trigger] self.entries@[j]).0@ != path@,
            decreases n - i,
        {
            if path.eq(&self.entries[i].0) {
                proof {
                    lemma_reg_index(self.entries@, i as int);
                }
                return self.entries[i].1;
            }
            i = i + 1;
        }
        proof {
            if self.as_map().dom().contains(path@) {
                let w = reg_idx_of(self.entries@, path@);
                assert(0 <= w < self.entries@.len() && self.entries@[w].0@ == path@);
                assert(false);
            }
        }
        0
    }

    /// The currently held paths, in insertion order.
    pub fn active_paths(&self) -> (r: Vec<String>)
        requires
            self.wf(),
        ensures
            dest_set(r@) == self.as_map().dom(),
    {
        let n = self.entries.len();
        let mut out: Vec<String> = Vec::new();
        let mut i: usize = 0;
        while i < n
            invariant
                0 <= i <= n,
                n == self.entries@.len(),
                self.wf(),
                out@.len() == i,
                forall|j: int| 0 <= j < i ==> (#[trigger] out@[j])@ == self.entries@[j].0@,
            decreases n - i,
        {
            out.push(self.entries[i].0.clone());
            i = i + 1;
        }
        proof {
            assert forall|k: Seq<char>| dest_set(out@).contains(k) implies self.as_map(
            ).dom().contains(k) by {
                let j = choose|j: int| 0 <= j < out@.len() && out@[j]@ == k;
                assert(self.entries@[j].0@ == k);
            }
            assert forall|k: Seq<char>| self.as_map().dom().contains(k) implies dest_set(
                out@,
            ).contains(k) by {
                let j = reg_idx_of(self.entries@, k);
                assert(0 <= j < self.entries@.len() && self.entries@[j].0@ == k);
                assert(out@[j]@ == k);
            }
            assert(dest_set(out@) =~= self.as_map().dom());
        }
        out
    }
}

/// The leading slashes of a path, dropped.
pub open spec fn spec_trim_slashes(p: Seq<char>) -> Seq<char>
    decreases p.len(),
{
    if p.len() > 0 && p[0] == '/' {
        spec_trim_slashes(p.drop_first())
    } else {
        p
    }
}

/// Path normalization for viewer-activity events: the root path stands for
/// the first chapter's path; a rendered-output path (`.html`) is mapped back
/// to its source document path (`.typ`), with leading slashes dropped; any
/// other path stands for itself. Nothing is returned when the root is asked
/// for but the book has no first chapter path.
pub open spec fn spec_normalize(p: Seq<char>, first: Option<Seq<char>>) -> Option<Seq<char>> {
    if p =~= "/"@ || p.len() == 0 {
        first
    } else if crate::strutil::spec_ends_with(spec_trim_slashes(p), ".html"@) {
        let q = spec_trim_slashes(p);
        Some(q.subrange(0, q.len() - ".html"@.len()) + ".typ"@)
    } else {
        Some(p)
    }
}

/// Normalizes a page path as `spec_normalize` describes.
pub fn normalize_path(path: &String, first_chapter: &Option<String>) -> (r: Option<String>)
    ensures
        (match r {
            Some(q) => spec_normalize(
                path@,
                crate::meta::opt_str_model(*first_chapter),
            ) == Some(q@),
            None => spec_normalize(path@, crate::meta::opt_str_model(*first_chapter)) is None,
        }),
{
    let n = path.as_str().unicode_len();
    proof {
        reveal_strlit("/");
        reveal_strlit(".html");
        reveal_strlit(".typ");
    }
    if n == 0 || (n == 1 && path.as_str().get_char(0) == '/') {
        proof {
            if n == 1 && path@[0] == '/' {
                assert(path@ =~= "/"@);
            }
        }
        return match first_chapter {
            Some(f) => Some(f.clone()),
            None => None,
        };
    }
    proof {
        assert(!(path@ =~= "/"@));
    }
    // Drop leading slashes.
    let mut k: usize = 0;
    proof {
        assert(path@.subrange(0, n as int) =~= path@);
    }
    while k < n && path.as_str().get_char(k) == '/'
        invariant
            0 <= k <= n,
            n == path@.len(),
            forall|j: int| 0 <= j < k ==> path@[j] == '/',
            spec_trim_slashes(path@) == spec_trim_slashes(path@.subrange(k as int, n as int)),
        decreases n - k,
    {
        proof {
            let cur = path@.subrange(k as int, n as int);
            assert(cur[0] == '/');
            assert(cur.drop_first() =~= path@.subrange(k as int + 1, n as int));
        }
        k = k + 1;
    }
    let q = path.as_str().substring_char(k, n);
    proof {
        let cur = path@.subrange(k as int, n as int);
        assert(cur.len() == 0 || cur[0] != '/');
        assert(spec_trim_slashes(cur) == cur);
        assert(q@ == spec_trim_slashes(path@));
    }
    if str_ends_with(q, ".html") {
        let qn = q.unicode_len();
        let stem = q.substring_char(0, qn - 5);
        let mut out = string_of(stem);
        append_str(&mut out, ".typ");
        proof {
            assert(out@ =~= q@.subrange(0, q@.len() - ".html"@.len()) + ".typ"@);
        }
        Some(out)
    } else {
        Some(path.clone())
    }
}

/// The watch/rebuild state machine: the active-path registry, the revisioned
/// snapshot store, the current chapter list, and whether the metadata source
/// requires structural compilation (and so cache eviction). Events are
/// handled one at a time; the work each one demands is returned as a
/// `StepOutcome` for the caller to perform.
pub struct BuildOrchestrator {
    pub registry: ActiveRegistry,
    pub snapshots: SnapshotStore,
    pub chapters: Vec<ChapterItem>,
    pub need_compile: bool,
}

/// The first chapter's path, if the book has chapters and the first one is
/// navigable.
pub open spec fn spec_first_chapter(chs: Seq<ChapterItem>) -> Option<Seq<char>> {
    if chs.len() == 0 {
        None
    } else {
        crate::meta::opt_str_model(chs[0].path)
    }
}

fn first_chapter(chs: &Vec<ChapterItem>) -> (r: Option<String>)
    ensures
        crate::meta::opt_str_model(r) == spec_first_chapter(chs@),
{
    if chs.len() == 0 {
        None
    } else {
        match &chs[0].path {
            Some(p) => Some(p.clone()),
            None => None,
        }
    }
}

impl BuildOrchestrator {
    pub open spec fn wf(&self) -> bool {
        self.registry.wf() && self.snapshots.wf()
    }

    pub fn new(chapters: Vec<ChapterItem>, need_compile: bool) -> (r: BuildOrchestrator)
        ensures
            r.wf(),
            r.registry.as_map() == Map::<Seq<char>, u64>::empty(),
            r.snapshots.revision() == 0,
            r.chapters == chapters,
            r.need_compile == need_compile,
    {
        BuildOrchestrator {
            registry: ActiveRegistry::new(),
            snapshots: SnapshotStore::new(),
            chapters,
            need_compile,
        }
    }

    /// Replaces the chapter list after metadata was recompiled.
    pub fn set_chapters(&mut self, chapters: Vec<ChapterItem>)
        requires
            old(self).wf(),
        ensures
            final(self).wf(),
            final(self).chapters == chapters,
            final(self).registry == old(self).registry,
            final(self).snapshots == old(self).snapshots,
            final(self).need_compile == old(self).need_compile,
    {
        self.chapters = chapters;
    }

    /// Handles one event, in arrival order.
    ///
    /// A filesystem change opens a new snapshot revision and asks for a full
    /// rebuild and a reload, evicting caches only in the metadata-driven
    /// mode; the active-path filter is ignored on purpose, because the book's
    /// structure may have changed.
    ///
    /// A hold/release updates the registry; only a membership transition
    /// (appear or disappear) asks for a rebuild — filtered to the active
    /// set — and a reload. A heartbeat that changes no membership asks for
    /// nothing, so a viewer keeping a page warm never forces reload loops.
    pub fn handle_event(&mut self, event: &WatchEvent) -> (out: StepOutcome)
        requires
            old(self).wf(),
            old(self).snapshots.revision() < u64::MAX,
            old(self).registry.len() < usize::MAX,
        ensures
            final(self).wf(),
            final(self).chapters == old(self).chapters,
            final(self).need_compile == old(self).need_compile,
            match *event {
                WatchEvent::FilesystemChange(_) => {
                    &&& out.scope is Full
                    &&& out.reload
                    &&& out.evict == old(self).need_compile
                    &&& final(self).registry == old(self).registry
                    &&& final(self).snapshots.revision() == old(self).snapshots.revision() + 1
                },
                WatchEvent::HoldPath(p, inc) => {
                    &&& final(self).snapshots == old(self).snapshots
                    &&& !out.evict
                    &&& match spec_normalize(p@, spec_first_chapter(old(self).chapters@)) {
                        None => {
                            &&& out.scope is Skip
                            &&& !out.reload
                            &&& final(self).registry == old(self).registry
                        },
                        Some(np) => {
                            let (m2, changed) = spec_hold(old(self).registry.as_map(), np, inc);
                            &&& final(self).registry.as_map() == m2
                            &&& out.reload == changed
                            &&& (changed ==> out.scope is Active && dest_set(
                                out.scope->Active_0@,
                            ) == m2.dom())
                            &&& (!changed ==> out.scope is Skip)
                        },
                    }
                },
            },
    {
        match event {
            WatchEvent::FilesystemChange(paths) => {
                self.snapshots.invalidate(paths);
                if self.need_compile {
                    self.snapshots.evict(SNAPSHOT_RETAIN);
                }
                StepOutcome {
                    scope: RebuildScope::Full,
                    reload: true,
                    evict: self.need_compile,
                }
            },
            WatchEvent::HoldPath(p, inc) => {
                let first = first_chapter(&self.chapters);
                match normalize_path(p, &first) {
                    None => StepOutcome { scope: RebuildScope::Skip, reload: false, evict: false },
                    Some(np) => {
                        let changed = self.registry.hold(&np, *inc);
                        if changed {
                            StepOutcome {
                                scope: RebuildScope::Active(self.registry.active_paths()),
                                reload: true,
                                evict: false,
                            }
                        } else {
                            StepOutcome {
                                scope: RebuildScope::Skip,
                                reload: false,
                                evict: false,
                            }
                        }
                    },
                }
            },
        }
    }
}

/// All navigable chapter paths, in order.
pub open spec fn spec_paths(chs: Seq<ChapterItem>) -> Seq<Seq<char>>
    decreases chs.len(),
{
    if chs.len() == 0 {
        Seq::empty()
    } else {
        (match chs[0].path {
            Some(p) => seq![p@],
            None => Seq::empty(),
        }) + spec_paths(chs.drop_first())
    }
}

/// The navigable chapter paths that lie in `act`, in order.
pub open spec fn spec_paths_in(chs: Seq<ChapterItem>, act: Set<Seq<char>>) -> Seq<Seq<char>>
    decreases chs.len(),
{
    if chs.len() == 0 {
        Seq::empty()
    } else {
        (match chs[0].path {
            Some(p) => if act.contains(p@) {
                seq![p@]
            } else {
                Seq::empty()
            },
            None => Seq::empty(),
        }) + spec_paths_in(chs.drop_first(), act)
    }
}

proof fn lemma_spec_paths_snoc(chs: Seq<ChapterItem>, c: ChapterItem)
    ensures
        spec_paths(chs.push(c)) == spec_paths(chs) + (match c.path {
            Some(p) => seq![p@],
            None => Seq::<Seq<char>>::empty(),
        }),
    decreases chs.len(),
{
    if chs.len() == 0 {
        assert(chs.push(c)[0] == c);
        assert(chs.push(c).drop_first() =~= Seq::<ChapterItem>::empty());
        assert(spec_paths(Seq::<ChapterItem>::empty()) == Seq::<Seq<char>>::empty());
        assert(spec_paths(chs.push(c)) =~= spec_paths(chs) + (match c.path {
            Some(p) => seq![p@],
            None => Seq::<Seq<char>>::empty(),
        }));
    } else {
        assert(chs.push(c).drop_first() =~= chs.drop_first().push(c));
        lemma_spec_paths_snoc(chs.drop_first(), c);
        assert(chs.push(c)[0] == chs[0]);
        assert(spec_paths(chs.push(c)) =~= spec_paths(chs) + (match c.path {
            Some(p) => seq![p@],
            None => Seq::<Seq<char>>::empty(),
        }));
    }
}

proof fn lemma_spec_paths_in_snoc(chs: Seq<ChapterItem>, c: ChapterItem, act: Set<Seq<char>>)
    ensures
        spec_paths_in(chs.push(c), act) == spec_paths_in(chs, act) + (match c.path {
            Some(p) => if act.contains(p@) {
                seq![p@]
            } else {
                Seq::<Seq<char>>::empty()
            },
            None => Seq::<Seq<char>>::empty(),
        }),
    decreases chs.len(),
{
    if chs.len() == 0 {
        assert(chs.push(c)[0] == c);
        assert(chs.push(c).drop_first() =~= Seq::<ChapterItem>::empty());
        assert(spec_paths_in(Seq::<ChapterItem>::empty(), act) == Seq::<Seq<char>>::empty());
        assert(spec_paths_in(chs.push(c), act) =~= spec_paths_in(chs, act) + (match c.path {
            Some(p) => if act.contains(p@) {
                seq![p@]
            } else {
                Seq::<Seq<char>>::empty()
            },
            None => Seq::<Seq<char>>::empty(),
        }));
    } else {
        assert(chs.push(c).drop_first() =~= chs.drop_first().push(c));
        lemma_spec_paths_in_snoc(chs.drop_first(), c, act);
        assert(chs.push(c)[0] == chs[0]);
        assert(spec_paths_in(chs.push(c), act) =~= spec_paths_in(chs, act) + (match c.path {
            Some(p) => if act.contains(p@) {
                seq![p@]
            } else {
                Seq::<Seq<char>>::empty()
            },
            None => Seq::<Seq<char>>::empty(),
        }));
    }
}

/// Selects the chapter paths one rebuild covers: none for a skipped event,
/// all navigable chapters for a full rebuild, and exactly the active ones
/// for a filtered rebuild.
pub fn select_chapters(chapters: &Vec<ChapterItem>, scope: &RebuildScope) -> (r: Vec<String>)
    ensures
        match *scope {
            RebuildScope::Skip => r@.len() == 0,
            RebuildScope::Full => r@.map_values(|s: String| s@) == spec_paths(chapters@),
            RebuildScope::Active(act) => r@.map_values(|s: String| s@) == spec_paths_in(
                chapters@,
                dest_set(act@),
            ),
        },
{
    let ghost f = |s: String| s@;
    let mut out: Vec<String> = Vec::new();
    match scope {
        RebuildScope::Skip => out,
        RebuildScope::Full => {
            let n = chapters.len();
            let mut i: usize = 0;
            proof {
                assert(chapters@.subrange(0, 0) =~= Seq::<ChapterItem>::empty());
                assert(out@.map_values(f) =~= spec_paths(chapters@.subrange(0, 0)));
            }
            while i < n
                invariant
                    0 <= i <= n,
                    n == chapters@.len(),
                    out@.map_values(f) == spec_paths(chapters@.subrange(0, i as int)),
                    f == (|s: String| s@),
                decreases n - i,
            {
                match &chapters[i].path {
                    Some(p) => {
                        out.push(p.clone());
                        proof {
                            assert(out@.map_values(f) =~= out@.drop_last().map_values(f) + seq![
                                out@.last()@,
                            ]);
                        }
                    },
                    None => {},
                }
                proof {
                    assert(chapters@.subrange(0, i as int + 1) =~= chapters@.subrange(
                        0,
                        i as int,
                    ).push(chapters@[i as int]));
                    lemma_spec_paths_snoc(chapters@.subrange(0, i as int), chapters@[i as int]);
                    assert(out@.map_values(f) =~= spec_paths(chapters@.subrange(0, i as int + 1)));
                }
                i = i + 1;
            }
            proof {
                assert(chapters@.subrange(0, n as int) =~= chapters@);
            }
            out
        },
        RebuildScope::Active(act) => {
            let ghost actset = dest_set(act@);
            let n = chapters.len();
            let mut i: usize = 0;
            proof {
                assert(chapters@.subrange(0, 0) =~= Seq::<ChapterItem>::empty());
                assert(out@.map_values(f) =~= spec_paths_in(chapters@.subrange(0, 0), actset));
            }
            while i < n
                invariant
                    0 <= i <= n,
                    n == chapters@.len(),
                    actset == dest_set(act@),
                    out@.map_values(f) == spec_paths_in(chapters@.subrange(0, i as int), actset),
                    f == (|s: String| s@),
                decreases n - i,
            {
                match &chapters[i].path {
                    Some(p) => {
                        if vec_contains_str(act, p) {
                            proof {
                                assert(actset.contains(p@));
                            }
                            out.push(p.clone());
                            proof {
                                assert(out@.map_values(f) =~= out@.drop_last().map_values(f)
                                    + seq![out@.last()@]);
                            }
                        } else {
                            proof {
                                assert(!actset.contains(p@));
                            }
                        }
                    },
                    None => {},
                }
                proof {
                    assert(chapters@.subrange(0, i as int + 1) =~= chapters@.subrange(
                        0,
                        i as int,
                    ).push(chapters@[i as int]));
                    lemma_spec_paths_in_snoc(
                        chapters@.subrange(0, i as int),
                        chapters@[i as int],
                        actset,
                    );
                    assert(out@.map_values(f) =~= spec_paths_in(
                        chapters@.subrange(0, i as int + 1),
                        actset,
                    ));
                }
                i = i + 1;
            }
            proof {
                assert(chapters@.subrange(0, n as int) =~= chapters@);
            }
            out
        },
    }
}

/// Idempotent heartbeat: holding a fresh path twice yields one entry with
/// count two and only the first hold changes membership; two releases are
/// then needed to remove the entry, and only the second changes membership.
pub proof fn lemma_heartbeat_idempotent(m: Map<Seq<char>, u64>, p: Seq<char>)
    requires
        !m.dom().contains(p),
    ensures
        ({
            let (m1, c1) = spec_hold(m, p, true);
            let (m2, c2) = spec_hold(m1, p, true);
            let (m3, c3) = spec_hold(m2, p, false);
            let (m4, c4) = spec_hold(m3, p, false);
            &&& c1
            &&& m1[p] == 1
            &&& !c2
            &&& m2[p] == 2
            &&& !c3
            &&& m3[p] == 1
            &&& c4
            &&& !m4.dom().contains(p)
        }),
{
}

/// Reload suppression: a hold/release changes registry membership exactly
/// when it reports a change, and an unchanged heartbeat is exactly one whose
/// membership stays the same. Together with `handle_event` (which reloads
/// only on a change), a heartbeat that does not change membership never
/// emits a reload.
pub proof fn lemma_reload_suppression(m: Map<Seq<char>, u64>, p: Seq<char>, inc: bool)
    ensures
        spec_hold(m, p, inc).1 == (spec_hold(m, p, inc).0.dom() != m.dom()),
{
    let (m2, changed) = spec_hold(m, p, inc);
    if inc {
        if m.dom().contains(p) {
            assert(m2.dom() =~= m.dom());
        } else {
            assert(m2.dom().contains(p) && !m.dom().contains(p));
            assert(m2.dom() != m.dom());
        }
    } else {
        if m.dom().contains(p) {
            if m[p] > 1 {
                assert(m2.dom() =~= m.dom());
            } else {
                assert(!m2.dom().contains(p) && m.dom().contains(p));
                assert(m2.dom() != m.dom());
            }
        } else {
            assert(m2.dom() =~= m.dom());
        }
    }
}

} // verus!
