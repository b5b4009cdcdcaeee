use vstd::prelude::*;

use crate::paths::{resolve_dest, spec_resolve_dest};
use crate::strutil::{bytes_eq, clone_strings, copy_bytes, vec_contains_str};

verus! {

/// The content hash that blake3 assigns to a byte string.
pub uninterp spec fn hash_bytes_of(b: Seq<u8>) -> Seq<u8>;

/// Relies on blake3::hash: the digest depends on the bytes alone, and
/// blake3's standard output is 32 bytes.
#[verifier::external_body]
fn blake3_hash(b: &Vec<u8>) -> (r: Vec<u8>)
    ensures
        r@ == hash_bytes_of(b@),
        r@.len() == 32,
{
    blake3::hash(b.as_slice()).as_bytes().to_vec()
}

/// Static asset to be placed in the output directory.
#[derive(Debug, Clone)]
pub struct AssetInput {
    pub src: AssetSource,
    /// Destination path, resolved against the output directory later.
    pub dest: String,
    /// Asset type hint (css, js, font, image, and the like).
    pub asset_type: String,
}

#[derive(Debug, Clone)]
pub enum AssetSource {
    /// Source file path; its bytes are read and hashed outside the library.
    Path(String),
    /// Direct content bytes.
    Bytes(Vec<u8>),
}

/// What happened for one submitted asset, in input order.
#[derive(Debug)]
pub struct ProcessedAsset {
    pub dest: String,
    /// True when the file must be (over)written on disk.
    pub written: bool,
}

/// What is on disk at a destination before a submission: nothing, or a file
/// with the given content hash.
#[derive(Debug, Clone)]
pub enum DiskState {
    Missing,
    Exists(Vec<u8>),
}

/// One asset, ready for the decision phase: destination, content hash, and
/// the on-disk state at that destination.
#[derive(Debug, Clone)]
pub struct PreparedAsset {
    pub dest: String,
    pub hash: Vec<u8>,
    pub disk: DiskState,
}

/// Hashes in-memory content for submission.
pub fn prepare_from_bytes(dest: String, bytes: &Vec<u8>, disk: DiskState) -> (r: PreparedAsset)
    ensures
        r.dest == dest,
        r.hash@ == hash_bytes_of(bytes@),
        r.hash@.len() == 32,
        r.disk == disk,
{
    PreparedAsset { dest, hash: blake3_hash(bytes), disk }
}

/// Builds a prepared asset from a hash computed elsewhere (a file source
/// hashed outside the library).
pub fn prepare_hashed(dest: String, hash: Vec<u8>, disk: DiskState) -> (r: PreparedAsset)
    ensures
        r.dest == dest,
        r.hash == hash,
        r.disk == disk,
{
    PreparedAsset { dest, hash, disk }
}

/// One destination's record, as mathematics: the content hash last accepted
/// for it and the page that owns it.
pub struct RecModel {
    pub hash: Seq<u8>,
    pub owner: Option<Seq<char>>,
}

struct DestRecord {
    dest: String,
    hash: Vec<u8>,
    owner: Option<String>,
}

spec fn rec_model(r: DestRecord) -> RecModel {
    RecModel {
        hash: r.hash@,
        owner: match r.owner {
            Some(o) => Some(o@),
            None => None,
        },
    }
}

struct PageDeps {
    page: String,
    dests: Vec<String>,
}

/// The set of paths a vector of strings denotes.
pub open spec fn dest_set(v: Seq<String>) -> Set<Seq<char>> {
    Set::new(|k: Seq<char>| exists|i: int| 0 <= i < v.len() && v[i]@ == k)
}

proof fn lemma_dest_set_push(v: Seq<String>, x: String)
    ensures
        dest_set(v.push(x)) == dest_set(v).insert(x@),
{
    let vp = v.push(x);
    assert forall|k: Seq<char>| dest_set(vp).contains(k) implies dest_set(v).insert(x@).contains(
        k,
    ) by {
        let i = choose|i: int| 0 <= i < vp.len() && vp[i]@ == k;
        if i < v.len() {
            assert(v[i]@ == k);
        } else {
            assert(vp[i] == x);
        }
    }
    assert forall|k: Seq<char>| dest_set(v).insert(x@).contains(k) implies dest_set(vp).contains(
        k,
    ) by {
        if k == x@ {
            assert(vp[v.len() as int]@ == k);
        } else {
            let i = choose|i: int| 0 <= i < v.len() && v[i]@ == k;
            assert(vp[i]@ == k);
        }
    }
    assert(dest_set(vp) =~= dest_set(v).insert(x@));
}

spec fn unique_dests(rs: Seq<DestRecord>) -> bool {
    forall|i: int, j: int|
        #![trigger rs[i], rs[j]]
        0 <= i < j < rs.len() ==> rs[i].dest@ != rs[j].dest@
}

spec fn unique_pages(ps: Seq<PageDeps>) -> bool {
    forall|i: int, j: int|
        #![trigger ps[i], ps[j]]
        0 <= i < j < ps.len() ==> ps[i].page@ != ps[j].page@
}

spec fn rec_idx_of(rs: Seq<DestRecord>, k: Seq<char>) -> int {
    choose|i: int| 0 <= i < rs.len() && rs[i].dest@ == k
}

spec fn map_of(rs: Seq<DestRecord>) -> Map<Seq<char>, RecModel> {
    Map::new(
        |k: Seq<char>| exists|i: int| 0 <= i < rs.len() && rs[i].dest@ == k,
        |k: Seq<char>| rec_model(rs[rec_idx_of(rs, k)]),
    )
}

spec fn page_idx_of(ps: Seq<PageDeps>, k: Seq<char>) -> int {
    choose|i: int| 0 <= i < ps.len() && ps[i].page@ == k
}

spec fn pmap_of(ps: Seq<PageDeps>) -> Map<Seq<char>, Set<Seq<char>>> {
    Map::new(
        |k: Seq<char>| exists|i: int| 0 <= i < ps.len() && ps[i].page@ == k,
        |k: Seq<char>| dest_set(ps[page_idx_of(ps, k)].dests@),
    )
}

proof fn lemma_map_of_index(rs: Seq<DestRecord>, i: int)
    requires
        unique_dests(rs),
        0 <= i < rs.len(),
    ensures
        map_of(rs).dom().contains(rs[i].dest@),
        map_of(rs)[rs[i].dest@] == rec_model(rs[i]),
        rec_idx_of(rs, rs[i].dest@) == i,
{
    let k = rs[i].dest@;
    assert(exists|j: int| 0 <= j < rs.len() && rs[j].dest@ == k);
    let w = rec_idx_of(rs, k);
    assert(0 <= w < rs.len() && rs[w].dest@ == k);
    if w != i {
        if w < i {
            assert(rs[w].dest@ != rs[i].dest@);
        } else {
            assert(rs[i].dest@ != rs[w].dest@);
        }
        assert(false);
    }
}

proof fn lemma_map_of_update(rs: Seq<DestRecord>, i: int, r: DestRecord)
    requires
        unique_dests(rs),
        0 <= i < rs.len(),
        r.dest@ == rs[i].dest@,
    ensures
        unique_dests(rs.update(i, r)),
        map_of(rs.update(i, r)) == map_of(rs).insert(r.dest@, rec_model(r)),
{
    let ns = rs.update(i, r);
    assert forall|a: int, b: int|
        #![trigger ns[a], ns[b]]
        0 <= a < b < ns.len() implies ns[a].dest@ != ns[b].dest@ by {
        assert(rs[a].dest@ != rs[b].dest@);
        assert(ns[a].dest@ == rs[a].dest@ && ns[b].dest@ == rs[b].dest@);
    }
    let mnew = map_of(ns);
    let tgt = map_of(rs).insert(r.dest@, rec_model(r));
    assert forall|k: Seq<char>| mnew.dom().contains(k) implies tgt.dom().contains(k) && mnew[k]
        == tgt[k] by {
        let j = rec_idx_of(ns, k);
        assert(0 <= j < ns.len() && ns[j].dest@ == k);
        lemma_map_of_index(ns, j);
        if k == r.dest@ {
            assert(j == i) by {
                if j != i {
                    assert(ns[j].dest@ == rs[j].dest@);
                    assert(rs[j].dest@ != rs[i].dest@ || rs[i].dest@ != rs[j].dest@);
                    if j < i {
                        assert(rs[j].dest@ != rs[i].dest@);
                    } else {
                        assert(rs[i].dest@ != rs[j].dest@);
                    }
                }
            }
            assert(mnew[k] == rec_model(r));
        } else {
            assert(j != i);
            assert(ns[j] == rs[j]);
            lemma_map_of_index(rs, j);
            assert(tgt.dom().contains(k));
            assert(tgt[k] == rec_model(rs[j]));
        }
    }
    assert forall|k: Seq<char>| tgt.dom().contains(k) implies mnew.dom().contains(k) by {
        if k == r.dest@ {
            assert(ns[i].dest@ == k);
        } else {
            let j = rec_idx_of(rs, k);
            assert(0 <= j < rs.len() && rs[j].dest@ == k);
            assert(j != i);
            assert(ns[j].dest@ == k);
        }
    }
    assert(mnew =~= tgt);
}

proof fn lemma_map_of_push(rs: Seq<DestRecord>, r: DestRecord)
    requires
        unique_dests(rs),
        forall|i: int| 0 <= i < rs.len() ==> (#[trigger] rs[i]).dest@ != r.dest@,
    ensures
        unique_dests(rs.push(r)),
        map_of(rs.push(r)) == map_of(rs).insert(r.dest@, rec_model(r)),
{
    let ns = rs.push(r);
    assert forall|a: int, b: int|
        #![trigger ns[a], ns[b]]
        0 <= a < b < ns.len() implies ns[a].dest@ != ns[b].dest@ by {
        if b < rs.len() {
            assert(rs[a].dest@ != rs[b].dest@);
        } else {
            assert(ns[b] == r);
            assert(rs[a].dest@ != r.dest@);
        }
    }
    let mnew = map_of(ns);
    let tgt = map_of(rs).insert(r.dest@, rec_model(r));
    assert forall|k: Seq<char>| mnew.dom().contains(k) implies tgt.dom().contains(k) && mnew[k]
        == tgt[k] by {
        let j = rec_idx_of(ns, k);
        assert(0 <= j < ns.len() && ns[j].dest@ == k);
        lemma_map_of_index(ns, j);
        if k == r.dest@ {
            assert(j == rs.len()) by {
                if j < rs.len() {
                    assert(rs[j].dest@ != r.dest@);
                }
            }
            assert(mnew[k] == rec_model(r));
        } else {
            assert(j < rs.len());
            assert(ns[j] == rs[j]);
            lemma_map_of_index(rs, j);
        }
    }
    assert forall|k: Seq<char>| tgt.dom().contains(k) implies mnew.dom().contains(k) by {
        if k == r.dest@ {
            assert(ns[rs.len() as int].dest@ == k);
        } else {
            let j = rec_idx_of(rs, k);
            assert(0 <= j < rs.len() && rs[j].dest@ == k);
            assert(ns[j].dest@ == k);
        }
    }
    assert(mnew =~= tgt);
}

proof fn lemma_map_of_remove(rs: Seq<DestRecord>, i: int)
    requires
        unique_dests(rs),
        0 <= i < rs.len(),
    ensures
        unique_dests(rs.remove(i)),
        map_of(rs.remove(i)) == map_of(rs).remove(rs[i].dest@),
{
    let ns = rs.remove(i);
    assert forall|a: int, b: int|
        #![trigger ns[a], ns[b]]
        0 <= a < b < ns.len() implies ns[a].dest@ != ns[b].dest@ by {
        let oa = if a < i {
            a
        } else {
            a + 1
        };
        let ob = if b < i {
            b
        } else {
            b + 1
        };
        assert(ns[a] == rs[oa] && ns[b] == rs[ob]);
        assert(rs[oa].dest@ != rs[ob].dest@);
    }
    let mnew = map_of(ns);
    let tgt = map_of(rs).remove(rs[i].dest@);
    assert forall|k: Seq<char>| mnew.dom().contains(k) implies tgt.dom().contains(k) && mnew[k]
        == tgt[k] by {
        let j = rec_idx_of(ns, k);
        assert(0 <= j < ns.len() && ns[j].dest@ == k);
        lemma_map_of_index(ns, j);
        let oj = if j < i {
            j
        } else {
            j + 1
        };
        assert(ns[j] == rs[oj]);
        lemma_map_of_index(rs, oj);
        assert(k != rs[i].dest@) by {
            if oj < i {
                assert(rs[oj].dest@ != rs[i].dest@);
            } else {
                assert(rs[i].dest@ != rs[oj].dest@);
            }
        }
    }
    assert forall|k: Seq<char>| tgt.dom().contains(k) implies mnew.dom().contains(k) by {
        let j = rec_idx_of(rs, k);
        assert(0 <= j < rs.len() && rs[j].dest@ == k);
        assert(j != i);
        if j < i {
            assert(ns[j] == rs[j]);
            assert(ns[j].dest@ == k);
        } else {
            assert(ns[j - 1] == rs[j]);
            assert(ns[j - 1].dest@ == k);
        }
    }
    assert(mnew =~= tgt);
}

proof fn lemma_pmap_of_index(ps: Seq<PageDeps>, i: int)
    requires
        unique_pages(ps),
        0 <= i < ps.len(),
    ensures
        pmap_of(ps).dom().contains(ps[i].page@),
        pmap_of(ps)[ps[i].page@] == dest_set(ps[i].dests@),
        page_idx_of(ps, ps[i].page@) == i,
{
    let k = ps[i].page@;
    assert(exists|j: int| 0 <= j < ps.len() && ps[j].page@ == k);
    let w = page_idx_of(ps, k);
    assert(0 <= w < ps.len() && ps[w].page@ == k);
    if w != i {
        if w < i {
            assert(ps[w].page@ != ps[i].page@);
        } else {
            assert(ps[i].page@ != ps[w].page@);
        }
        assert(false);
    }
}

proof fn lemma_pmap_of_update(ps: Seq<PageDeps>, i: int, p: PageDeps)
    requires
        unique_pages(ps),
        0 <= i < ps.len(),
        p.page@ == ps[i].page@,
    ensures
        unique_pages(ps.update(i, p)),
        pmap_of(ps.update(i, p)) == pmap_of(ps).insert(p.page@, dest_set(p.dests@)),
{
    let ns = ps.update(i, p);
    assert forall|a: int, b: int|
        #![trigger ns[a], ns[b]]
        0 <= a < b < ns.len() implies ns[a].page@ != ns[b].page@ by {
        assert(ps[a].page@ != ps[b].page@);
        assert(ns[a].page@ == ps[a].page@ && ns[b].page@ == ps[b].page@);
    }
    let mnew = pmap_of(ns);
    let tgt = pmap_of(ps).insert(p.page@, dest_set(p.dests@));
    assert forall|k: Seq<char>| mnew.dom().contains(k) implies tgt.dom().contains(k) && mnew[k]
        == tgt[k] by {
        let j = page_idx_of(ns, k);
        assert(0 <= j < ns.len() && ns[j].page@ == k);
        lemma_pmap_of_index(ns, j);
        if k == p.page@ {
            assert(j == i) by {
                if j != i {
                    if j < i {
                        assert(ps[j].page@ != ps[i].page@);
                    } else {
                        assert(ps[i].page@ != ps[j].page@);
                    }
                }
            }
        } else {
            assert(j != i);
            assert(ns[j] == ps[j]);
            lemma_pmap_of_index(ps, j);
        }
    }
    assert forall|k: Seq<char>| tgt.dom().contains(k) implies mnew.dom().contains(k) by {
        if k == p.page@ {
            assert(ns[i].page@ == k);
        } else {
            let j = page_idx_of(ps, k);
            assert(0 <= j < ps.len() && ps[j].page@ == k);
            assert(j != i);
            assert(ns[j].page@ == k);
        }
    }
    assert(mnew =~= tgt);
}

proof fn lemma_pmap_of_push(ps: Seq<PageDeps>, p: PageDeps)
    requires
        unique_pages(ps),
        forall|i: int| 0 <= i < ps.len() ==> (#[trigger] ps[i]).page@ != p.page@,
    ensures
        unique_pages(ps.push(p)),
        pmap_of(ps.push(p)) == pmap_of(ps).insert(p.page@, dest_set(p.dests@)),
{
    let ns = ps.push(p);
    assert forall|a: int, b: int|
        #![trigger ns[a], ns[b]]
        0 <= a < b < ns.len() implies ns[a].page@ != ns[b].page@ by {
        if b < ps.len() {
            assert(ps[a].page@ != ps[b].page@);
        } else {
            assert(ns[b] == p);
            assert(ps[a].page@ != p.page@);
        }
    }
    let mnew = pmap_of(ns);
    let tgt = pmap_of(ps).insert(p.page@, dest_set(p.dests@));
    assert forall|k: Seq<char>| mnew.dom().contains(k) implies tgt.dom().contains(k) && mnew[k]
        == tgt[k] by {
        let j = page_idx_of(ns, k);
        assert(0 <= j < ns.len() && ns[j].page@ == k);
        lemma_pmap_of_index(ns, j);
        if k == p.page@ {
            assert(j == ps.len()) by {
                if j < ps.len() {
                    assert(ps[j].page@ != p.page@);
                }
            }
        } else {
            assert(j < ps.len());
            assert(ns[j] == ps[j]);
            lemma_pmap_of_index(ps, j);
        }
    }
    assert forall|k: Seq<char>| tgt.dom().contains(k) implies mnew.dom().contains(k) by {
        if k == p.page@ {
            assert(ns[ps.len() as int].page@ == k);
        } else {
            let j = page_idx_of(ps, k);
            assert(0 <= j < ps.len() && ps[j].page@ == k);
            assert(ns[j].page@ == k);
        }
    }
    assert(mnew =~= tgt);
}

/// What the decision phase rules for one asset.
pub enum AssetDisposition {
    /// Destination escapes the output directory: skipped, nothing recorded.
    SkippedInvalid,
    /// A record with the same content exists: no write, no ownership change.
    Unchanged,
    /// The owning page resubmits different content: write and update.
    Overwrite,
    /// Different content under another owner: no write, prior record kept.
    Conflict,
    /// No record, but the on-disk file already has this content: claim it,
    /// no write.
    AdoptMatch,
    /// No record and the on-disk file differs: claim it with the disk's own
    /// hash and do not write, so rebuilds do not oscillate.
    AdoptConflict,
    /// Nothing recorded and nothing on disk: write and claim.
    WriteNew,
}

pub open spec fn spec_writes(d: AssetDisposition) -> bool {
    d is Overwrite || d is WriteNew
}

pub open spec fn spec_conflicting(d: AssetDisposition) -> bool {
    d is Conflict || d is AdoptConflict
}

pub open spec fn disk_model(d: DiskState) -> Option<Seq<u8>> {
    match d {
        DiskState::Missing => None,
        DiskState::Exists(h) => Some(h@),
    }
}

/// The decision for one asset with resolved destination `dest`, content
/// `hash` and on-disk state `disk`, against the records `m`.
pub open spec fn spec_decide(
    m: Map<Seq<char>, RecModel>,
    page: Seq<char>,
    dest: Seq<char>,
    hash: Seq<u8>,
    disk: Option<Seq<u8>>,
) -> AssetDisposition {
    if m.dom().contains(dest) {
        if m[dest].hash == hash {
            AssetDisposition::Unchanged
        } else if m[dest].owner == Some(page) {
            AssetDisposition::Overwrite
        } else {
            AssetDisposition::Conflict
        }
    } else {
        match disk {
            Some(dh) => if dh == hash {
                AssetDisposition::AdoptMatch
            } else {
                AssetDisposition::AdoptConflict
            },
            None => AssetDisposition::WriteNew,
        }
    }
}

/// How the records change for one asset.
pub open spec fn spec_apply(
    m: Map<Seq<char>, RecModel>,
    page: Seq<char>,
    dest: Seq<char>,
    hash: Seq<u8>,
    disk: Option<Seq<u8>>,
) -> Map<Seq<char>, RecModel> {
    match spec_decide(m, page, dest, hash, disk) {
        AssetDisposition::Overwrite | AssetDisposition::WriteNew | AssetDisposition::AdoptMatch
            => m.insert(dest, RecModel { hash, owner: Some(page) }),
        AssetDisposition::AdoptConflict => m.insert(
            dest,
            RecModel {
                hash: match disk {
                    Some(dh) => dh,
                    None => hash,
                },
                owner: Some(page),
            },
        ),
        _ => m,
    }
}

/// The decision phase over a whole submission: the records after all assets,
/// which assets are written, which destinations conflicted, and the set of
/// destinations the page now produces.
pub struct RunState {
    pub m_state: Map<Seq<char>, RecModel>,
    pub m_written: Seq<bool>,
    pub m_conflicts: Seq<Seq<char>>,
    pub m_deps: Set<Seq<char>>,
}

pub open spec fn spec_run(
    m0: Map<Seq<char>, RecModel>,
    page: Seq<char>,
    items: Seq<PreparedAsset>,
    dist: Seq<char>,
) -> RunState
    decreases items.len(),
{
    if items.len() == 0 {
        RunState {
            m_state: m0,
            m_written: Seq::empty(),
            m_conflicts: Seq::empty(),
            m_deps: Set::empty(),
        }
    } else {
        let prev = spec_run(m0, page, items.drop_last(), dist);
        let it = items.last();
        match spec_resolve_dest(it.dest@, dist) {
            None => RunState {
                m_state: prev.m_state,
                m_written: prev.m_written.push(false),
                m_conflicts: prev.m_conflicts,
                m_deps: prev.m_deps,
            },
            Some(d) => {
                let disp = spec_decide(prev.m_state, page, d, it.hash@, disk_model(it.disk));
                RunState {
                    m_state: spec_apply(prev.m_state, page, d, it.hash@, disk_model(it.disk)),
                    m_written: prev.m_written.push(spec_writes(disp)),
                    m_conflicts: if spec_conflicting(disp) {
                        prev.m_conflicts.push(d)
                    } else {
                        prev.m_conflicts
                    },
                    m_deps: prev.m_deps.insert(d),
                }
            },
        }
    }
}

/// The destination set of a page's previous submission, empty for a page
/// never seen.
pub open spec fn spec_prev_deps(
    pm: Map<Seq<char>, Set<Seq<char>>>,
    page: Seq<char>,
) -> Set<Seq<char>> {
    if pm.dom().contains(page) {
        pm[page]
    } else {
        Set::empty()
    }
}

/// What one submission asks the caller to do: per input asset whether its
/// file must be written, which destinations conflicted, and which files of
/// this page's earlier submission must be deleted.
pub struct SubmitReport {
    pub processed: Vec<ProcessedAsset>,
    pub conflicts: Vec<String>,
    pub stale: Vec<String>,
}

/// Asset dedup: when two different pages submit identical content for the
/// same fresh destination, only the first submission writes, and neither
/// submission conflicts.
pub proof fn lemma_asset_dedup(
    m0: Map<Seq<char>, RecModel>,
    p1: Seq<char>,
    p2: Seq<char>,
    dest: Seq<char>,
    hash: Seq<u8>,
)
    requires
        !m0.dom().contains(dest),
    ensures
        spec_writes(spec_decide(m0, p1, dest, hash, None)),
        !spec_conflicting(spec_decide(m0, p1, dest, hash, None)),
        !spec_writes(spec_decide(spec_apply(m0, p1, dest, hash, None), p2, dest, hash, None)),
        !spec_conflicting(spec_decide(spec_apply(m0, p1, dest, hash, None), p2, dest, hash, None)),
        spec_apply(spec_apply(m0, p1, dest, hash, None), p2, dest, hash, None) == spec_apply(
            m0,
            p1,
            dest,
            hash,
            None,
        ),
{
    let m1 = spec_apply(m0, p1, dest, hash, None);
    assert(m1.dom().contains(dest) && m1[dest].hash == hash);
}

/// Asset conflict: when a second page submits different content for an owned
/// destination, exactly the first submission writes, the second is reported
/// as a conflict and changes nothing; and a later resubmission by the second
/// page with matching content still neither writes nor takes ownership.
pub proof fn lemma_asset_conflict(
    m0: Map<Seq<char>, RecModel>,
    p1: Seq<char>,
    p2: Seq<char>,
    dest: Seq<char>,
    h1: Seq<u8>,
    h2: Seq<u8>,
)
    requires
        !m0.dom().contains(dest),
        h1 != h2,
        p1 != p2,
    ensures
        spec_writes(spec_decide(m0, p1, dest, h1, None)),
        spec_decide(spec_apply(m0, p1, dest, h1, None), p2, dest, h2, None)
            is Conflict,
        spec_apply(spec_apply(m0, p1, dest, h1, None), p2, dest, h2, None) == spec_apply(
            m0,
            p1,
            dest,
            h1,
            None,
        ),
        spec_decide(spec_apply(m0, p1, dest, h1, None), p2, dest, h1, None)
            is Unchanged,
        spec_apply(m0, p1, dest, h1, None)[dest].owner == Some(p1),
        spec_apply(spec_apply(m0, p1, dest, h1, None), p2, dest, h1, None)[dest].owner == Some(p1),
{
    let m1 = spec_apply(m0, p1, dest, h1, None);
    assert(m1.dom().contains(dest) && m1[dest].hash == h1 && m1[dest].owner == Some(p1));
}

/// Stale asset cleanup: when a page's previous submission produced `x` and
/// `y` and the new one produces only `x`, exactly `y` goes stale; and a
/// resubmission of `x` with its recorded content is not rewritten.
pub proof fn lemma_stale_cleanup(
    m: Map<Seq<char>, RecModel>,
    page: Seq<char>,
    x: Seq<char>,
    y: Seq<char>,
    h: Seq<u8>,
)
    requires
        x != y,
        m.dom().contains(x),
        m[x].hash == h,
    ensures
        set![x, y].difference(set![x]) =~= set![y],
        !spec_writes(spec_decide(m, page, x, h, None)),
        spec_apply(m, page, x, h, None) == m,
{
    assert(spec_decide(m, page, x, h, None) is Unchanged);
}

/// Tracks, per destination under the output directory, the last accepted
/// content hash and the owning page, and per page the set of destinations it
/// produces. All decisions about writing, skipping, adopting or rejecting an
/// asset are made here; reading and writing the files themselves happens
/// outside the library, directed by the reports this type returns. Hashing
/// happens before a submission; concurrent page workers serialize their
/// submissions with one lock around each call, held by the shell.
pub struct AssetManager {
    records: Vec<DestRecord>,
    pages: Vec<PageDeps>,
}

impl AssetManager {
    /// The per-destination records: content hash and owner, keyed by
    /// resolved destination path.
    pub closed spec fn dest_map(&self) -> Map<Seq<char>, RecModel> {
        map_of(self.records@)
    }

    /// The per-page sets of destinations produced by the page's latest
    /// submission.
    pub closed spec fn page_map(&self) -> Map<Seq<char>, Set<Seq<char>>> {
        pmap_of(self.pages@)
    }

    pub closed spec fn wf(&self) -> bool {
        unique_dests(self.records@) && unique_pages(self.pages@)
    }

    /// How many destination records are held (a machine-size bound for
    /// submissions).
    pub closed spec fn records_len(&self) -> nat {
        self.records@.len()
    }

    /// How many pages have submitted so far.
    pub closed spec fn pages_len(&self) -> nat {
        self.pages@.len()
    }

    pub fn new() -> (r: AssetManager)
        ensures
            r.wf(),
            r.dest_map() == Map::<Seq<char>, RecModel>::empty(),
            r.page_map() == Map::<Seq<char>, Set<Seq<char>>>::empty(),
            r.records_len() == 0,
            r.pages_len() == 0,
    {
        let r = AssetManager { records: Vec::new(), pages: Vec::new() };
        proof {
            assert(r.dest_map() =~= Map::<Seq<char>, RecModel>::empty());
            assert(r.page_map() =~= Map::<Seq<char>, Set<Seq<char>>>::empty());
        }
        r
    }

    fn find_record(&self, dest: &String) -> (r: Option<usize>)
        requires
            self.wf(),
        ensures
            match r {
                Some(i) => i < self.records@.len() && self.records@[i as int].dest@ == dest@
                    && self.dest_map().dom().contains(dest@) && self.dest_map()[dest@] == rec_model(
                    self.records@[i as int],
                ),
                None => !self.dest_map().dom().contains(dest@),
            },
    {
        let n = self.records.len();
        let mut i: usize = 0;
        while i < n
            invariant
                0 <= i <= n,
                n == self.records@.len(),
                self.wf(),
                forall|j: int| 0 <= j < i ==> (#[trigger] self.records@[j]).dest@ != dest@,
            decreases n - i,
        {
            if dest.eq(&self.records[i].dest) {
                proof {
                    lemma_map_of_index(self.records@, i as int);
                }
                return Some(i);
            }
            i = i + 1;
        }
        None
    }

    fn find_page(&self, page: &String) -> (r: Option<usize>)
        requires
            self.wf(),
        ensures
            match r {
                Some(i) => i < self.pages@.len() && self.pages@[i as int].page@ == page@
                    && self.page_map().dom().contains(page@) && self.page_map()[page@] == dest_set(
                    self.pages@[i as int].dests@,
                ),
                None => !self.page_map().dom().contains(page@),
            },
    {
        let n = self.pages.len();
        let mut i: usize = 0;
        while i < n
            invariant
                0 <= i <= n,
                n == self.pages@.len(),
                self.wf(),
                forall|j: int| 0 <= j < i ==> (#[trigger] self.pages@[j]).page@ != page@,
            decreases n - i,
        {
            if page.eq(&self.pages[i].page) {
                proof {
                    lemma_pmap_of_index(self.pages@, i as int);
                }
                return Some(i);
            }
            i = i + 1;
        }
        None
    }

    fn set_record(&mut self, dest: &String, hash: Vec<u8>, page: &String)
        requires
            old(self).wf(),
            old(self).records@.len() < usize::MAX,
        ensures
            final(self).wf(),
            final(self).dest_map() == old(self).dest_map().insert(
                dest@,
                RecModel { hash: hash@, owner: Some(page@) },
            ),
            final(self).page_map() == old(self).page_map(),
            final(self).records_len() <= old(self).records_len() + 1,
            final(self).pages_len() == old(self).pages_len(),
    {
        let found = self.find_record(dest);
        let rec = DestRecord { dest: dest.clone(), hash, owner: Some(page.clone()) };
        let ghost rs = self.records@;
        match found {
            Some(i) => {
                proof {
                    lemma_map_of_update(rs, i as int, rec);
                }
                self.records[i] = rec;
                proof {
                    assert(self.records@ =~= rs.update(i as int, rec));
                }
            },
            None => {
                proof {
                    lemma_map_of_push(rs, rec);
                }
                self.records.push(rec);
            },
        }
    }

    fn remove_record(&mut self, dest: &String)
        requires
            old(self).wf(),
        ensures
            final(self).wf(),
            final(self).dest_map() == old(self).dest_map().remove(dest@),
            final(self).page_map() == old(self).page_map(),
            final(self).records_len() <= old(self).records_len(),
            final(self).pages_len() == old(self).pages_len(),
    {
        let found = self.find_record(dest);
        match found {
            Some(i) => {
                proof {
                    lemma_map_of_remove(self.records@, i as int);
                }
                self.records.remove(i);
            },
            None => {
                proof {
                    assert(self.dest_map() =~= self.dest_map().remove(dest@));
                }
            },
        }
    }

    fn set_page_deps(&mut self, page: &String, dests: Vec<String>)
        requires
            old(self).wf(),
            old(self).pages_len() < usize::MAX,
        ensures
            final(self).wf(),
            final(self).page_map() == old(self).page_map().insert(page@, dest_set(dests@)),
            final(self).dest_map() == old(self).dest_map(),
            final(self).pages_len() <= old(self).pages_len() + 1,
            final(self).records_len() == old(self).records_len(),
    {
        let found = self.find_page(page);
        let entry = PageDeps { page: page.clone(), dests };
        let ghost ps = self.pages@;
        match found {
            Some(i) => {
                proof {
                    lemma_pmap_of_update(ps, i as int, entry);
                }
                self.pages[i] = entry;
                proof {
                    assert(self.pages@ =~= ps.update(i as int, entry));
                }
            },
            None => {
                proof {
                    lemma_pmap_of_push(ps, entry);
                }
                self.pages.push(entry);
            },
        }
    }

    /// The destinations this page produced in its previous submission, or
    /// nothing for a page never seen.
    fn previous_deps(&self, page: &String) -> (r: Vec<String>)
        requires
            self.wf(),
        ensures
            dest_set(r@) == (if self.page_map().dom().contains(page@) {
                self.page_map()[page@]
            } else {
                Set::<Seq<char>>::empty()
            }),
    {
        let found = self.find_page(page);
        match found {
            Some(i) => clone_strings(&self.pages[i].dests),
            None => {
                let r: Vec<String> = Vec::new();
                proof {
                    assert(dest_set(r@) =~= Set::<Seq<char>>::empty());
                }
                r
            },
        }
    }

    /// Submits one page's assets: per asset, decide whether it must be
    /// written, reused, adopted from disk, or rejected as a conflict, update
    /// the records, and finally compute which destinations of this page's
    /// previous submission went stale. The caller performs the writes and
    /// deletions the report asks for.
    ///
    /// First-committer-wins: a destination recorded with different content
    /// under another owner is never overwritten, only reported as a
    /// conflict.
    pub fn submit_assets(&mut self, page_id: &String, items: &Vec<PreparedAsset>, dist_dir: &String)
        -> (r: SubmitReport)
        requires
            old(self).wf(),
            old(self).records_len() + items@.len() < usize::MAX,
            old(self).pages_len() < usize::MAX,
        ensures
            final(self).wf(),
            final(self).records_len() <= old(self).records_len() + items@.len(),
            final(self).pages_len() <= old(self).pages_len() + 1,
            ({
                let run = spec_run(old(self).dest_map(), page_id@, items@, dist_dir@);
                let olddeps = spec_prev_deps(old(self).page_map(), page_id@);
                let staleset = olddeps.difference(run.m_deps);
                &&& final(self).dest_map() == run.m_state.remove_keys(staleset)
                &&& final(self).page_map() == old(self).page_map().insert(page_id@, run.m_deps)
                &&& r.processed@.len() == items@.len()
                &&& forall|i: int|
                    0 <= i < items@.len() ==> (#[trigger] r.processed@[i]).dest@ == items@[i].dest@
                        && r.processed@[i].written == run.m_written[i]
                &&& r.conflicts@.map_values(|s: String| s@) == run.m_conflicts
                &&& dest_set(r.stale@) == staleset
            }),
    {
        let ghost m0 = self.dest_map();
        let ghost pm0 = self.page_map();
        let n = items.len();
        let mut processed: Vec<ProcessedAsset> = Vec::new();
        let mut conflicts: Vec<String> = Vec::new();
        let mut new_deps: Vec<String> = Vec::new();
        let mut i: usize = 0;
        proof {
            assert(items@.subrange(0, 0) =~= Seq::<PreparedAsset>::empty());
            let run0 = spec_run(m0, page_id@, items@.subrange(0, 0), dist_dir@);
            assert(processed@.len() == run0.m_written.len());
            assert(conflicts@.map_values(|s: String| s@) =~= run0.m_conflicts);
            assert(dest_set(new_deps@) =~= run0.m_deps);
        }
        while i < n
            invariant
                0 <= i <= n,
                n == items@.len(),
                self.wf(),
                self.records_len() <= old(self).records_len() + i,
                old(self).records_len() + items@.len() < usize::MAX,
                old(self).pages_len() < usize::MAX,
                self.pages_len() == old(self).pages_len(),
                ({
                    let run = spec_run(m0, page_id@, items@.subrange(0, i as int), dist_dir@);
                    &&& self.dest_map() == run.m_state
                    &&& self.page_map() == pm0
                    &&& processed@.len() == i
                    &&& forall|j: int|
                        0 <= j < i ==> (#[trigger] processed@[j]).dest@ == items@[j].dest@
                            && processed@[j].written == run.m_written[j]
                    &&& run.m_written.len() == i
                    &&& conflicts@.map_values(|s: String| s@) == run.m_conflicts
                    &&& dest_set(new_deps@) == run.m_deps
                }),
            decreases n - i,
        {
            let ghost pre = spec_run(m0, page_id@, items@.subrange(0, i as int), dist_dir@);
            proof {
                assert(items@.subrange(0, i as int + 1).drop_last() =~= items@.subrange(
                    0,
                    i as int,
                ));
                assert(items@.subrange(0, i as int + 1).last() == items@[i as int]);
            }
            let ghost post = spec_run(m0, page_id@, items@.subrange(0, i as int + 1), dist_dir@);
            let it = &items[i];
            match resolve_dest(it.dest.as_str(), dist_dir.as_str()) {
                None => {
                    processed.push(ProcessedAsset { dest: it.dest.clone(), written: false });
                    proof {
                        assert(post.m_state == pre.m_state);
                        assert(post.m_conflicts == pre.m_conflicts);
                        assert(post.m_deps == pre.m_deps);
                        assert(post.m_written == pre.m_written.push(false));
                    }
                },
                Some(d) => {
                    let ghost deps_before = new_deps@;
                    new_deps.push(d.clone());
                    proof {
                        assert(new_deps@ =~= deps_before.push(new_deps@[deps_before.len() as int]));
                        lemma_dest_set_push(deps_before, new_deps@[deps_before.len() as int]);
                        assert(dest_set(new_deps@) =~= pre.m_deps.insert(d@));
                    }
                    let ghost disp = spec_decide(
                        pre.m_state,
                        page_id@,
                        d@,
                        it.hash@,
                        disk_model(it.disk),
                    );
                    let mut written = false;
                    match self.find_record(&d) {
                        Some(ri) => {
                            let same = bytes_eq(&self.records[ri].hash, &it.hash);
                            if same {
                                proof {
                                    assert(disp is Unchanged);
                                }
                            } else {
                                let owned = match &self.records[ri].owner {
                                    Some(o) => page_id.eq(o),
                                    None => false,
                                };
                                if owned {
                                    proof {
                                        assert(disp is Overwrite);
                                    }
                                    self.set_record(&d, copy_bytes(&it.hash), page_id);
                                    written = true;
                                } else {
                                    proof {
                                        assert(disp is Conflict);
                                    }
                                    conflicts.push(d.clone());
                                    proof {
                                        assert(conflicts@.map_values(|s: String| s@)
                                            =~= pre.m_conflicts.push(d@));
                                    }
                                }
                            }
                        },
                        None => {
                            match &it.disk {
                                DiskState::Exists(dh) => {
                                    let same = bytes_eq(dh, &it.hash);
                                    if !same {
                                        proof {
                                            assert(disp is AdoptConflict);
                                        }
                                        conflicts.push(d.clone());
                                        proof {
                                            assert(conflicts@.map_values(|s: String| s@)
                                                =~= pre.m_conflicts.push(d@));
                                        }
                                    } else {
                                        proof {
                                            assert(disp is AdoptMatch);
                                        }
                                    }
                                    self.set_record(&d, copy_bytes(dh), page_id);
                                },
                                DiskState::Missing => {
                                    proof {
                                        assert(disp is WriteNew);
                                    }
                                    self.set_record(&d, copy_bytes(&it.hash), page_id);
                                    written = true;
                                },
                            }
                        },
                    }
                    processed.push(ProcessedAsset { dest: it.dest.clone(), written });
                    proof {
                        assert(self.dest_map() == post.m_state);
                        assert(post.m_written == pre.m_written.push(spec_writes(disp)));
                    }
                },
            }
            i = i + 1;
        }
        proof {
            assert(items@.subrange(0, n as int) =~= items@);
        }
        let ghost run = spec_run(m0, page_id@, items@, dist_dir@);

        // Stale cleanup: destinations from this page's previous submission
        // that it no longer produces are deleted and their records dropped.
        let old_deps = self.previous_deps(page_id);
        let ghost olddeps_set = spec_prev_deps(pm0, page_id@);
        proof {
            assert(dest_set(old_deps@) == olddeps_set);
        }
        let mut stale: Vec<String> = Vec::new();
        let m = old_deps.len();
        let mut k: usize = 0;
        while k < m
            invariant
                0 <= k <= m,
                m == old_deps@.len(),
                dest_set(new_deps@) == run.m_deps,
                forall|j: int|
                    0 <= j < stale@.len() ==> olddeps_set.contains((#[trigger] stale@[j])@)
                        && !run.m_deps.contains(stale@[j]@),
                forall|j: int|
                    0 <= j < k ==> run.m_deps.contains((#[trigger] old_deps@[j])@) || dest_set(
                        stale@,
                    ).contains(old_deps@[j]@),
                dest_set(old_deps@) == olddeps_set,
            decreases m - k,
        {
            if !vec_contains_str(&new_deps, &old_deps[k]) {
                let ghost stale_before = stale@;
                stale.push(old_deps[k].clone());
                proof {
                    assert(stale@ =~= stale_before.push(stale@[stale_before.len() as int]));
                    lemma_dest_set_push(stale_before, stale@[stale_before.len() as int]);
                    assert(dest_set(stale@) == dest_set(stale_before).insert(
                        old_deps@[k as int]@,
                    ));
                    assert(dest_set(stale@).contains(old_deps@[k as int]@));
                    assert(olddeps_set.contains(old_deps@[k as int]@));
                    assert(!run.m_deps.contains(old_deps@[k as int]@));
                }
            } else {
                proof {
                    assert(dest_set(new_deps@).contains(old_deps@[k as int]@));
                }
            }
            k = k + 1;
        }
        let ghost staleset = olddeps_set.difference(run.m_deps);
        proof {
            assert forall|key: Seq<char>| staleset.contains(key) implies dest_set(stale@).contains(
                key,
            ) by {
                let j = choose|j: int| 0 <= j < old_deps@.len() && old_deps@[j]@ == key;
                assert(run.m_deps.contains(old_deps@[j]@) || dest_set(stale@).contains(
                    old_deps@[j]@,
                ));
            }
            assert(dest_set(stale@) =~= staleset);
        }

        // Drop the records of the stale destinations.
        let sn = stale.len();
        let mut t: usize = 0;
        while t < sn
            invariant
                0 <= t <= sn,
                sn == stale@.len(),
                self.wf(),
                self.page_map() == pm0,
                self.dest_map() == run.m_state.remove_keys(dest_set(stale@.subrange(0, t as int))),
                old(self).pages_len() < usize::MAX,
                self.pages_len() == old(self).pages_len(),
                self.records_len() <= old(self).records_len() + items@.len(),
            decreases sn - t,
        {
            let ghost before = self.dest_map();
            self.remove_record(&stale[t]);
            proof {
                assert(stale@.subrange(0, t as int + 1) =~= stale@.subrange(0, t as int).push(
                    stale@[t as int],
                ));
                lemma_dest_set_push(stale@.subrange(0, t as int), stale@[t as int]);
                assert(dest_set(stale@.subrange(0, t as int + 1)) == dest_set(
                    stale@.subrange(0, t as int),
                ).insert(stale@[t as int]@));
                assert(self.dest_map() =~= run.m_state.remove_keys(
                    dest_set(stale@.subrange(0, t as int + 1)),
                ));
            }
            t = t + 1;
        }
        proof {
            assert(stale@.subrange(0, sn as int) =~= stale@);
        }

        // Record this page's new destination set.
        self.set_page_deps(page_id, new_deps);

        SubmitReport { processed, conflicts, stale }
    }

    /// True when a destination already has an in-memory record; only then is
    /// the on-disk probe at that destination irrelevant for a submission.
    pub fn has_record(&self, dest: &String, dist_dir: &String) -> (r: bool)
        requires
            self.wf(),
        ensures
            r == (match spec_resolve_dest(dest@, dist_dir@) {
                Some(d) => self.dest_map().dom().contains(d),
                None => false,
            }),
    {
        match resolve_dest(dest.as_str(), dist_dir.as_str()) {
            Some(d) => self.find_record(&d).is_some(),
            None => false,
        }
    }
}

} // verus!
