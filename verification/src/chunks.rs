//! The spatial chunk index.
//!
//! World space is partitioned into a coarse grid of square cells. An
//! entity's cell is the floor division of its canonical x and z coordinates
//! by the cell size; the stored chunk row keeps the cell coordinates as
//! unsigned words. A periodic job recomputes the cell of every online
//! entity, writing the row only when it changed, and a read-only query
//! returns the chunk rows within a fixed radius of a viewer, with bounds
//! saturating at zero so that a viewer near the origin never underflows.

use vstd::prelude::*;
use vstd::arithmetic::div_mod::{lemma_fundamental_div_mod, lemma_fundamental_div_mod_converse};
use crate::ids::{EntityId, Identity, PlayerAccountId};
use crate::entity::{EntityChunk, EntityRecord};
use crate::store::EntityStore;
use crate::lifecycle::{
    ConnectionLifecycle, PlayerAccount, account_of, has_account, lemma_account_at, owner_online,
};

verus! {

/// Default radius, in cells, of the proximity query.
pub const DEFAULT_NEARBY_RADIUS: u32 = 3;

/// The grid cell that coordinate `v` falls into, for cell size `cell`:
/// floor division, so negative coordinates map to negative cells.
pub open spec fn chunk_coord_spec(v: int, cell: int) -> int {
    v / cell
}

/// Floor division of a world coordinate by the cell size.
///
/// Euclidean division by a positive divisor is floor division, so the
/// ensures pins the result exactly: `125 / 50` is cell `2`, `-10 / 50` is
/// cell `-1`, and `-1 / 50` is cell `-1`, never `0`.
pub fn chunk_coord(v: i32, cell: u32) -> (c: i32)
    requires
        cell >= 1,
    ensures
        c as int == chunk_coord_spec(v as int, cell as int),
{
    if v >= 0 {
        let q: u32 = (v as u32) / cell;
        proof {
            assert(v as u32 as int == v as int);
            assert(q <= v as u32) by {
                let vi = v as u32 as int;
                let c = cell as int;
                lemma_fundamental_div_mod(vi, c);
                let qq = vi / c;
                let rr = vi % c;
                assert(vi == c * qq + rr);
                assert(qq >= 0 && rr >= 0);
                assert(qq <= c * qq) by (nonlinear_arith)
                    requires qq >= 0 && c >= 1;
            }
        }
        q as i32
    } else {
        let m: u64 = (-(v as i64)) as u64;
        let c64: u64 = cell as u64;
        let q: u64 = (m + c64 - 1) / c64;
        proof {
            let mm = m as int;
            let cc = c64 as int;
            let qq = q as int;
            lemma_fundamental_div_mod(mm + cc - 1, cc);
            let rr = (mm + cc - 1) % cc;
            assert(mm + cc - 1 == cc * qq + rr);
            assert(0 <= rr < cc);
            assert(-mm == (-qq) * cc + (cc - 1 - rr)) by (nonlinear_arith)
                requires mm + cc - 1 == cc * qq + rr;
            lemma_fundamental_div_mod_converse(-mm, cc, -qq, cc - 1 - rr);
            assert((-mm) / cc == -qq);
            // The quotient never exceeds the magnitude of the dividend, so
            // the negated cell index fits an i32.
            assert(qq >= 1) by (nonlinear_arith)
                requires cc * qq == mm + cc - 1 - rr, mm >= 1, rr <= cc - 1, cc >= 1;
            assert(qq <= mm) by (nonlinear_arith)
                requires cc * qq <= mm + cc - 1, qq >= 1, cc >= 1;
            assert(v as int == -mm);
        }
        (-(q as i64)) as i32
    }
}

/// The pair of cells for a position `(x, _, z)` under cell size `cell`.
pub fn chunk_of(x: i32, z: i32, cell: u32) -> (r: (i32, i32))
    requires
        cell >= 1,
    ensures
        r.0 as int == chunk_coord_spec(x as int, cell as int),
        r.1 as int == chunk_coord_spec(z as int, cell as int),
{
    (chunk_coord(x, cell), chunk_coord(z, cell))
}

/// The cell index as stored in a chunk row: the floor-division cell,
/// truncated to an unsigned word.
pub open spec fn chunk_cell_stored(v: int, cell: int) -> u32 {
    chunk_coord_spec(v, cell) as u32
}

/// Computes the stored form of the cell index for coordinate `v`.
pub fn chunk_cell_u32(v: i32, cell: u32) -> (r: u32)
    requires
        cell >= 1,
    ensures
        r == chunk_cell_stored(v as int, cell as int),
{
    let c = chunk_coord(v, cell);
    #[verifier::truncate] (c as u32)
}

/// `a - b`, saturating at zero.
pub fn saturating_sub_u32(a: u32, b: u32) -> (r: u32)
    ensures
        r == if a as int >= b as int { a as int - b as int } else { 0int },
{
    if a >= b {
        a - b
    } else {
        0
    }
}

/// `a + b`, saturating at the largest unsigned word.
pub fn saturating_add_u32(a: u32, b: u32) -> (r: u32)
    ensures
        r == if a as int + b as int <= u32::MAX as int { a as int + b as int } else { u32::MAX as int },
{
    if a <= u32::MAX - b {
        a + b
    } else {
        u32::MAX
    }
}

/// The chunk row a tick leaves for record `r`: recomputed from the
/// canonical position when the owning account is online and the cell
/// changed; otherwise the row is untouched, so an unchanged cell keeps its
/// old `modified_at` and triggers no notification.
pub open spec fn spec_new_chunk(
    r: EntityRecord,
    accounts: Seq<PlayerAccount>,
    online: Seq<Identity>,
    cell: int,
    now: u64,
) -> EntityChunk {
    let cx = chunk_cell_stored(r.position.x as int, cell);
    let cz = chunk_cell_stored(r.position.z as int, cell);
    if owner_online(accounts, online, r.entity.owner_id)
        && (r.chunk.chunk_x != cx || r.chunk.chunk_z != cz) {
        EntityChunk { id: r.entity.id, chunk_x: cx, chunk_z: cz, modified_at: now }
    } else {
        r.chunk
    }
}

/// Whether the tick rewrites the chunk row of record `r`.
pub open spec fn chunk_write_effective(
    r: EntityRecord,
    accounts: Seq<PlayerAccount>,
    online: Seq<Identity>,
    cell: int,
) -> bool {
    &&& owner_online(accounts, online, r.entity.owner_id)
    &&& (r.chunk.chunk_x != chunk_cell_stored(r.position.x as int, cell)
        || r.chunk.chunk_z != chunk_cell_stored(r.position.z as int, cell))
}

/// The full contract of a chunk tick: only chunk rows move, each to its
/// recomputed cell, and the events name exactly the rows that changed.
pub open spec fn chunk_tick_post(
    pre: Seq<EntityRecord>,
    post: Seq<EntityRecord>,
    accounts: Seq<PlayerAccount>,
    online: Seq<Identity>,
    cell: int,
    now: u64,
    events: Seq<EntityId>,
) -> bool {
    &&& post.len() == pre.len()
    &&& forall|i: int| 0 <= i < pre.len() ==> (#[trigger] post[i]).entity == pre[i].entity
    &&& forall|i: int| 0 <= i < pre.len() ==> (#[trigger] post[i]).position == pre[i].position
    &&& forall|i: int| 0 <= i < pre.len() ==> (#[trigger] post[i]).rotation == pre[i].rotation
    &&& forall|i: int| 0 <= i < pre.len()
            ==> (#[trigger] post[i]).chunk == spec_new_chunk(pre[i], accounts, online, cell, now)
    &&& forall|id: EntityId| #[trigger] events.contains(id)
            <==> exists|i: int| 0 <= i < pre.len() && (#[trigger] pre[i]).entity.id == id
                && chunk_write_effective(pre[i], accounts, online, cell)
    &&& forall|a: int, b: int| 0 <= a < b < events.len() ==> events[a] != events[b]
}

/// One chunk tick: recomputes the chunk cell of every entity owned by an
/// online account from its canonical position, writing the row (and its
/// `modified_at`) only when the cell differs, and returns the entities
/// whose chunk row changed.
#[verifier::loop_isolation(false)]
#[verifier::rlimit(30)]
pub fn calculate_current_chunks(
    store: &mut EntityStore,
    lc: &ConnectionLifecycle,
    cell_size: u32,
    now: u64,
) -> (events: Vec<EntityId>)
    requires
        old(store).wf(),
        lc.wf(),
        cell_size >= 1,
    ensures
        final(store).wf(),
        final(store).next_id == old(store).next_id,
        chunk_tick_post(
            old(store).records@,
            final(store).records@,
            lc.accounts@,
            lc.online@,
            cell_size as int,
            now,
            events@,
        ),
{
    let ghost pre = store.records@;
    let mut events: Vec<EntityId> = Vec::new();
    let n = store.records.len();
    let mut i: usize = 0;
    while i < n
        invariant
            i <= n,
            n == pre.len(),
            store.next_id == old(store).next_id,
            store.records@.len() == pre.len(),
            forall|k: int| 0 <= k < pre.len()
                ==> (#[trigger] store.records@[k]).entity == pre[k].entity,
            forall|k: int| 0 <= k < pre.len()
                ==> (#[trigger] store.records@[k]).position == pre[k].position,
            forall|k: int| 0 <= k < pre.len()
                ==> (#[trigger] store.records@[k]).rotation == pre[k].rotation,
            forall|k: int| 0 <= k < pre.len()
                ==> (#[trigger] store.records@[k]).chunk == (
                    if k < i {
                        spec_new_chunk(pre[k], lc.accounts@, lc.online@, cell_size as int, now)
                    } else {
                        pre[k].chunk
                    }),
            forall|id: EntityId| #[trigger] events@.contains(id)
                <==> exists|k: int| 0 <= k < i && (#[trigger] pre[k]).entity.id == id
                    && chunk_write_effective(pre[k], lc.accounts@, lc.online@, cell_size as int),
            forall|a: int, b: int| 0 <= a < b < events@.len() ==> events@[a] != events@[b],
            store.wf(),
        decreases n - i,
    {
        let r = store.records[i];
        if lc.is_owner_online(r.entity.owner_id) {
            let cx = chunk_cell_u32(r.position.x, cell_size);
            let cz = chunk_cell_u32(r.position.z, cell_size);
            if r.chunk.chunk_x != cx || r.chunk.chunk_z != cz {
                let nr = EntityRecord {
                    chunk: EntityChunk { id: r.entity.id, chunk_x: cx, chunk_z: cz, modified_at: now },
                    ..r
                };
                let ghost ev0 = events@;
                store.records[i] = nr;
                events.push(r.entity.id);
                proof {
                    let ev1 = events@;
                    assert(ev1 == ev0.push(pre[i as int].entity.id));
                    assert(chunk_write_effective(pre[i as int], lc.accounts@, lc.online@, cell_size as int));
                    assert forall|id: EntityId| #[trigger] ev1.contains(id)
                        implies exists|k: int| 0 <= k < i + 1 && (#[trigger] pre[k]).entity.id == id
                            && chunk_write_effective(pre[k], lc.accounts@, lc.online@, cell_size as int) by {
                        let ii = choose|ii: int| 0 <= ii < ev1.len() && ev1[ii] == id;
                        if ii < ev0.len() {
                            assert(ev0[ii] == id);
                            assert(ev0.contains(id));
                        } else {
                            assert(pre[i as int].entity.id == id);
                        }
                    }
                    assert forall|id: EntityId|
                        (exists|k: int| 0 <= k < i + 1 && (#[trigger] pre[k]).entity.id == id
                            && chunk_write_effective(pre[k], lc.accounts@, lc.online@, cell_size as int))
                        implies #[trigger] ev1.contains(id) by {
                        let k = choose|k: int| 0 <= k < i + 1 && (#[trigger] pre[k]).entity.id == id
                            && chunk_write_effective(pre[k], lc.accounts@, lc.online@, cell_size as int);
                        if k < i as int {
                            assert(ev0.contains(id));
                            let ii = choose|ii: int| 0 <= ii < ev0.len() && ev0[ii] == id;
                            assert(ev1[ii] == id);
                        } else {
                            assert(ev1[ev1.len() - 1] == id);
                        }
                    }
                    assert forall|a: int, b: int| 0 <= a < b < ev1.len()
                        implies ev1[a] != ev1[b] by {
                        if b == ev1.len() - 1 {
                            assert(ev1[a] == ev0[a]);
                            if ev0[a] == pre[i as int].entity.id {
                                assert(ev0.contains(pre[i as int].entity.id));
                                let k = choose|k: int|
                                    0 <= k < i && (#[trigger] pre[k]).entity.id == pre[i as int].entity.id
                                        && chunk_write_effective(pre[k], lc.accounts@, lc.online@, cell_size as int);
                                assert(false);
                            }
                        }
                    }
                }
            } else {
                proof {
                    assert(r.chunk.id == pre[i as int].entity.id);
                    assert(store.records@[i as int].chunk == pre[i as int].chunk);
                    assert(!chunk_write_effective(pre[i as int], lc.accounts@, lc.online@, cell_size as int));
                    assert(store.records@[i as int].chunk
                        == spec_new_chunk(pre[i as int], lc.accounts@, lc.online@, cell_size as int, now));
                }
            }
        } else {
            proof {
                assert(!chunk_write_effective(pre[i as int], lc.accounts@, lc.online@, cell_size as int));
            }
        }
        proof {
            assert forall|id: EntityId| #[trigger] events@.contains(id)
                <==> exists|k: int| 0 <= k < i + 1 && (#[trigger] pre[k]).entity.id == id
                    && chunk_write_effective(pre[k], lc.accounts@, lc.online@, cell_size as int) by {
                if !chunk_write_effective(pre[i as int], lc.accounts@, lc.online@, cell_size as int) {
                    if exists|k: int| 0 <= k < i + 1 && (#[trigger] pre[k]).entity.id == id
                        && chunk_write_effective(pre[k], lc.accounts@, lc.online@, cell_size as int) {
                        let k = choose|k: int| 0 <= k < i + 1 && (#[trigger] pre[k]).entity.id == id
                            && chunk_write_effective(pre[k], lc.accounts@, lc.online@, cell_size as int);
                        assert(k < i as int);
                    }
                }
            }
        }
        i = i + 1;
    }
    events
}

/// A chunk tick never re-triggers for an entity whose stored cell already
/// matches its canonical position: such an entity is absent from the
/// chunk change events and its chunk rows are untouched, whoever is
/// online.
pub proof fn lemma_unchanged_cell_no_chunk_event(
    pre: Seq<EntityRecord>,
    post: Seq<EntityRecord>,
    accounts: Seq<PlayerAccount>,
    online: Seq<Identity>,
    cell: int,
    now: u64,
    events: Seq<EntityId>,
    id: EntityId,
)
    requires
        chunk_tick_post(pre, post, accounts, online, cell, now, events),
        forall|i: int| 0 <= i < pre.len() && (#[trigger] pre[i]).entity.id == id
            ==> pre[i].chunk.chunk_x == chunk_cell_stored(pre[i].position.x as int, cell)
                && pre[i].chunk.chunk_z == chunk_cell_stored(pre[i].position.z as int, cell),
    ensures
        !events.contains(id),
        forall|i: int| 0 <= i < pre.len() && (#[trigger] pre[i]).entity.id == id
            ==> post[i].chunk == pre[i].chunk,
{
    if events.contains(id) {
        let i = choose|i: int| 0 <= i < pre.len() && (#[trigger] pre[i]).entity.id == id
            && chunk_write_effective(pre[i], accounts, online, cell);
        assert(false);
    }
    assert forall|i: int| 0 <= i < pre.len() && (#[trigger] pre[i]).entity.id == id
        implies post[i].chunk == pre[i].chunk by {
        assert(!chunk_write_effective(pre[i], accounts, online, cell));
        assert(post[i].chunk == spec_new_chunk(pre[i], accounts, online, cell, now));
    }
}

/// Whether a chunk row lies inside the rectangular cell range.
pub open spec fn chunk_in_range(c: EntityChunk, lo_x: u32, hi_x: u32, lo_z: u32, hi_z: u32) -> bool {
    &&& lo_x <= c.chunk_x <= hi_x
    &&& lo_z <= c.chunk_z <= hi_z
}

/// The chunk rows of `s` inside the range, in table order.
pub open spec fn chunks_in_range(
    s: Seq<EntityRecord>,
    lo_x: u32,
    hi_x: u32,
    lo_z: u32,
    hi_z: u32,
) -> Seq<EntityChunk>
    decreases s.len(),
{
    if s.len() == 0 {
        Seq::empty()
    } else {
        let p = chunks_in_range(s.drop_last(), lo_x, hi_x, lo_z, hi_z);
        if chunk_in_range(s.last().chunk, lo_x, hi_x, lo_z, hi_z) {
            p.push(s.last().chunk)
        } else {
            p
        }
    }
}

/// The range query returns exactly the stored rows inside the range:
/// every returned row is a stored row in range, and every stored row in
/// range is returned.
pub proof fn lemma_chunks_in_range(s: Seq<EntityRecord>, lo_x: u32, hi_x: u32, lo_z: u32, hi_z: u32)
    ensures
        forall|k: int| 0 <= k < chunks_in_range(s, lo_x, hi_x, lo_z, hi_z).len()
            ==> chunk_in_range(#[trigger] chunks_in_range(s, lo_x, hi_x, lo_z, hi_z)[k], lo_x, hi_x, lo_z, hi_z)
                && exists|i: int| 0 <= i < s.len()
                    && (#[trigger] s[i]).chunk == chunks_in_range(s, lo_x, hi_x, lo_z, hi_z)[k],
        forall|i: int| 0 <= i < s.len()
            && chunk_in_range((#[trigger] s[i]).chunk, lo_x, hi_x, lo_z, hi_z)
            ==> chunks_in_range(s, lo_x, hi_x, lo_z, hi_z).contains(s[i].chunk),
    decreases s.len(),
{
    let w = chunks_in_range(s, lo_x, hi_x, lo_z, hi_z);
    if s.len() > 0 {
        let t = s.drop_last();
        let wt = chunks_in_range(t, lo_x, hi_x, lo_z, hi_z);
        lemma_chunks_in_range(t, lo_x, hi_x, lo_z, hi_z);
        assert forall|k: int| 0 <= k < w.len()
            implies chunk_in_range(#[trigger] w[k], lo_x, hi_x, lo_z, hi_z)
                && exists|i: int| 0 <= i < s.len() && (#[trigger] s[i]).chunk == w[k] by {
            if chunk_in_range(s.last().chunk, lo_x, hi_x, lo_z, hi_z) && k == w.len() - 1 {
                assert(w[k] == s.last().chunk);
                assert(s[s.len() - 1].chunk == w[k]);
            } else {
                assert(w[k] == wt[k]);
                let i = choose|i: int| 0 <= i < t.len() && (#[trigger] t[i]).chunk == wt[k];
                assert(s[i].chunk == w[k]);
            }
        }
        assert forall|i: int| 0 <= i < s.len()
            && chunk_in_range((#[trigger] s[i]).chunk, lo_x, hi_x, lo_z, hi_z)
            implies w.contains(s[i].chunk) by {
            if i == s.len() - 1 {
                assert(w[w.len() - 1] == s.last().chunk);
            } else {
                assert(t[i] == s[i]);
                assert(wt.contains(t[i].chunk));
                let k = choose|k: int| 0 <= k < wt.len() && wt[k] == t[i].chunk;
                assert(w[k] == s[i].chunk);
            }
        }
    }
}

/// The first record owned by `owner`, in table order, is at index `i`.
pub open spec fn is_first_owned(s: Seq<EntityRecord>, owner: PlayerAccountId, i: int) -> bool {
    &&& 0 <= i < s.len()
    &&& s[i].entity.owner_id == owner
    &&& forall|k: int| 0 <= k < i ==> (#[trigger] s[k]).entity.owner_id != owner
}

/// What the proximity query returns: nothing when the viewer has no
/// account or no owned entity; otherwise exactly the chunk rows within
/// `radius` cells of the viewer's own chunk, the bounds saturating at the
/// edges of the unsigned cell space.
pub open spec fn nearby_post(
    s: Seq<EntityRecord>,
    accounts: Seq<PlayerAccount>,
    viewer: Identity,
    radius: u32,
    r: Seq<EntityChunk>,
) -> bool {
    if !has_account(accounts, viewer) {
        r.len() == 0
    } else {
        let owner = account_of(accounts, viewer).id;
        if exists|i: int| is_first_owned(s, owner, i) {
            exists|i: int| #[trigger] is_first_owned(s, owner, i) && {
                let c = s[i].chunk;
                r == chunks_in_range(
                    s,
                    sat_sub_spec(c.chunk_x, radius),
                    sat_add_spec(c.chunk_x, radius),
                    sat_sub_spec(c.chunk_z, radius),
                    sat_add_spec(c.chunk_z, radius),
                )
            }
        } else {
            r.len() == 0
        }
    }
}

/// `a - b` saturating at zero, as a specification value.
pub open spec fn sat_sub_spec(a: u32, b: u32) -> u32 {
    if a >= b { (a - b) as u32 } else { 0u32 }
}

/// `a + b` saturating at the largest unsigned word, as a specification
/// value.
pub open spec fn sat_add_spec(a: u32, b: u32) -> u32 {
    if a + b <= u32::MAX { (a + b) as u32 } else { u32::MAX }
}

/// Finds the first record owned by `owner`, if any.
fn find_first_owned(store: &EntityStore, owner: PlayerAccountId) -> (r: Option<usize>)
    ensures
        match r {
            Some(i) => is_first_owned(store.records@, owner, i as int),
            None => forall|k: int| 0 <= k < store.records@.len()
                ==> (#[trigger] store.records@[k]).entity.owner_id != owner,
        },
{
    let n = store.records.len();
    let mut i: usize = 0;
    while i < n
        invariant
            i <= n,
            n == store.records@.len(),
            forall|k: int| 0 <= k < i ==> (#[trigger] store.records@[k]).entity.owner_id != owner,
        decreases n - i,
    {
        if store.records[i].entity.owner_id.0 == owner.0 {
            assert(store.records@[i as int].entity.owner_id == owner);
            return Some(i);
        }
        i = i + 1;
    }
    None
}

/// The proximity query: the chunk rows whose cells both lie within
/// `radius` of the viewer's own chunk cell, bounds clamped at zero so a
/// viewer near the origin never underflows. Returns an empty result when
/// the viewer has no account or no owned entity; it never fails.
#[verifier::loop_isolation(false)]
pub fn nearby_entity_chunks(
    store: &EntityStore,
    lc: &ConnectionLifecycle,
    viewer: Identity,
    radius: u32,
) -> (r: Vec<EntityChunk>)
    requires
        store.wf(),
        lc.wf(),
    ensures
        nearby_post(store.records@, lc.accounts@, viewer, radius, r@),
{
    let account = match lc.find_account(viewer) {
        Some(a) => a,
        None => {
            return Vec::new();
        }
    };
    proof {
        let i = choose|i: int| 0 <= i < lc.accounts@.len()
            && (#[trigger] lc.accounts@[i]) == account && account.identity == viewer;
        lemma_account_at(lc.accounts@, i, viewer);
    }
    let owner = account.id;
    let viewer_idx = match find_first_owned(store, owner) {
        Some(i) => i,
        None => {
            return Vec::new();
        }
    };
    let c = store.records[viewer_idx].chunk;
    let lo_x = saturating_sub_u32(c.chunk_x, radius);
    let hi_x = saturating_add_u32(c.chunk_x, radius);
    let lo_z = saturating_sub_u32(c.chunk_z, radius);
    let hi_z = saturating_add_u32(c.chunk_z, radius);

    let mut out: Vec<EntityChunk> = Vec::new();
    let n = store.records.len();
    let mut i: usize = 0;
    while i < n
        invariant
            i <= n,
            n == store.records@.len(),
            out@ == chunks_in_range(store.records@.subrange(0, i as int), lo_x, hi_x, lo_z, hi_z),
        decreases n - i,
    {
        proof {
            let pre = store.records@.subrange(0, i as int);
            let cur = store.records@.subrange(0, i as int + 1);
            assert(cur.drop_last() =~= pre);
            assert(cur.last() == store.records@[i as int]);
        }
        let rec = store.records[i];
        if lo_x <= rec.chunk.chunk_x && rec.chunk.chunk_x <= hi_x
            && lo_z <= rec.chunk.chunk_z && rec.chunk.chunk_z <= hi_z {
            out.push(rec.chunk);
        }
        i = i + 1;
    }
    proof {
        assert(store.records@.subrange(0, n as int) =~= store.records@);
        assert(is_first_owned(store.records@, owner, viewer_idx as int));
    }
    out
}

} // verus!
