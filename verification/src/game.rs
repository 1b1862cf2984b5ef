//! The decision logic of the game: mode selection, the fixed-timestep
//! tick accumulator, voxel-event application policy, and the raycast
//! interactions that drive block breaking, placing and picking.

use vstd::prelude::*;

use crate::voxel::voxelevent::{OneVoxelChange, VoxelEvent, VoxelEventUntyped};
use crate::voxel::voxelmath::{VoxelPos, VoxelRaycast};
use crate::voxel::voxelstorage::{VoxelError, VoxelStorage};
use crate::world::block::BlockID;
use crate::world::dimension::{lemma_defined_block_bounded, Dimension};

verus! {

/// An id distinguishing one player from another.
pub type PlayerID = u64;

/// A network port number.
pub type Port = u16;

/// Length of a single simulation tick, in milliseconds.
pub const TICK_LENGTH_MS: u64 = 50;

/// The role this process plays: a local world with a window, a client of
/// a remote server, or a headless authoritative server. Addresses are
/// carried as text.
#[derive(Clone, Debug, PartialEq, Eq)]
pub enum GameMode {
    Singleplayer,
    JoinServer(String),
    Server(String),
}

/// A command line asking to both host and join is a usage error.
#[derive(Clone, Copy, Debug, PartialEq, Eq, Structural)]
pub enum CliError {
    BothServerAndJoin,
}

/// Selects the game mode from the two optional command-line addresses:
/// hosting wins over nothing, joining wins over nothing, asking for both
/// is refused, and no flag means singleplayer.
pub fn select_mode(server: Option<String>, join: Option<String>) -> (r: Result<GameMode, CliError>)
    ensures
        match r {
            Ok(m) => (match (server, join) {
                (Some(_), Some(_)) => false,
                (Some(a), None) => m == GameMode::Server(a),
                (None, Some(a)) => m == GameMode::JoinServer(a),
                (None, None) => m == GameMode::Singleplayer,
            }),
            Err(e) => server is Some && join is Some && e == CliError::BothServerAndJoin,
        },
{
    match (server, join) {
        (Some(_), Some(_)) => Err(CliError::BothServerAndJoin),
        (Some(a), None) => Ok(GameMode::Server(a)),
        (None, Some(a)) => Ok(GameMode::JoinServer(a)),
        (None, None) => Ok(GameMode::Singleplayer),
    }
}

/// Consumes whole ticks from the accumulated elapsed time: the tick
/// counter advances once per full tick length, and the remainder stays
/// accumulated.
pub fn consume_ticks(current_tick: u64, accumulated_ms: u64) -> (r: (u64, u64))
    requires
        current_tick + accumulated_ms as int / TICK_LENGTH_MS as int <= u64::MAX,
    ensures
        r.0 == current_tick + accumulated_ms as int / TICK_LENGTH_MS as int,
        r.1 == accumulated_ms as int % TICK_LENGTH_MS as int,
        r.1 < TICK_LENGTH_MS,
{
    proof {
        vstd::arithmetic::div_mod::lemma_fundamental_div_mod(accumulated_ms as int, TICK_LENGTH_MS as int);
        vstd::arithmetic::div_mod::lemma_mod_bound(accumulated_ms as int, TICK_LENGTH_MS as int);
        vstd::arithmetic::div_mod::lemma_div_pos_is_pos(accumulated_ms as int, TICK_LENGTH_MS as int);
    }
    (current_tick + accumulated_ms / TICK_LENGTH_MS, accumulated_ms % TICK_LENGTH_MS)
}

/// What one tick's event pump did: the events applied in order, and
/// whether a fatal error stopped the pump early.
pub struct ApplyReport {
    pub applied: Vec<VoxelEvent<BlockID, i32>>,
    pub fatal: Option<VoxelError>,
}

/// Whether an event can be fully applied to a dimension: every target
/// position is currently defined. Event application preserves which
/// blocks are defined, so this does not change as a batch is pumped.
pub open spec fn event_applicable(dim: Dimension, e: VoxelEvent<BlockID, i32>) -> bool {
    forall|t: (int, int, int)| #[trigger] e.targets().contains(t) ==> dim.block_defined(t)
}

/// The cells after one fully applicable event: every target holds the
/// event's value, everything else is untouched.
pub open spec fn apply_one_cells(
    cells: Map<(int, int, int), BlockID>,
    e: VoxelEvent<BlockID, i32>,
) -> Map<(int, int, int), BlockID> {
    Map::new(
        |p: (int, int, int)| cells.dom().contains(p),
        |p: (int, int, int)|
            if e.targets().contains(p) {
                e.source_value()
            } else {
                cells[p]
            },
    )
}

/// The cells after pumping a batch in order: each applicable event
/// writes its targets, and an inapplicable one is skipped.
pub open spec fn apply_batch_cells(
    cells: Map<(int, int, int), BlockID>,
    events: Seq<VoxelEvent<BlockID, i32>>,
    dim0: Dimension,
) -> Map<(int, int, int), BlockID>
    decreases events.len(),
{
    if events.len() == 0 {
        cells
    } else {
        let next = if event_applicable(dim0, events[0]) {
            apply_one_cells(cells, events[0])
        } else {
            cells
        };
        apply_batch_cells(next, events.drop_first(), dim0)
    }
}

/// Pumping one more event folds onto the end of the batch.
proof fn lemma_apply_batch_push(
    cells: Map<(int, int, int), BlockID>,
    events: Seq<VoxelEvent<BlockID, i32>>,
    e: VoxelEvent<BlockID, i32>,
    dim0: Dimension,
)
    ensures
        apply_batch_cells(cells, events.push(e), dim0) == (if event_applicable(dim0, e) {
            apply_one_cells(apply_batch_cells(cells, events, dim0), e)
        } else {
            apply_batch_cells(cells, events, dim0)
        }),
    decreases events.len(),
{
    let stepped = if event_applicable(dim0, e) {
        apply_one_cells(cells, e)
    } else {
        cells
    };
    if events.len() == 0 {
        assert(events.push(e)[0] == e);
        assert(events.push(e).drop_first() =~= events);
        assert(apply_batch_cells(cells, events, dim0) == cells);
        assert(apply_batch_cells(cells, events.push(e), dim0) == apply_batch_cells(
            stepped,
            events.push(e).drop_first(),
            dim0,
        ));
        assert(apply_batch_cells(stepped, events, dim0) == stepped);
    } else {
        assert(events.push(e)[0] == events[0]);
        assert(events.push(e).drop_first() =~= events.drop_first().push(e));
        let next = if event_applicable(dim0, events[0]) {
            apply_one_cells(cells, events[0])
        } else {
            cells
        };
        assert(apply_batch_cells(cells, events.push(e), dim0) == apply_batch_cells(
            next,
            events.push(e).drop_first(),
            dim0,
        ));
        assert(apply_batch_cells(cells, events, dim0) == apply_batch_cells(
            next,
            events.drop_first(),
            dim0,
        ));
        lemma_apply_batch_push(next, events.drop_first(), e, dim0);
    }
}

/// Applies a batch of voxel events to the dimension in order. An event
/// touching unloaded space is skipped; any other failure stops the pump
/// and is reported; every fully applied event is collected for
/// rebroadcast. When nothing fatal happens, the applied events are
/// exactly the applicable ones, in order, and a batch of single-voxel
/// events leaves the dimension's cells at the fold of the batch.
pub fn apply_events(dim: &mut Dimension, events: Vec<VoxelEvent<BlockID, i32>>) -> (r: ApplyReport)
    ensures
        match r.fatal {
            Some(e) => e != VoxelError::NotYetLoaded,
            None => true,
        },
        forall|k: int|
            0 <= k < r.applied@.len() ==> from_batch(#[trigger] r.applied@[k], events@),
        forall|p: (int, int, int)| #[trigger] final(dim).block_defined(p) == old(
            dim,
        ).block_defined(p),
        r.fatal is None ==> r.applied@ == events@.filter(
            |e: VoxelEvent<BlockID, i32>| event_applicable(*old(dim), e),
        ),
        (r.fatal is None && (forall|k: int| 0 <= k < events@.len() ==> events@[k] is SetOne))
            ==> final(dim).cells() == apply_batch_cells(old(dim).cells(), events@, *old(dim)),
        r.fatal is Some ==> exists|k: int, t: (int, int, int)|
            0 <= k < events@.len() && #[trigger] events@[k].targets().contains(t) && !old(
                dim,
            ).block_defined(t),
{
    let ghost pred = |e: VoxelEvent<BlockID, i32>| event_applicable(*old(dim), e);
    proof {
        reveal(Seq::filter);
        assert(events@.subrange(0, 0).filter(pred) =~= Seq::<VoxelEvent<BlockID, i32>>::empty());
    }
    let mut applied: Vec<VoxelEvent<BlockID, i32>> = Vec::new();
    let mut k: usize = 0;
    while k < events.len()
        invariant
            k <= events@.len(),
            pred == (|e: VoxelEvent<BlockID, i32>| event_applicable(*old(dim), e)),
            forall|j: int|
                0 <= j < applied@.len() ==> from_batch(#[trigger] applied@[j], events@),
            forall|p: (int, int, int)| #[trigger] dim.block_defined(p) == old(dim).block_defined(
                p,
            ),
            applied@ == events@.subrange(0, k as int).filter(pred),
            (forall|j: int| 0 <= j < events@.len() ==> events@[j] is SetOne) ==> dim.cells()
                == apply_batch_cells(
                old(dim).cells(),
                events@.subrange(0, k as int),
                *old(dim),
            ),
        decreases events@.len() - k,
    {
        let e = events[k];
        let ghost pre_dim = *dim;
        let ghost prefix = events@.subrange(0, k as int);
        let r = dim.apply_event(e);
        proof {
            assert(events@.subrange(0, k + 1).drop_last() =~= prefix);
            assert(events@.subrange(0, k + 1).last() == e);
            assert(events@.subrange(0, k + 1) =~= prefix.push(e));
            lemma_apply_batch_push(old(dim).cells(), prefix, e, *old(dim));
            if r is Ok {
                assert(event_applicable(*old(dim), e)) by {
                    assert forall|t: (int, int, int)| #[trigger]
                        e.targets().contains(t) implies old(dim).block_defined(t) by {
                        assert(pre_dim.block_defined(t));
                    }
                }
            } else {
                assert(!event_applicable(*old(dim), e)) by {
                    let t = choose|t: (int, int, int)| #[trigger]
                        e.targets().contains(t) && !pre_dim.block_defined(t);
                    assert(!old(dim).block_defined(t));
                }
            }
        }
        match r {
            Ok(_) => {
                applied.push(e);
                proof {
                    assert(events@[k as int] == e);
                    assert(from_batch(e, events@));
                    assert(applied@ =~= prefix.filter(pred).push(e));
                    reveal(Seq::filter);
                    assert(prefix.push(e).drop_last() =~= prefix);
                    assert(prefix.push(e).filter(pred) =~= prefix.filter(pred).push(e));
                    if forall|j: int| 0 <= j < events@.len() ==> events@[j] is SetOne {
                        assert(dim.cells() =~= apply_one_cells(pre_dim.cells(), e)) by {
                            assert forall|p: (int, int, int)| true implies (
                            dim.cells().dom().contains(p) == pre_dim.cells().dom().contains(p) && (
                            pre_dim.cells().dom().contains(p) ==> dim.cells()[p] == (
                            if e.targets().contains(p) {
                                e.source_value()
                            } else {
                                pre_dim.cells()[p]
                            }))) by {
                                if e.targets().contains(p) {
                                    assert(pre_dim.block_defined(p));
                                }
                            }
                        }
                    }
                }
            },
            Err(VoxelError::NotYetLoaded) => {
                proof {
                    reveal(Seq::filter);
                    assert(prefix.push(e).drop_last() =~= prefix);
                    assert(prefix.push(e).filter(pred) =~= prefix.filter(pred));
                    if forall|j: int| 0 <= j < events@.len() ==> events@[j] is SetOne {
                        assert(dim.cells() =~= pre_dim.cells()) by {
                            assert(events@[k as int] == e);
                            assert(e is SetOne);
                            assert forall|p: (int, int, int)| true implies (
                            dim.cells().dom().contains(p) == pre_dim.cells().dom().contains(p) && (
                            pre_dim.cells().dom().contains(p) ==> dim.cells()[p]
                                == pre_dim.cells()[p])) by {
                                if e.targets().contains(p) {
                                    assert(e matches VoxelEvent::SetOne(c) && p == c.pos.as_tuple());
                                    assert(!pre_dim.block_defined(p));
                                }
                            }
                        }
                    }
                }
            },
            Err(other) => {
                proof {
                    let t = choose|t: (int, int, int)| #[trigger]
                        e.targets().contains(t) && !pre_dim.block_defined(t);
                    assert(events@[k as int].targets().contains(t) && !old(dim).block_defined(t));
                }
                return ApplyReport { applied, fatal: Some(other) };
            },
        }
        k = k + 1;
    }
    proof {
        assert(events@.subrange(0, events@.len() as int) =~= events@);
    }
    ApplyReport { applied, fatal: None }
}

/// Whether an event is one of a batch.
pub open spec fn from_batch(e: VoxelEvent<BlockID, i32>, events: Seq<VoxelEvent<BlockID, i32>>) -> bool {
    exists|k2: int| 0 <= k2 < events.len() && #[trigger] events[k2] == e
}

/// The magnitude of a mathematical integer.
pub open spec fn abs_int(a: int) -> int {
    if a >= 0 {
        a
    } else {
        -a
    }
}

/// The walking distance between two voxel positions.
pub open spec fn l1_dist(a: VoxelPos<i32>, b: VoxelPos<i32>) -> int {
    abs_int(a.x - b.x) + abs_int(a.y - b.y) + abs_int(a.z - b.z)
}

/// The walking distance of a position from the world origin.
pub open spec fn l1_norm(a: VoxelPos<i32>) -> int {
    abs_int(a.x as int) + abs_int(a.y as int) + abs_int(a.z as int)
}

/// How a raycast through the world ended.
#[derive(Clone, Copy, Debug, PartialEq, Eq, Structural)]
pub enum RaycastOutcome {
    HitSolid(VoxelPos<i32>),
    LeftLoaded(VoxelPos<i32>),
    OutOfSteps,
}

/// Walks a raycast through the dimension until it meets a solid block or
/// leaves the loaded chunks. The step budget is a hard cap; a raycast
/// aimed away from all solid blocks always leaves the loaded region
/// before any budget at least as large as the loaded world's extent runs
/// out, so it terminates rather than looping indefinitely.
pub fn raycast_to_solid(dim: &Dimension, ray: &mut VoxelRaycast, max_steps: usize) -> (r:
    RaycastOutcome)
    requires
        old(ray).wf(),
        -0x4000_0000 <= old(ray).spec_pos().x <= 0x4000_0000,
        -0x4000_0000 <= old(ray).spec_pos().y <= 0x4000_0000,
        -0x4000_0000 <= old(ray).spec_pos().z <= 0x4000_0000,
        old(ray).spec_nums().0 <= 0x10_0000,
        old(ray).spec_nums().1 <= 0x10_0000,
        old(ray).spec_nums().2 <= 0x10_0000,
        max_steps <= 0x1000_0000,
    ensures
        match r {
            RaycastOutcome::HitSolid(p) => p == final(ray).spec_pos() && dim.block_defined(
                p.as_tuple(),
            ) && dim.block_value(p.as_tuple()) != 0,
            RaycastOutcome::LeftLoaded(p) => p == final(ray).spec_pos() && !dim.block_defined(
                p.as_tuple(),
            ),
            RaycastOutcome::OutOfSteps => true,
        },
        r is OutOfSteps ==> l1_dist(final(ray).spec_pos(), old(ray).spec_pos()) == max_steps,
        forall|b: int|
            0 <= b && dim.span_bounded(b) && 3 * (b + 1) * 256 + l1_norm(old(ray).spec_pos()) + 2
                < max_steps ==> !(r is OutOfSteps),
{
    let cs = dim.chunk_size();
    let ghost start = ray.spec_pos();
    let mut n: usize = 0;
    loop
        invariant
            ray.wf(),
            ray.spec_sign_x() == old(ray).spec_sign_x(),
            ray.spec_sign_y() == old(ray).spec_sign_y(),
            ray.spec_sign_z() == old(ray).spec_sign_z(),
            start == old(ray).spec_pos(),
            -0x4000_0000 <= start.x <= 0x4000_0000,
            -0x4000_0000 <= start.y <= 0x4000_0000,
            -0x4000_0000 <= start.z <= 0x4000_0000,
            0 <= n <= max_steps,
            max_steps <= 0x1000_0000,
            l1_dist(ray.spec_pos(), start) == n,
            ray.spec_sign_x() == 1 ==> ray.spec_pos().x >= start.x,
            ray.spec_sign_x() == -1 ==> ray.spec_pos().x <= start.x,
            ray.spec_sign_y() == 1 ==> ray.spec_pos().y >= start.y,
            ray.spec_sign_y() == -1 ==> ray.spec_pos().y <= start.y,
            ray.spec_sign_z() == 1 ==> ray.spec_pos().z >= start.z,
            ray.spec_sign_z() == -1 ==> ray.spec_pos().z <= start.z,
            ray.spec_nums().0 <= 0x10_0000 + 256 * n,
            ray.spec_nums().1 <= 0x10_0000 + 256 * n,
            ray.spec_nums().2 <= 0x10_0000 + 256 * n,
            1 <= dim.spec_chunk_size().0 <= 255,
            1 <= dim.spec_chunk_size().1 <= 255,
            1 <= dim.spec_chunk_size().2 <= 255,
            forall|b: int|
                0 <= b && dim.span_bounded(b) ==> n <= 3 * (b + 1) * 256 + l1_norm(start) + 1,
        ensures
            n == max_steps,
            l1_dist(ray.spec_pos(), start) == n,
            forall|b: int|
                0 <= b && dim.span_bounded(b) ==> n <= 3 * (b + 1) * 256 + l1_norm(start) + 1,
        decreases max_steps - n,
    {
        if n >= max_steps {
            break ;
        }
        let p = ray.position();
        match dim.get(p) {
            Ok(v) => {
                if v != 0 {
                    return RaycastOutcome::HitSolid(p);
                }
                proof {
                    assert forall|b: int|
                        0 <= b && dim.span_bounded(b) implies n + 1 <= 3 * (b + 1) * 256 + l1_norm(
                        start,
                    ) + 1 by {
                        lemma_defined_block_bounded(dim, p.as_tuple(), b);
                        assert(l1_dist(p, start) <= abs_int(p.x as int) + abs_int(p.y as int)
                            + abs_int(p.z as int) + l1_norm(start));
                    }
                }
                ray.step();
                n = n + 1;
            },
            Err(_) => {
                return RaycastOutcome::LeftLoaded(p);
            },
        }
    }
    proof {
        assert forall|b: int|
            0 <= b && dim.span_bounded(b) && 3 * ((b + 1) * 256 + 0x4000_0000) + 2 < max_steps
            implies false by {
            assert(n <= 3 * ((b + 1) * 256 + 0x4000_0000) + 1);
        }
    }
    RaycastOutcome::OutOfSteps
}

/// A left-click release: finds the first solid block along the sight
/// line and produces the event that clears it, or nothing when the ray
/// leaves the loaded region or runs out of budget.
pub fn raycast_break(dim: &Dimension, ray: &mut VoxelRaycast, max_steps: usize) -> (r: Option<
    VoxelEvent<BlockID, i32>,
>)
    requires
        old(ray).wf(),
        -0x4000_0000 <= old(ray).spec_pos().x <= 0x4000_0000,
        -0x4000_0000 <= old(ray).spec_pos().y <= 0x4000_0000,
        -0x4000_0000 <= old(ray).spec_pos().z <= 0x4000_0000,
        old(ray).spec_nums().0 <= 0x10_0000,
        old(ray).spec_nums().1 <= 0x10_0000,
        old(ray).spec_nums().2 <= 0x10_0000,
        max_steps <= 0x1000_0000,
    ensures
        match r {
            Some(e) => e matches VoxelEvent::SetOne(c) && c.new_value == 0 && dim.block_defined(
                c.pos.as_tuple(),
            ) && dim.block_value(c.pos.as_tuple()) != 0,
            None => !dim.block_defined(final(ray).spec_pos().as_tuple()) || l1_dist(
                final(ray).spec_pos(),
                old(ray).spec_pos(),
            ) == max_steps,
        },
{
    match raycast_to_solid(dim, ray, max_steps) {
        RaycastOutcome::HitSolid(p) => Some(
            VoxelEvent::SetOne(OneVoxelChange { new_value: 0, pos: p }),
        ),
        _ => None,
    }
}

/// A middle-click release: finds the first solid block along the sight
/// line and reports its block id without mutating the world.
pub fn raycast_pick(dim: &Dimension, ray: &mut VoxelRaycast, max_steps: usize) -> (r: Option<
    BlockID,
>)
    requires
        old(ray).wf(),
        -0x4000_0000 <= old(ray).spec_pos().x <= 0x4000_0000,
        -0x4000_0000 <= old(ray).spec_pos().y <= 0x4000_0000,
        -0x4000_0000 <= old(ray).spec_pos().z <= 0x4000_0000,
        old(ray).spec_nums().0 <= 0x10_0000,
        old(ray).spec_nums().1 <= 0x10_0000,
        old(ray).spec_nums().2 <= 0x10_0000,
        max_steps <= 0x1000_0000,
    ensures
        match r {
            Some(v) => v != 0 && exists|p: (int, int, int)| #[trigger] dim.block_defined(p)
                && dim.block_value(p) == v,
            None => !dim.block_defined(final(ray).spec_pos().as_tuple()) || l1_dist(
                final(ray).spec_pos(),
                old(ray).spec_pos(),
            ) == max_steps,
        },
{
    match raycast_to_solid(dim, ray, max_steps) {
        RaycastOutcome::HitSolid(p) => {
            match dim.get(p) {
                Ok(v) => Some(v),
                Err(_) => {
                    proof {
                        assert(false);
                    }
                    None
                },
            }
        },
        _ => None,
    }
}

/// A right-click release: finds the first solid block along the sight
/// line and produces the event that places the selected block on its
/// near side, adjacent to the hit along the opposite of the last crossed
/// direction.
pub fn raycast_place(
    dim: &Dimension,
    ray: &mut VoxelRaycast,
    max_steps: usize,
    selected_block: BlockID,
) -> (r: Option<VoxelEvent<BlockID, i32>>)
    requires
        old(ray).wf(),
        -0x4000_0000 <= old(ray).spec_pos().x <= 0x4000_0000,
        -0x4000_0000 <= old(ray).spec_pos().y <= 0x4000_0000,
        -0x4000_0000 <= old(ray).spec_pos().z <= 0x4000_0000,
        old(ray).spec_nums().0 <= 0x10_0000,
        old(ray).spec_nums().1 <= 0x10_0000,
        old(ray).spec_nums().2 <= 0x10_0000,
        max_steps <= 0x1000_0000,
    ensures
        match r {
            Some(e) => e matches VoxelEvent::SetOne(c) && c.new_value == selected_block && l1_dist(
                c.pos,
                final(ray).spec_pos(),
            ) == 1 && dim.block_defined(final(ray).spec_pos().as_tuple()) && dim.block_value(
                final(ray).spec_pos().as_tuple(),
            ) != 0,
            None => !dim.block_defined(final(ray).spec_pos().as_tuple()) || l1_dist(
                final(ray).spec_pos(),
                old(ray).spec_pos(),
            ) == max_steps || !(i32::MIN < final(ray).spec_pos().x < i32::MAX && i32::MIN
                < final(ray).spec_pos().y < i32::MAX && i32::MIN < final(ray).spec_pos().z
                < i32::MAX),
        },
{
    match raycast_to_solid(dim, ray, max_steps) {
        RaycastOutcome::HitSolid(p) => {
            if p.x > i32::MIN && p.x < i32::MAX && p.y > i32::MIN && p.y < i32::MAX && p.z
                > i32::MIN && p.z < i32::MAX {
                let dir = ray.get_last_direction().opposite();
                let adjacent = p.get_neighbor(dir);
                Some(VoxelEvent::SetOne(OneVoxelChange { new_value: selected_block, pos: adjacent }))
            } else {
                None
            }
        },
        _ => None,
    }
}

} // verus!
