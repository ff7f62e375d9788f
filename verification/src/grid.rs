//! Uniform spatial grid for broad-phase collision queries.
//!
//! The grid is rebuilt from scratch on every `update` by a three-pass
//! counting sort: count per-cell memberships, turn the counts into start
//! offsets by a prefix sum, then scatter each entity into its cells. Each
//! cell then owns a contiguous range of the flat entity array.
//!
//! All geometry is exact integer arithmetic: a circle at `position` with
//! `radius` overlaps the axis-aligned cell rectangle grid exactly as the
//! rational arithmetic of the bounding rectangle dictates.

use vstd::prelude::*;

use crate::components::{Collider, Transform, Vec2i};
use crate::entity::Entity;
use crate::pool::ComponentPool;

verus! {

/// Upper bound on the number of grid cells, so per-cell bookkeeping and the
/// total membership count stay far from any integer limit.
pub const CELL_COUNT_LIMIT: usize = 32768;

/// Upper bound on the magnitude of world coordinates and radii accepted by
/// the exact circle-overlap test, so squared distances stay in range.
pub const COORD_LIMIT: i64 = 2147483648;

/// An axis-aligned rectangle in integer world coordinates.
#[derive(Debug, Clone, Copy, PartialEq, Eq, Structural, Hash)]
pub struct RectI {
    pub x: i64,
    pub y: i64,
    pub w: i64,
    pub h: i64,
}

/// Determines the shape and precision of the [`CollisionGrid`].
#[derive(Debug, Clone, Copy, PartialEq, Eq)]
pub struct CollisionGridParams {
    pub bounding_rect: RectI,
    /// Number of columns and rows of cells.
    pub resolution: (usize, usize),
}

impl CollisionGridParams {
    /// The parameters describe a usable grid: a rectangle with positive
    /// extent, at least one cell per axis, and a bounded cell count.
    pub open spec fn wf(self) -> bool {
        &&& self.bounding_rect.w > 0
        &&& self.bounding_rect.h > 0
        &&& 0 < self.resolution.0
        &&& 0 < self.resolution.1
        &&& self.resolution.0 * self.resolution.1 <= CELL_COUNT_LIMIT
    }
}

/// First cell index covered along one axis: the floor of the local
/// coordinate `(w_min - origin) * res / extent`, clamped below at zero.
pub open spec fn axis_lo(w_min: int, origin: int, extent: int, res: int) -> int {
    let a = w_min - origin;
    if a <= 0 {
        0
    } else {
        (a * res) / extent
    }
}

/// One past the last cell index covered along one axis: the ceiling of the
/// local coordinate `(w_max - origin) * res / extent`, clamped to `[0, res]`.
pub open spec fn axis_hi(w_max: int, origin: int, extent: int, res: int) -> int {
    let b = w_max - origin;
    if b < 0 {
        0
    } else {
        let c = (b * res + extent - 1) / extent;
        if c > res {
            res
        } else {
            c
        }
    }
}

/// The circle at `center` with `radius` covers the cell `(x, y)`: its
/// bounding box, clamped to the grid, spans that cell on both axes. A
/// bounding box entirely outside the grid covers no cell at all.
pub open spec fn covers(
    p: CollisionGridParams,
    center: Vec2i,
    radius: i64,
    x: int,
    y: int,
) -> bool {
    &&& axis_lo(
        center.x - radius,
        p.bounding_rect.x as int,
        p.bounding_rect.w as int,
        p.resolution.0 as int,
    ) <= x
    &&& x < axis_hi(
        center.x + radius,
        p.bounding_rect.x as int,
        p.bounding_rect.w as int,
        p.resolution.0 as int,
    )
    &&& axis_lo(
        center.y - radius,
        p.bounding_rect.y as int,
        p.bounding_rect.h as int,
        p.resolution.1 as int,
    ) <= y
    &&& y < axis_hi(
        center.y + radius,
        p.bounding_rect.y as int,
        p.bounding_rect.h as int,
        p.resolution.1 as int,
    )
}

/// Computes the covered cell index interval along one axis, as the pair
/// `(lo, hi)` with `lo <= hi <= res`; `hi` is exactly `axis_hi` of the
/// bounding box edge and `lo` is `axis_lo` clamped to at most `hi`.
fn axis_bounds(center: i64, radius: i64, origin: i64, extent: i64, res: usize) -> (r: (
    usize,
    usize,
))
    requires
        extent > 0,
        0 < res <= CELL_COUNT_LIMIT,
    ensures
        r.0 <= r.1 <= res,
        r.1 as int == axis_hi(center + radius, origin as int, extent as int, res as int),
        ({
            let alo = axis_lo(center - radius, origin as int, extent as int, res as int);
            r.0 as int == if alo <= r.1 as int {
                alo
            } else {
                r.1 as int
            }
        }),
{
    let a: i128 = center as i128 - radius as i128 - origin as i128;
    let lo_raw: u128 = if a <= 0 {
        0
    } else {
        let au = a as u128;
        let ru = res as u128;
        proof {
            assert(au * ru <= 0x400000000000000000000 * 0x8000) by (nonlinear_arith)
                requires
                    au <= 0x400000000000000000000,
                    ru <= 0x8000,
            ;
        }
        (au * ru) / (extent as u128)
    };
    let b: i128 = center as i128 + radius as i128 - origin as i128;
    let hi_raw: u128 = if b < 0 {
        0
    } else {
        let bu = b as u128;
        let ru = res as u128;
        proof {
            assert(bu * ru <= 0x400000000000000000000 * 0x8000) by (nonlinear_arith)
                requires
                    bu <= 0x400000000000000000000,
                    ru <= 0x8000,
            ;
        }
        (bu * ru + (extent as u128) - 1) / (extent as u128)
    };
    let hi: usize = if hi_raw >= res as u128 {
        res
    } else {
        hi_raw as usize
    };
    let lo: usize = if lo_raw >= hi as u128 {
        hi
    } else {
        lo_raw as usize
    };
    proof {
        let alo = axis_lo(center - radius, origin as int, extent as int, res as int);
        let ahi = axis_hi(center + radius, origin as int, extent as int, res as int);
        assert(lo_raw as int == alo);
        assert(hi as int == ahi);
    }
    (lo, hi)
}

/// The two circles geometrically overlap: the distance between their
/// centers is strictly smaller than the sum of their radii.
pub open spec fn circles_overlap(a: Vec2i, ra: i64, b: Vec2i, rb: i64) -> bool {
    let dx = a.x - b.x;
    let dy = a.y - b.y;
    let rr = ra + rb;
    dx * dx + dy * dy < rr * rr
}

/// A world coordinate small enough for exact squared-distance tests.
pub open spec fn coord_ok(c: i64) -> bool {
    -COORD_LIMIT <= c <= COORD_LIMIT
}

/// A point whose coordinates are both bounded.
pub open spec fn vec2_ok(v: Vec2i) -> bool {
    coord_ok(v.x) && coord_ok(v.y)
}

/// Returns `true` if the two circles overlap.
fn circle_overlaps(a: Vec2i, ra: i64, b: Vec2i, rb: i64) -> (r: bool)
    requires
        vec2_ok(a),
        vec2_ok(b),
        coord_ok(ra),
        coord_ok(rb),
    ensures
        r == circles_overlap(a, ra, b, rb),
{
    let dx: i128 = a.x as i128 - b.x as i128;
    let dy: i128 = a.y as i128 - b.y as i128;
    let rr: i128 = ra as i128 + rb as i128;
    proof {
        assert(dx * dx <= 0x400000000 * 0x400000000 && dy * dy <= 0x400000000 * 0x400000000
            && rr * rr <= 0x400000000 * 0x400000000 && dx * dx >= 0 && dy * dy >= 0 && rr * rr
            >= 0) by (
        nonlinear_arith)
            requires
                -0x400000000 <= dx <= 0x400000000,
                -0x400000000 <= dy <= 0x400000000,
                -0x400000000 <= rr <= 0x400000000,
        ;
    }
    dx * dx + dy * dy < rr * rr
}

/// A half-open range of indices into the grid's flat entity array.
#[derive(Debug, Clone, Copy, PartialEq, Eq, Structural, Hash)]
pub struct CellRange {
    pub start: usize,
    pub end: usize,
}

/// Data structure that allows to efficiently detect collisions for the
/// `Collider` components: a derived, fully-recomputed index, valid only
/// until the next rebuild or until referenced components change.
#[derive(Debug)]
pub struct CollisionGrid {
    params: CollisionGridParams,
    entities: Vec<Entity>,
    cell_ranges: Vec<CellRange>,
}

impl CollisionGrid {
    /// The parameters from the last rebuild.
    pub closed spec fn spec_params(self) -> CollisionGridParams {
        self.params
    }

    /// The flat sequence of identities, cell by cell.
    pub closed spec fn entities_seq(self) -> Seq<Entity> {
        self.entities@
    }

    /// The contents of the cell `(x, y)`.
    pub closed spec fn cell_seq(self, x: int, y: int) -> Seq<Entity>
        recommends
            0 <= x < self.spec_params().resolution.0,
            0 <= y < self.spec_params().resolution.1,
    {
        let r = self.cell_ranges@[y * self.params.resolution.0 + x];
        self.entities@.subrange(r.start as int, r.end as int)
    }

    /// Cells own contiguous, in-bounds ranges that partition the entity
    /// array in row-major order.
    #[verifier::type_invariant]
    spec fn inv(self) -> bool {
        let n = self.cell_ranges@.len() as int;
        &&& n == self.params.resolution.0 * self.params.resolution.1
        &&& (forall|c: int|
            0 <= c < n ==> (#[trigger] self.cell_ranges@[c]).start <= self.cell_ranges@[c].end
                <= self.entities@.len())
        &&& (forall|c: int|
            0 < c < n ==> (#[trigger] self.cell_ranges@[c]).start == self.cell_ranges@[c
                - 1].end)
        &&& (n > 0 ==> self.cell_ranges@[0].start == 0 && self.cell_ranges@[n - 1].end
            == self.entities@.len())
        &&& (n == 0 ==> self.entities@.len() == 0)
    }

    /// Constructs an empty collision grid with zero cells.
    pub fn new() -> (g: CollisionGrid)
        ensures
            g.spec_params().resolution.0 == 0,
            g.spec_params().resolution.1 == 0,
            g.entities_seq().len() == 0,
    {
        CollisionGrid {
            params: CollisionGridParams {
                bounding_rect: RectI { x: 0, y: 0, w: 0, h: 0 },
                resolution: (0, 0),
            },
            entities: Vec::new(),
            cell_ranges: Vec::new(),
        }
    }

    /// Returns the params from the last time the grid was updated.
    pub fn params(&self) -> (r: &CollisionGridParams)
        ensures
            *r == self.spec_params(),
    {
        &self.params
    }

    /// Returns the entities that might have collisions in the cell
    /// `(x, y)`. Asking for a cell outside the resolution is a caller
    /// error, excluded here by precondition.
    pub fn cell(&self, x: usize, y: usize) -> (r: Vec<Entity>)
        requires
            x < self.spec_params().resolution.0,
            y < self.spec_params().resolution.1,
        ensures
            r@ == self.cell_seq(x as int, y as int),
    {
        let n = self.cell_ranges.len();
        proof {
            use_type_invariant(&*self);
            lemma_cell_index_bound(
                x as int,
                y as int,
                self.params.resolution.0 as int,
                self.params.resolution.1 as int,
            );
            assert(y * self.params.resolution.0 + x < n);
        }
        let index = y * self.params.resolution.0 + x;
        let range = self.cell_ranges[index];
        let mut r: Vec<Entity> = Vec::new();
        let mut k = range.start;
        while k < range.end
            invariant
                range.start <= k <= range.end,
                range.end <= self.entities@.len(),
                r@ == self.entities@.subrange(range.start as int, k as int),
            decreases range.end - k,
        {
            r.push(self.entities[k]);
            proof {
                assert(r@ =~= self.entities@.subrange(range.start as int, k + 1 as int));
            }
            k += 1;
        }
        r
    }
}

/// A cell coordinate inside the resolution maps to a flat index inside the
/// cell array.
pub proof fn lemma_cell_index_bound(x: int, y: int, cols: int, rows: int)
    requires
        0 <= x < cols,
        0 <= y < rows,
    ensures
        0 <= y * cols + x < rows * cols,
{
    assert((y + 1) * cols <= rows * cols) by (nonlinear_arith)
        requires
            y + 1 <= rows,
            cols >= 0,
    ;
    assert(y * cols + cols == (y + 1) * cols) by (nonlinear_arith);
    assert(y * cols >= 0) by (nonlinear_arith)
        requires
            y >= 0,
            cols >= 0,
    ;
}


/// The identities among the first `n` dense entries of the collider pool
/// whose circle covers the cell `(x, y)`, in pool order. Each entity's
/// position comes from its transform component.
pub open spec fn cell_members_upto(
    p: CollisionGridParams,
    colliders: ComponentPool<Collider>,
    transforms: ComponentPool<Transform>,
    x: int,
    y: int,
    n: int,
) -> Seq<Entity>
    decreases n,
{
    if n <= 0 {
        Seq::empty()
    } else {
        let rest = cell_members_upto(p, colliders, transforms, x, y, n - 1);
        let e = colliders.owners()[n - 1];
        let col = colliders.vals()[n - 1];
        let tr = transforms.value_of_slot(e.index as int);
        if covers(p, tr.position, col.shape.spec_radius(), x, y) {
            rest.push(e)
        } else {
            rest
        }
    }
}

/// The identities whose circle covers the cell `(x, y)`, in pool order.
pub open spec fn cell_members(
    p: CollisionGridParams,
    colliders: ComponentPool<Collider>,
    transforms: ComponentPool<Transform>,
    x: int,
    y: int,
) -> Seq<Entity> {
    cell_members_upto(p, colliders, transforms, x, y, colliders.owners().len() as int)
}

/// A membership prefix is never longer than the number of entities scanned.
proof fn lemma_members_len(
    p: CollisionGridParams,
    colliders: ComponentPool<Collider>,
    transforms: ComponentPool<Transform>,
    x: int,
    y: int,
    n: int,
)
    ensures
        cell_members_upto(p, colliders, transforms, x, y, n).len() <= if n >= 0 {
            n
        } else {
            0
        },
    decreases n,
{
    if n > 0 {
        lemma_members_len(p, colliders, transforms, x, y, n - 1);
    }
}

/// Membership prefixes grow with the number of entities scanned.
proof fn lemma_members_monotone(
    p: CollisionGridParams,
    colliders: ComponentPool<Collider>,
    transforms: ComponentPool<Transform>,
    x: int,
    y: int,
    n1: int,
    n2: int,
)
    requires
        n1 <= n2,
    ensures
        cell_members_upto(p, colliders, transforms, x, y, n1).len() <= cell_members_upto(
            p,
            colliders,
            transforms,
            x,
            y,
            n2,
        ).len(),
    decreases n2 - n1,
{
    if n1 < n2 {
        lemma_members_monotone(p, colliders, transforms, x, y, n1, n2 - 1);
    }
}

/// Every member of a membership prefix is one of the scanned pool entries.
proof fn lemma_members_elements(
    p: CollisionGridParams,
    colliders: ComponentPool<Collider>,
    transforms: ComponentPool<Transform>,
    x: int,
    y: int,
    n: int,
)
    ensures
        forall|k: int|
            0 <= k < cell_members_upto(p, colliders, transforms, x, y, n).len() ==> exists|i: int|
                0 <= i < n && #[trigger] cell_members_upto(p, colliders, transforms, x, y, n)[k]
                    == colliders.owners()[i],
    decreases n,
{
    if n > 0 {
        lemma_members_elements(p, colliders, transforms, x, y, n - 1);
        let prev = cell_members_upto(p, colliders, transforms, x, y, n - 1);
        let cur = cell_members_upto(p, colliders, transforms, x, y, n);
        assert forall|k: int| 0 <= k < cur.len() implies exists|i: int|
            0 <= i < n && #[trigger] cur[k] == colliders.owners()[i] by {
            if k < prev.len() {
                let i = choose|i: int| 0 <= i < n - 1 && #[trigger] prev[k] == colliders.owners()[i];
                assert(cur[k] == colliders.owners()[i]);
            } else {
                assert(cur[k] == colliders.owners()[n - 1]);
            }
        }
    }
}

/// Sum of the first `c` per-cell counts.
spec fn sum_counts(counts: Seq<usize>, c: int) -> int
    decreases c,
{
    if c <= 0 {
        0
    } else {
        sum_counts(counts, c - 1) + counts[c - 1]
    }
}

/// Prefix sums of non-negative counts are monotone.
proof fn lemma_sum_counts_monotone(counts: Seq<usize>, a: int, b: int)
    requires
        a <= b,
    ensures
        sum_counts(counts, a) <= sum_counts(counts, b),
    decreases b - a,
{
    if a < b {
        lemma_sum_counts_monotone(counts, a, b - 1);
    }
}


/// A prefix sum of counts that are each at most `bound` is at most
/// `c * bound`.
proof fn lemma_sum_counts_bound(counts: Seq<usize>, c: int, bound: int)
    requires
        0 <= c <= counts.len(),
        bound >= 0,
        forall|d: int| 0 <= d < c ==> (#[trigger] counts[d]) as int <= bound,
    ensures
        sum_counts(counts, c) <= c * bound,
    decreases c,
{
    if c > 0 {
        lemma_sum_counts_bound(counts, c - 1, bound);
        assert((c - 1) * bound + bound == c * bound) by (nonlinear_arith);
    }
}

/// Ranges that tile `[0, last end)` contiguously cover every index below the
/// last end.
proof fn lemma_ranges_cover(ranges: Seq<CellRange>, k: int)
    requires
        ranges.len() > 0,
        ranges[0].start == 0,
        forall|c: int| 0 < c < ranges.len() ==> (#[trigger] ranges[c]).start == ranges[c - 1].end,
        0 <= k < ranges[ranges.len() - 1].end,
    ensures
        exists|c: int|
            0 <= c < ranges.len() && (#[trigger] ranges[c]).start <= k < ranges[c].end,
    decreases ranges.len(),
{
    let n = ranges.len() as int;
    if k >= ranges[n - 1].start {
        assert(ranges[n - 1].start <= k < ranges[n - 1].end);
    } else {
        let shorter = ranges.drop_last();
        assert(shorter.len() == n - 1);
        if n == 1 {
            assert(false);
        } else {
            assert(shorter[0].start == 0);
            assert forall|c: int| 0 < c < shorter.len() implies (#[trigger] shorter[c]).start
                == shorter[c - 1].end by {
                assert(shorter[c] == ranges[c]);
                assert(shorter[c - 1] == ranges[c - 1]);
            }
            assert(shorter[shorter.len() - 1] == ranges[n - 2]);
            assert(k < ranges[n - 2].end);
            lemma_ranges_cover(shorter, k);
            let c = choose|c: int|
                0 <= c < shorter.len() && (#[trigger] shorter[c]).start <= k < shorter[c].end;
            assert(ranges[c].start <= k < ranges[c].end);
        }
    }
}

/// Recovers the cell coordinate from a flat row-major cell index.
proof fn lemma_cell_index_inverse(d: int, cols: int, rows: int)
    requires
        0 < cols,
        0 < rows,
        0 <= d < rows * cols,
    ensures
        0 <= d % cols < cols,
        0 <= d / cols < rows,
        (d / cols) * cols + (d % cols) == d,
{
    vstd::arithmetic::div_mod::lemma_fundamental_div_mod(d, cols);
    vstd::arithmetic::div_mod::lemma_mod_bound(d, cols);
    assert(cols * (d / cols) == (d / cols) * cols) by (nonlinear_arith);
    assert(d / cols >= 0) by {
        if d / cols < 0 {
            assert((d / cols) * cols + (d % cols) < 0) by (nonlinear_arith)
                requires
                    d / cols <= -1,
                    cols > 0,
                    0 <= d % cols < cols,
            ;
        }
    }
    assert(d / cols < rows) by {
        if d / cols >= rows {
            assert((d / cols) * cols + (d % cols) >= rows * cols) by (nonlinear_arith)
                requires
                    d / cols >= rows,
                    cols > 0,
                    d % cols >= 0,
            ;
        }
    }
}

impl CollisionGrid {
    /// Rebuilds the collision grid with the new parameters: after the
    /// rebuild, each cell holds exactly the collider-carrying entities whose
    /// bounding box covers it, in pool order. Every entity with a collider
    /// must have a transform; a collider without one is a caller error,
    /// excluded here by precondition.
    #[verifier::loop_isolation(false)]
    #[verifier::rlimit(100)]
    pub fn update(
        &mut self,
        transforms: &ComponentPool<Transform>,
        colliders: &ComponentPool<Collider>,
        params: CollisionGridParams,
    )
        requires
            params.wf(),
            transforms.wf(),
            colliders.wf(),
            forall|i: int|
                0 <= i < colliders.owners().len() ==> transforms.contains_slot(
                    (#[trigger] colliders.owners()[i]).index as int,
                ),
        ensures
            final(self).spec_params() == params,
            forall|x: int, y: int|
                #![trigger final(self).cell_seq(x, y)]
                0 <= x < params.resolution.0 && 0 <= y < params.resolution.1 ==> final(self).cell_seq(x, y) == cell_members(params, *colliders, *transforms, x, y),
            forall|k: int|
                0 <= k < final(self).entities_seq().len() ==> (#[trigger] final(self).entities_seq()[k]).wf() && colliders.contains_slot(
                    final(self).entities_seq()[k].index as int,
                ) && transforms.contains_slot(final(self).entities_seq()[k].index as int),
    {
        let cols = params.resolution.0;
        let rows = params.resolution.1;
        let cell_count = cols * rows;
        let len = colliders.len();
        proof {
            colliders.lemma_len_bounded();
            colliders.lemma_owners_wf();
            colliders.lemma_vals_len();
            assert(cols as int <= cols as int * rows as int) by (nonlinear_arith)
                requires
                    rows as int >= 1,
                    cols as int >= 0,
            ;
            assert(rows as int <= cols as int * rows as int) by (nonlinear_arith)
                requires
                    cols as int >= 1,
                    rows as int >= 0,
            ;
        }
        let owners = colliders.entities();
        let cvals = colliders.values();

        // Count pass: how many entities cover each cell.
        let mut counts: Vec<usize> = Vec::new();
        while counts.len() < cell_count
            invariant
                counts@.len() <= cell_count,
                forall|d: int| 0 <= d < counts@.len() ==> (#[trigger] counts@[d]) == 0,
            decreases cell_count - counts@.len(),
        {
            counts.push(0);
        }
        proof {
            assert forall|x: int, y: int|
                0 <= x < cols && 0 <= y < rows implies counts@[y * cols + x] as int
                == #[trigger] cell_members_upto(params, *colliders, *transforms, x, y, 0).len() by {
                lemma_cell_index_bound(x, y, cols as int, rows as int);
            }
        }
        let mut i: usize = 0;
        while i < len
            invariant
                0 <= i <= len,
                counts@.len() == cell_count,
                forall|d: int| 0 <= d < cell_count ==> (#[trigger] counts@[d]) as int <= i as int,
                forall|x: int, y: int|
                    #![trigger cell_members_upto(params, *colliders, *transforms, x, y, i as int)]
                    0 <= x < cols && 0 <= y < rows ==> counts@[y * cols + x] as int
                        == cell_members_upto(params, *colliders, *transforms, x, y, i as int).len(),
            decreases len - i,
        {
            let e = owners[i];
            let col = cvals[i];
            let tr = match transforms.get(e) {
                Some(t) => *t,
                None => unreached(),
            };
            let (lo_x, hi_x) = axis_bounds(
                tr.position.x,
                col.shape.radius(),
                params.bounding_rect.x,
                params.bounding_rect.w,
                cols,
            );
            let (lo_y, hi_y) = axis_bounds(
                tr.position.y,
                col.shape.radius(),
                params.bounding_rect.y,
                params.bounding_rect.h,
                rows,
            );
            let ghost radius = col.shape.spec_radius();
            let mut yy = lo_y;
            while yy < hi_y
                invariant
                    lo_y <= yy <= hi_y,
                    counts@.len() == cell_count,
                    forall|d: int|
                        0 <= d < cell_count ==> (#[trigger] counts@[d]) as int <= i as int + 1,
                    forall|x: int, y: int|
                        #![trigger cell_members_upto(params, *colliders, *transforms, x, y, i as int)]
                        0 <= x < cols && 0 <= y < rows ==> counts@[y * cols + x] as int
                            == cell_members_upto(params, *colliders, *transforms, x, y, i as int).len()
                            + if lo_x <= x < hi_x && lo_y <= y < yy {
                            1int
                        } else {
                            0
                        },
                decreases hi_y - yy,
            {
                let mut xx = lo_x;
                while xx < hi_x
                    invariant
                        lo_x <= xx <= hi_x,
                        lo_y <= yy < hi_y,
                        counts@.len() == cell_count,
                        forall|d: int|
                            0 <= d < cell_count ==> (#[trigger] counts@[d]) as int <= i as int + 1,
                        forall|x: int, y: int|
                            #![trigger cell_members_upto(params, *colliders, *transforms, x, y, i as int)]
                            0 <= x < cols && 0 <= y < rows ==> counts@[y * cols + x] as int
                                == cell_members_upto(
                                params,
                                *colliders,
                                *transforms,
                                x,
                                y,
                                i as int,
                            ).len() + if lo_x <= x < hi_x && (lo_y <= y < yy || (y == yy && lo_x
                                <= x < xx)) {
                                1int
                            } else {
                                0
                            },
                    decreases hi_x - xx,
                {
                    proof {
                        lemma_cell_index_bound(xx as int, yy as int, cols as int, rows as int);
                        lemma_members_len(
                            params,
                            *colliders,
                            *transforms,
                            xx as int,
                            yy as int,
                            i as int,
                        );
                    }
                    let c = yy * cols + xx;
                    let ghost oldcounts = counts@;
                    counts[c] = counts[c] + 1;
                    proof {
                        let cc = c as int;
                        assert forall|x: int, y: int|
                            0 <= x < cols && 0 <= y < rows implies counts@[y * cols + x] as int
                            == #[trigger] cell_members_upto(
                            params,
                            *colliders,
                            *transforms,
                            x,
                            y,
                            i as int,
                        ).len() + if lo_x <= x < hi_x && (lo_y <= y < yy || (y == yy && lo_x <= x
                            < xx + 1)) {
                            1int
                        } else {
                            0
                        } by {
                            lemma_cell_index_bound(x, y, cols as int, rows as int);
                            let d = y * cols + x;
                            if d == cc {
                                assert(x == xx as int && y == yy as int) by {
                                    if x != xx as int || y != yy as int {
                                        if y == yy as int {
                                            assert(d != cc);
                                        } else if y < yy as int {
                                            assert(y < yy as int && 0 <= x < cols as int && 0
                                                <= xx as int ==> y * (cols as int) + x < (
                                            yy as int) * (cols as int) + (xx as int)) by (
                                            nonlinear_arith);
                                        } else {
                                            assert((yy as int) < y && 0 <= (xx as int) && (
                                            xx as int) < (cols as int) && 0 <= x ==> (yy as int) * (
                                            cols as int) + (xx as int) < y * (cols as int) + x) by (
                                            nonlinear_arith);
                                        }
                                    }
                                }
                            } else {
                                assert(counts@[d] == oldcounts[d]);
                            }
                        }
                    }
                    xx += 1;
                }
                yy += 1;
            }
            proof {
                assert forall|x: int, y: int|
                    0 <= x < cols && 0 <= y < rows implies counts@[y * cols + x] as int
                    == #[trigger] cell_members_upto(
                    params,
                    *colliders,
                    *transforms,
                    x,
                    y,
                    i + 1 as int,
                ).len() by {
                    assert(cell_members_upto(params, *colliders, *transforms, x, y, i + 1).len()
                        == cell_members_upto(params, *colliders, *transforms, x, y, i as int).len()
                        + if covers(params, tr.position, radius, x, y) {
                        1int
                    } else {
                        0
                    });
                }
            }
            i += 1;
        }

        proof {
            assert forall|x: int, y: int|
                0 <= x < cols && 0 <= y < rows implies counts@[y * cols + x] as int
                == #[trigger] cell_members_upto(
                params,
                *colliders,
                *transforms,
                x,
                y,
                len as int,
            ).len() by {
                assert(counts@[y * cols + x] as int == cell_members_upto(
                    params,
                    *colliders,
                    *transforms,
                    x,
                    y,
                    i as int,
                ).len());
            }
        }

        // Prefix-sum pass: each cell's range starts where the previous ends.
        let mut cell_ranges: Vec<CellRange> = Vec::new();
        let mut total: usize = 0;
        let mut c: usize = 0;
        while c < cell_count
            invariant
                0 <= c <= cell_count,
                cell_ranges@.len() == c as int,
                total as int == sum_counts(counts@, c as int),
                forall|d: int|
                    0 <= d < c ==> (#[trigger] cell_ranges@[d]).start as int == sum_counts(
                        counts@,
                        d,
                    ) && cell_ranges@[d].end == cell_ranges@[d].start,
            decreases cell_count - c,
        {
            proof {
                lemma_sum_counts_bound(counts@, c + 1, 65535);
                lemma_sum_counts_monotone(counts@, c as int, c + 1);
                assert((c + 1) as int * 65535 <= 32768 * 65535) by (nonlinear_arith)
                    requires
                        c + 1 <= 32768,
                ;
            }
            let count = counts[c];
            cell_ranges.push(CellRange { start: total, end: total });
            total = total + count;
            c += 1;
        }

        // Scatter pass: write each entity into the next free slot of each of
        // its cells' ranges.
        let mut entities: Vec<Entity> = Vec::new();
        while entities.len() < total
            invariant
                entities@.len() <= total,
            decreases total - entities@.len(),
        {
            entities.push(Entity::new(0, 0));
        }
        proof {
            assert forall|x: int, y: int|
                0 <= x < cols && 0 <= y < rows implies ({
                let d = y * cols + x;
                let content = #[trigger] cell_members_upto(params, *colliders, *transforms, x, y, 0);
                cell_ranges@[d].end as int == cell_ranges@[d].start + content.len()
                    && entities@.subrange(
                    cell_ranges@[d].start as int,
                    cell_ranges@[d].end as int,
                ) == content
            }) by {
                lemma_cell_index_bound(x, y, cols as int, rows as int);
                let d = y * cols + x;
                lemma_sum_counts_monotone(counts@, 0, d);
                lemma_sum_counts_monotone(counts@, d, cell_count as int);
                assert(entities@.subrange(
                    cell_ranges@[d].start as int,
                    cell_ranges@[d].end as int,
                ) =~= cell_members_upto(params, *colliders, *transforms, x, y, 0));
            }
        }
        let mut i: usize = 0;
        while i < len
            invariant
                0 <= i <= len,
                entities@.len() == total,
                cell_ranges@.len() == cell_count,
                forall|d: int|
                    0 <= d < cell_count ==> (#[trigger] cell_ranges@[d]).start as int == sum_counts(
                        counts@,
                        d,
                    ),
                forall|x: int, y: int|
                    #![trigger cell_members_upto(params, *colliders, *transforms, x, y, i as int)]
                    0 <= x < cols && 0 <= y < rows ==> ({
                        let d = y * cols + x;
                        let content = cell_members_upto(params, *colliders, *transforms, x, y, i as int);
                        cell_ranges@[d].end as int == cell_ranges@[d].start + content.len()
                            && entities@.subrange(
                            cell_ranges@[d].start as int,
                            cell_ranges@[d].end as int,
                        ) == content
                    }),
            decreases len - i,
        {
            let e = owners[i];
            let col = cvals[i];
            let tr = match transforms.get(e) {
                Some(t) => *t,
                None => unreached(),
            };
            let (lo_x, hi_x) = axis_bounds(
                tr.position.x,
                col.shape.radius(),
                params.bounding_rect.x,
                params.bounding_rect.w,
                cols,
            );
            let (lo_y, hi_y) = axis_bounds(
                tr.position.y,
                col.shape.radius(),
                params.bounding_rect.y,
                params.bounding_rect.h,
                rows,
            );
            let ghost radius = col.shape.spec_radius();
            let mut yy = lo_y;
            while yy < hi_y
                invariant
                    lo_y <= yy <= hi_y,
                    entities@.len() == total,
                    cell_ranges@.len() == cell_count,
                    forall|d: int|
                        0 <= d < cell_count ==> (#[trigger] cell_ranges@[d]).start as int
                            == sum_counts(counts@, d),
                    forall|x: int, y: int|
                        #![trigger cell_members_upto(params, *colliders, *transforms, x, y, i as int)]
                        0 <= x < cols && 0 <= y < rows ==> ({
                            let d = y * cols + x;
                            let base = cell_members_upto(params, *colliders, *transforms, x, y, i as int);
                            let content = if lo_x <= x < hi_x && lo_y <= y < yy {
                                base.push(e)
                            } else {
                                base
                            };
                            cell_ranges@[d].end as int == cell_ranges@[d].start + content.len()
                                && entities@.subrange(
                                cell_ranges@[d].start as int,
                                cell_ranges@[d].end as int,
                            ) == content
                        }),
                decreases hi_y - yy,
            {
                let mut xx = lo_x;
                while xx < hi_x
                    invariant
                        lo_x <= xx <= hi_x,
                        lo_y <= yy < hi_y,
                        entities@.len() == total,
                        cell_ranges@.len() == cell_count,
                        forall|d: int|
                            0 <= d < cell_count ==> (#[trigger] cell_ranges@[d]).start as int
                                == sum_counts(counts@, d),
                        forall|x: int, y: int|
                            #![trigger cell_members_upto(params, *colliders, *transforms, x, y, i as int)]
                            0 <= x < cols && 0 <= y < rows ==> ({
                                let d = y * cols + x;
                                let base = cell_members_upto(
                                    params,
                                    *colliders,
                                    *transforms,
                                    x,
                                    y,
                                    i as int,
                                );
                                let content = if lo_x <= x < hi_x && (lo_y <= y < yy || (y == yy
                                    && lo_x <= x < xx)) {
                                    base.push(e)
                                } else {
                                    base
                                };
                                cell_ranges@[d].end as int == cell_ranges@[d].start + content.len()
                                    && entities@.subrange(
                                    cell_ranges@[d].start as int,
                                    cell_ranges@[d].end as int,
                                ) == content
                            }),
                    decreases hi_x - xx,
                {
                    proof {
                        lemma_cell_index_bound(xx as int, yy as int, cols as int, rows as int);
                        lemma_members_len(
                            params,
                            *colliders,
                            *transforms,
                            xx as int,
                            yy as int,
                            i as int,
                        );
                        lemma_members_monotone(
                            params,
                            *colliders,
                            *transforms,
                            xx as int,
                            yy as int,
                            i + 1,
                            len as int,
                        );
                        lemma_sum_counts_monotone(counts@, yy as int * cols + xx + 1, cell_count as int);
                    }
                    let c = yy * cols + xx;
                    let ghost oldranges = cell_ranges@;
                    let ghost oldentities = entities@;
                    let pos = cell_ranges[c].end;
                    proof {
                        assert((cell_ranges@[c as int].end as int) < sum_counts(counts@, c + 1));
                    }
                    entities[pos] = e;
                    let new_end = pos + 1;
                    cell_ranges[c] = CellRange { start: cell_ranges[c].start, end: new_end };
                    proof {
                        let cc = c as int;
                        assert forall|x: int, y: int|
                            0 <= x < cols && 0 <= y < rows implies ({
                            let d = y * cols + x;
                            let base = #[trigger] cell_members_upto(
                                params,
                                *colliders,
                                *transforms,
                                x,
                                y,
                                i as int,
                            );
                            let content = if lo_x <= x < hi_x && (lo_y <= y < yy || (y == yy && lo_x
                                <= x < xx + 1)) {
                                base.push(e)
                            } else {
                                base
                            };
                            cell_ranges@[d].end as int == cell_ranges@[d].start + content.len()
                                && entities@.subrange(
                                cell_ranges@[d].start as int,
                                cell_ranges@[d].end as int,
                            ) == content
                        }) by {
                            lemma_cell_index_bound(x, y, cols as int, rows as int);
                            let d = y * cols + x;
                            let base = cell_members_upto(params, *colliders, *transforms, x, y, i as int);
                            lemma_members_len(params, *colliders, *transforms, x, y, i as int);
                            lemma_members_monotone(params, *colliders, *transforms, x, y, i + 1, len as int);
                            if d == cc {
                                assert(x == xx as int && y == yy as int) by {
                                    if x != xx as int || y != yy as int {
                                        if y == yy as int {
                                            assert(d != cc);
                                        } else if y < yy as int {
                                            assert(y < yy as int && 0 <= x < cols as int && 0
                                                <= xx as int ==> y * (cols as int) + x < (
                                            yy as int) * (cols as int) + (xx as int)) by (
                                            nonlinear_arith);
                                        } else {
                                            assert((yy as int) < y && 0 <= (xx as int) && (
                                            xx as int) < (cols as int) && 0 <= x ==> (yy as int) * (
                                            cols as int) + (xx as int) < y * (cols as int) + x) by (
                                            nonlinear_arith);
                                        }
                                    }
                                }
                                assert(entities@.subrange(
                                    cell_ranges@[d].start as int,
                                    cell_ranges@[d].end as int,
                                ) =~= oldentities.subrange(
                                    oldranges[d].start as int,
                                    oldranges[d].end as int,
                                ).push(e));
                            } else {
                                assert(cell_ranges@[d] == oldranges[d]);
                                let dbase = cell_members_upto(params, *colliders, *transforms, x, y, i as int);
                                let dnext = cell_members_upto(params, *colliders, *transforms, x, y, i + 1);
                                let dfull = cell_members_upto(
                                    params,
                                    *colliders,
                                    *transforms,
                                    x,
                                    y,
                                    len as int,
                                );
                                let dend = oldranges[d].end as int;
                                let dstart = oldranges[d].start as int;
                                assert(dstart == sum_counts(counts@, d));
                                assert(counts@[d] as int == dfull.len());
                                assert(dnext.len() <= dfull.len());
                                assert(dend <= dstart + dnext.len());
                                assert(sum_counts(counts@, d + 1) == sum_counts(counts@, d)
                                    + counts@[d]);
                                assert(dend <= sum_counts(counts@, d + 1));
                                assert((pos as int) >= sum_counts(counts@, cc));
                                if d < cc {
                                    lemma_sum_counts_monotone(counts@, d + 1, cc);
                                    assert(dend <= sum_counts(counts@, cc));
                                } else {
                                    lemma_sum_counts_monotone(counts@, cc + 1, d);
                                    assert((pos as int) < sum_counts(counts@, cc + 1));
                                    assert(dstart >= sum_counts(counts@, cc + 1));
                                }
                                lemma_sum_counts_monotone(counts@, 0, d);
                                lemma_sum_counts_monotone(counts@, d + 1, cell_count as int);
                                assert(0 <= dstart && dend <= entities@.len());
                                assert(entities@ == oldentities.update(pos as int, e));
                                assert(entities@.subrange(dstart, dend) =~= oldentities.subrange(
                                    dstart,
                                    dend,
                                ));
                            }
                        }
                    }
                    xx += 1;
                }
                yy += 1;
            }
            proof {
                assert forall|x: int, y: int|
                    0 <= x < cols && 0 <= y < rows implies ({
                    let d = y * cols + x;
                    let content = #[trigger] cell_members_upto(
                        params,
                        *colliders,
                        *transforms,
                        x,
                        y,
                        i + 1 as int,
                    );
                    cell_ranges@[d].end as int == cell_ranges@[d].start + content.len()
                        && entities@.subrange(
                        cell_ranges@[d].start as int,
                        cell_ranges@[d].end as int,
                    ) == content
                }) by {
                    assert(cell_members_upto(params, *colliders, *transforms, x, y, i + 1)
                        == if covers(params, tr.position, radius, x, y) {
                        cell_members_upto(params, *colliders, *transforms, x, y, i as int).push(e)
                    } else {
                        cell_members_upto(params, *colliders, *transforms, x, y, i as int)
                    });
                }
            }
            i += 1;
        }

        proof {
            assert forall|x: int, y: int|
                0 <= x < cols && 0 <= y < rows implies ({
                let d = y * cols + x;
                let content = #[trigger] cell_members_upto(
                    params,
                    *colliders,
                    *transforms,
                    x,
                    y,
                    len as int,
                );
                cell_ranges@[d].end as int == cell_ranges@[d].start + content.len()
                    && entities@.subrange(
                    cell_ranges@[d].start as int,
                    cell_ranges@[d].end as int,
                ) == content
            }) by {
                lemma_cell_index_bound(x, y, cols as int, rows as int);
                assert(cell_ranges@[y * cols + x].end as int == cell_ranges@[y * cols + x].start
                    + cell_members_upto(params, *colliders, *transforms, x, y, i as int).len()
                    && entities@.subrange(
                    cell_ranges@[y * cols + x].start as int,
                    cell_ranges@[y * cols + x].end as int,
                ) == cell_members_upto(params, *colliders, *transforms, x, y, i as int));
            }
            assert forall|d: int| 0 <= d < cell_count implies (#[trigger] cell_ranges@[d]).end as int
                == sum_counts(counts@, d + 1) by {
                lemma_cell_index_inverse(d, cols as int, rows as int);
                let x = d % cols as int;
                let y = d / cols as int;
                assert(counts@[y * cols + x] as int == cell_members_upto(
                    params,
                    *colliders,
                    *transforms,
                    x,
                    y,
                    len as int,
                ).len());
                assert(cell_ranges@[y * cols + x].end as int == cell_ranges@[y * cols + x].start
                    + cell_members_upto(params, *colliders, *transforms, x, y, len as int).len());
            }
            assert forall|d: int|
                0 <= d < cell_count implies (#[trigger] cell_ranges@[d]).start <= cell_ranges@[
                d].end <= entities@.len() by {
                lemma_sum_counts_monotone(counts@, d, d + 1);
                lemma_sum_counts_monotone(counts@, d + 1, cell_count as int);
            }
            assert(cell_count > 0 ==> cell_ranges@[0].start == 0 && cell_ranges@[cell_count
                - 1].end == entities@.len());
        }
        *self = CollisionGrid { params, entities, cell_ranges };
        proof {
            assert forall|x: int, y: int|
                0 <= x < cols && 0 <= y < rows implies #[trigger] self.cell_seq(x, y)
                == cell_members(params, *colliders, *transforms, x, y) by {
                lemma_cell_index_bound(x, y, cols as int, rows as int);
                assert(cell_members(params, *colliders, *transforms, x, y) == cell_members_upto(
                    params,
                    *colliders,
                    *transforms,
                    x,
                    y,
                    len as int,
                ));
            }
            assert forall|k: int|
                0 <= k < self.entities@.len() implies (#[trigger] self.entities@[k]).wf()
                && colliders.contains_slot(self.entities@[k].index as int)
                && transforms.contains_slot(self.entities@[k].index as int) by {
                lemma_sum_counts_monotone(counts@, 0, cell_count as int);
                lemma_ranges_cover(self.cell_ranges@, k);
                let d = choose|d: int|
                    0 <= d < self.cell_ranges@.len() && (#[trigger] self.cell_ranges@[d]).start <= k
                        < self.cell_ranges@[d].end;
                lemma_cell_index_inverse(d, cols as int, rows as int);
                let x = d % cols as int;
                let y = d / cols as int;
                let content = cell_members_upto(params, *colliders, *transforms, x, y, len as int);
                assert(self.entities@[k] == content[k - self.cell_ranges@[d].start]);
                lemma_members_elements(params, *colliders, *transforms, x, y, len as int);
                let i = choose|i: int|
                    0 <= i < len && #[trigger] content[k - self.cell_ranges@[d].start]
                        == colliders.owners()[i];
                colliders.lemma_index_of_owner(i);
            }
        }
    }
}


/// Every entity of the sequence is well formed and still carries a collider
/// and a transform.
spec fn out_elems_ok(
    r: Seq<Entity>,
    transforms: ComponentPool<Transform>,
    colliders: ComponentPool<Collider>,
) -> bool {
    forall|j: int|
        0 <= j < r.len() ==> (#[trigger] r[j]).wf() && colliders.contains_slot(r[j].index as int)
            && transforms.contains_slot(r[j].index as int)
}

/// The broad-phase filter a query applies to a candidate: the issuer must be
/// scanning a layer the candidate is detectable in, and the two circles must
/// geometrically overlap. The relation is directional: only the issuer's
/// `monitoring` mask and the candidate's `monitorable` mask are consulted.
pub open spec fn query_allows(
    transforms: ComponentPool<Transform>,
    colliders: ComponentPool<Collider>,
    icol: Collider,
    ipos: Vec2i,
    candidate: Entity,
) -> bool {
    let ccol = colliders.value_of_slot(candidate.index as int);
    let ctr = transforms.value_of_slot(candidate.index as int);
    &&& icol.monitoring.spec_overlaps(ccol.monitorable)
    &&& circles_overlap(ipos, icol.shape.spec_radius(), ctr.position, ccol.shape.spec_radius())
}

/// The query filter as a predicate over candidates.
pub open spec fn query_pred(
    transforms: ComponentPool<Transform>,
    colliders: ComponentPool<Collider>,
    icol: Collider,
    ipos: Vec2i,
) -> spec_fn(Entity) -> bool {
    |e: Entity| query_allows(transforms, colliders, icol, ipos, e)
}

/// Concatenation of the filtered contents of the first `n` cells of row `y`
/// starting at column `lo_x`.
pub open spec fn query_row(
    g: CollisionGrid,
    pred: spec_fn(Entity) -> bool,
    y: int,
    lo_x: int,
    n: int,
) -> Seq<Entity>
    decreases n,
{
    if n <= 0 {
        Seq::empty()
    } else {
        query_row(g, pred, y, lo_x, n - 1) + g.cell_seq(lo_x + n - 1, y).filter(pred)
    }
}

/// Concatenation of the filtered contents of the cells of the rectangle
/// `[lo_x, hi_x) x [lo_y, lo_y + n)`, row by row.
pub open spec fn query_rect(
    g: CollisionGrid,
    pred: spec_fn(Entity) -> bool,
    lo_x: int,
    hi_x: int,
    lo_y: int,
    n: int,
) -> Seq<Entity>
    decreases n,
{
    if n <= 0 {
        Seq::empty()
    } else {
        query_rect(g, pred, lo_x, hi_x, lo_y, n - 1) + query_row(
            g,
            pred,
            lo_y + n - 1,
            lo_x,
            hi_x - lo_x,
        )
    }
}

/// What a collision query from `issuer` returns: for each cell covered by
/// the issuer's circle, in row-major order, the entities of that cell that
/// pass the mask and circle filter, in cell order. An entity found in
/// several shared cells is reported once per cell; the grid does not
/// deduplicate.
pub open spec fn query_result(
    g: CollisionGrid,
    transforms: ComponentPool<Transform>,
    colliders: ComponentPool<Collider>,
    issuer: Entity,
) -> Seq<Entity> {
    let icol = colliders.value_of_slot(issuer.index as int);
    let ipos = transforms.value_of_slot(issuer.index as int).position;
    let radius = icol.shape.spec_radius();
    let p = g.spec_params();
    let hi_x = axis_hi(
        ipos.x + radius,
        p.bounding_rect.x as int,
        p.bounding_rect.w as int,
        p.resolution.0 as int,
    );
    let alo_x = axis_lo(
        ipos.x - radius,
        p.bounding_rect.x as int,
        p.bounding_rect.w as int,
        p.resolution.0 as int,
    );
    let lo_x = if alo_x <= hi_x {
        alo_x
    } else {
        hi_x
    };
    let hi_y = axis_hi(
        ipos.y + radius,
        p.bounding_rect.y as int,
        p.bounding_rect.h as int,
        p.resolution.1 as int,
    );
    let alo_y = axis_lo(
        ipos.y - radius,
        p.bounding_rect.y as int,
        p.bounding_rect.h as int,
        p.resolution.1 as int,
    );
    let lo_y = if alo_y <= hi_y {
        alo_y
    } else {
        hi_y
    };
    query_rect(
        g,
        query_pred(transforms, colliders, icol, ipos),
        lo_x,
        hi_x,
        lo_y,
        hi_y - lo_y,
    )
}

impl CollisionGrid {
    /// Returns the entities colliding with `entity`: for each grid cell its
    /// circle covers, the cell's entities whose `monitorable` mask is
    /// scanned by this entity's `monitoring` mask and whose circle overlaps
    /// this entity's circle. Candidates spanning several shared cells are
    /// repeated, as the grid does not deduplicate. The entity must carry a
    /// collider and a transform (querying without them is a caller error,
    /// excluded here by precondition), every entity in the grid must still
    /// carry both, and all coordinates must be small enough for exact
    /// arithmetic.
    #[verifier::loop_isolation(false)]
    #[verifier::rlimit(60)]
    pub fn collisions(
        &self,
        transforms: &ComponentPool<Transform>,
        colliders: &ComponentPool<Collider>,
        entity: Entity,
    ) -> (r: Vec<Entity>)
        requires
            self.spec_params().wf(),
            transforms.wf(),
            colliders.wf(),
            entity.wf(),
            colliders.contains_slot(entity.index as int),
            transforms.contains_slot(entity.index as int),
            vec2_ok(transforms.value_of_slot(entity.index as int).position),
            coord_ok(colliders.value_of_slot(entity.index as int).shape.spec_radius()),
            forall|k: int|
                0 <= k < self.entities_seq().len() ==> {
                    let e = #[trigger] self.entities_seq()[k];
                    &&& e.wf()
                    &&& colliders.contains_slot(e.index as int)
                    &&& transforms.contains_slot(e.index as int)
                    &&& vec2_ok(transforms.value_of_slot(e.index as int).position)
                    &&& coord_ok(colliders.value_of_slot(e.index as int).shape.spec_radius())
                },
        ensures
            r@ == query_result(*self, *transforms, *colliders, entity),
            forall|j: int|
                0 <= j < r@.len() ==> (#[trigger] r@[j]).wf() && colliders.contains_slot(
                    r@[j].index as int,
                ) && transforms.contains_slot(r@[j].index as int),
    {
        proof {
            use_type_invariant(&*self);
        }
        let icol = *(match colliders.get(entity) {
            Some(c) => c,
            None => unreached(),
        });
        let itr = *(match transforms.get(entity) {
            Some(t) => t,
            None => unreached(),
        });
        let cols = self.params.resolution.0;
        let rows = self.params.resolution.1;
        proof {
            assert(cols as int <= cols as int * rows as int) by (nonlinear_arith)
                requires
                    rows as int >= 1,
                    cols as int >= 0,
            ;
            assert(rows as int <= cols as int * rows as int) by (nonlinear_arith)
                requires
                    cols as int >= 1,
                    rows as int >= 0,
            ;
        }
        let (lo_x, hi_x) = axis_bounds(
            itr.position.x,
            icol.shape.radius(),
            self.params.bounding_rect.x,
            self.params.bounding_rect.w,
            cols,
        );
        let (lo_y, hi_y) = axis_bounds(
            itr.position.y,
            icol.shape.radius(),
            self.params.bounding_rect.y,
            self.params.bounding_rect.h,
            rows,
        );
        let ghost pred = query_pred(*transforms, *colliders, icol, itr.position);
        let mut out: Vec<Entity> = Vec::new();
        let mut yy = lo_y;
        while yy < hi_y
            invariant
                lo_y <= yy <= hi_y,
                out@ == query_rect(*self, pred, lo_x as int, hi_x as int, lo_y as int, yy - lo_y),
                out_elems_ok(out@, *transforms, *colliders),
            decreases hi_y - yy,
        {
            let mut xx = lo_x;
            while xx < hi_x
                invariant
                    lo_x <= xx <= hi_x,
                    lo_y <= yy < hi_y,
                    out@ == query_rect(*self, pred, lo_x as int, hi_x as int, lo_y as int, yy - lo_y)
                        + query_row(*self, pred, yy as int, lo_x as int, xx - lo_x),
                    out_elems_ok(out@, *transforms, *colliders),
                decreases hi_x - xx,
            {
                proof {
                    lemma_cell_index_bound(xx as int, yy as int, cols as int, rows as int);
                    assert(yy as int * cols + xx < self.cell_ranges@.len());
                }
                let range = self.cell_ranges[yy * cols + xx];
                let ghost cell = self.cell_seq(xx as int, yy as int);
                let mut k = range.start;
                while k < range.end
                    invariant
                        range.start <= k <= range.end,
                        range == self.cell_ranges@[yy as int * cols + xx],
                        out@ == query_rect(
                            *self,
                            pred,
                            lo_x as int,
                            hi_x as int,
                            lo_y as int,
                            yy - lo_y,
                        ) + query_row(*self, pred, yy as int, lo_x as int, xx - lo_x)
                            + cell.take(k - range.start).filter(pred),
                        out_elems_ok(out@, *transforms, *colliders),
                    decreases range.end - k,
                {
                    let cand = self.entities[k];
                    proof {
                        assert(cell[k - range.start] == cand);
                        assert(self.entities_seq()[k as int] == cand);
                    }
                    let ccol = *(match colliders.get(cand) {
                        Some(c) => c,
                        None => unreached(),
                    });
                    let ctr = *(match transforms.get(cand) {
                        Some(t) => t,
                        None => unreached(),
                    });
                    if icol.monitoring.overlaps(ccol.monitorable) && circle_overlaps(
                        itr.position,
                        icol.shape.radius(),
                        ctr.position,
                        ccol.shape.radius(),
                    ) {
                        out.push(cand);
                    }
                    proof {
                        broadcast use vstd::seq_lib::group_seq_properties;
                        reveal(Seq::filter);
                        assert(cell.take(k + 1 - range.start).drop_last() =~= cell.take(
                            k - range.start,
                        ));
                        assert(cell.take(k + 1 - range.start).last() == cand);
                        assert(cell.take(k + 1 - range.start).filter(pred) == cell.take(
                            k - range.start,
                        ).filter(pred) + if pred(cand) {
                            seq![cand]
                        } else {
                            Seq::empty()
                        }) by {
                            if pred(cand) {
                                assert(cell.take(k - range.start).filter(pred).push(cand)
                                    =~= cell.take(k - range.start).filter(pred) + seq![cand]);
                            } else {
                                assert(cell.take(k - range.start).filter(pred) =~= cell.take(
                                    k - range.start,
                                ).filter(pred) + Seq::<Entity>::empty());
                            }
                        }
                    }
                    k += 1;
                }
                proof {
                    assert(cell.take(range.end - range.start) =~= cell);
                    assert(query_row(*self, pred, yy as int, lo_x as int, xx + 1 - lo_x)
                        == query_row(*self, pred, yy as int, lo_x as int, xx - lo_x) + cell.filter(
                        pred,
                    ));
                    assert(out@ == query_rect(
                        *self,
                        pred,
                        lo_x as int,
                        hi_x as int,
                        lo_y as int,
                        yy - lo_y,
                    ) + query_row(*self, pred, yy as int, lo_x as int, xx + 1 - lo_x)) by {
                        broadcast use vstd::seq_lib::group_seq_properties;
                    }
                }
                xx += 1;
            }
            proof {
                assert(query_rect(*self, pred, lo_x as int, hi_x as int, lo_y as int, yy + 1 - lo_y)
                    == query_rect(*self, pred, lo_x as int, hi_x as int, lo_y as int, yy - lo_y)
                    + query_row(*self, pred, yy as int, lo_x as int, hi_x - lo_x));
            }
            yy += 1;
        }
        out
    }

    /// Returns the other entity from the first collision pair with the
    /// supplied entity, or `None` if nothing collides with it; preconditions
    /// as for `collisions`.
    pub fn any_collision(
        &self,
        transforms: &ComponentPool<Transform>,
        colliders: &ComponentPool<Collider>,
        entity: Entity,
    ) -> (r: Option<Entity>)
        requires
            self.spec_params().wf(),
            transforms.wf(),
            colliders.wf(),
            entity.wf(),
            colliders.contains_slot(entity.index as int),
            transforms.contains_slot(entity.index as int),
            vec2_ok(transforms.value_of_slot(entity.index as int).position),
            coord_ok(colliders.value_of_slot(entity.index as int).shape.spec_radius()),
            forall|k: int|
                0 <= k < self.entities_seq().len() ==> {
                    let e = #[trigger] self.entities_seq()[k];
                    &&& e.wf()
                    &&& colliders.contains_slot(e.index as int)
                    &&& transforms.contains_slot(e.index as int)
                    &&& vec2_ok(transforms.value_of_slot(e.index as int).position)
                    &&& coord_ok(colliders.value_of_slot(e.index as int).shape.spec_radius())
                },
        ensures
            ({
                let q = query_result(*self, *transforms, *colliders, entity);
                r == if q.len() > 0 {
                    Some(q[0])
                } else {
                    None::<Entity>
                }
            }),
    {
        let found = self.collisions(transforms, colliders, entity);
        if found.len() > 0 {
            Some(found[0])
        } else {
            None
        }
    }
}


/// A membership prefix contains a pool entry exactly when it was scanned and
/// its circle covers the cell.
proof fn lemma_members_contains(
    p: CollisionGridParams,
    colliders: ComponentPool<Collider>,
    transforms: ComponentPool<Transform>,
    x: int,
    y: int,
    n: int,
    i: int,
)
    requires
        colliders.wf(),
        0 <= i < colliders.owners().len(),
        0 <= n <= colliders.owners().len(),
    ensures
        cell_members_upto(p, colliders, transforms, x, y, n).contains(colliders.owners()[i]) == (i
            < n && covers(
            p,
            transforms.value_of_slot(colliders.owners()[i].index as int).position,
            colliders.vals()[i].shape.spec_radius(),
            x,
            y,
        )),
    decreases n,
{
    broadcast use vstd::seq_lib::group_seq_properties;

    if n > 0 {
        lemma_members_contains(p, colliders, transforms, x, y, n - 1, i);
        let prev = cell_members_upto(p, colliders, transforms, x, y, n - 1);
        let cur = cell_members_upto(p, colliders, transforms, x, y, n);
        let e = colliders.owners()[n - 1];
        let target = colliders.owners()[i];
        assert(e == target ==> i == n - 1) by {
            if e == target && i != n - 1 {
                colliders.lemma_owners_distinct(i, n - 1);
            }
        }
        if covers(
            p,
            transforms.value_of_slot(e.index as int).position,
            colliders.vals()[n - 1].shape.spec_radius(),
            x,
            y,
        ) {
            assert(cur == prev.push(e));
            assert(cur.contains(target) == (prev.contains(target) || e == target)) by {
                if cur.contains(target) {
                    let j = choose|j: int| 0 <= j < cur.len() && cur[j] == target;
                    if j < prev.len() {
                        assert(prev[j] == target);
                    }
                } else {
                    if prev.contains(target) {
                        let j = choose|j: int| 0 <= j < prev.len() && prev[j] == target;
                        assert(cur[j] == target);
                    }
                    assert(cur[cur.len() - 1] == e);
                }
            }
        } else {
            assert(cur == prev);
        }
    }
}

/// Grid partition law: a collider-carrying entity belongs to the membership
/// sequence of the cell `(x, y)` exactly when its circle's bounding box
/// covers that cell. Together with the rebuild's contract, which makes every
/// cell hold exactly its membership sequence, the entity appears in every
/// covered cell and in no other cell.
pub proof fn lemma_grid_partition(
    p: CollisionGridParams,
    colliders: ComponentPool<Collider>,
    transforms: ComponentPool<Transform>,
    i: int,
    x: int,
    y: int,
)
    requires
        colliders.wf(),
        0 <= i < colliders.owners().len(),
    ensures
        cell_members(p, colliders, transforms, x, y).contains(colliders.owners()[i]) == covers(
            p,
            transforms.value_of_slot(colliders.owners()[i].index as int).position,
            colliders.vals()[i].shape.spec_radius(),
            x,
            y,
        ),
{
    lemma_members_contains(p, colliders, transforms, x, y, colliders.owners().len() as int, i);
}


/// The first entity of the sequence that has a component in the given pool,
/// if any.
pub open spec fn first_hit_in<T>(q: Seq<Entity>, pool: ComponentPool<T>) -> Option<Entity>
    decreases q.len(),
{
    if q.len() == 0 {
        None
    } else if pool.contains_slot(q[0].index as int) {
        Some(q[0])
    } else {
        first_hit_in(q.drop_first(), pool)
    }
}


/// A query consults only the issuer's `monitoring` mask, never its
/// `monitorable` mask: two issuers at the same position with the same shape
/// and scanning masks admit exactly the same candidates, whatever layers
/// they are themselves detectable in.
pub proof fn lemma_query_reads_directional_masks(
    transforms: ComponentPool<Transform>,
    colliders: ComponentPool<Collider>,
    a1: Collider,
    a2: Collider,
    ipos: Vec2i,
    candidate: Entity,
)
    requires
        a1.monitoring == a2.monitoring,
        a1.shape == a2.shape,
    ensures
        query_allows(transforms, colliders, a1, ipos, candidate) == query_allows(
            transforms,
            colliders,
            a2,
            ipos,
            candidate,
        ),
{
}

} // verus!
