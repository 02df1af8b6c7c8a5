use vstd::arithmetic::div_mod::{
    lemma_div_denominator, lemma_fundamental_div_mod, lemma_fundamental_div_mod_converse,
};
use vstd::prelude::*;

use crate::config::{GridConfig, UpAxis};
use crate::grid::grid::PathfindingGrid;
use crate::primitive::alias::TransformInt;
use crate::primitive::cell::CellValue;
use crate::primitive::cuboid::CuboidI;
use crate::primitive::vector::Vec3I;

verus! {

/// The linear index of the cell addressed by local coordinates `(x, y, z)`
/// in a grid anchored at `anchor`: the anchored coordinates are packed with
/// the fastest-varying axis X, then the second horizontal axis, then the
/// vertical axis, as fixed by the up-axis convention.
pub open spec fn spec_linear_index(
    up_axis: UpAxis,
    anchor: Vec3I,
    width: int,
    depth: int,
    x: int,
    y: int,
    z: int,
) -> int {
    let sx = x + anchor.x;
    let sy = y + anchor.y;
    let sz = z + anchor.z;
    match up_axis {
        UpAxis::YUp => sx + sz * width + sy * (width * depth),
        UpAxis::ZUp => sx + sy * width + sz * (width * depth),
    }
}

/// The anchored coordinates `(index % width, ...)` that `spec_linear_index`
/// packs into `index`, recovered by division and modulo in the same
/// convention.
pub open spec fn spec_inverse_index(up_axis: UpAxis, width: int, depth: int, index: int) -> (
    int,
    int,
    int,
) {
    match up_axis {
        UpAxis::YUp => (index % width, index / (width * depth), (index / width) % depth),
        UpAxis::ZUp => (index % width, (index / width) % depth, index / (width * depth)),
    }
}

/// Unpacking a packed triple recovers it: the raw digit identity behind the
/// index bijection, shared by both conventions.
pub proof fn lemma_pack_unpack(width: int, depth: int, a: int, b: int, c: int)
    requires
        width >= 1,
        depth >= 1,
        0 <= a < width,
        0 <= b < depth,
        0 <= c,
    ensures
        (a + b * width + c * (width * depth)) % width == a,
        ((a + b * width + c * (width * depth)) / width) % depth == b,
        (a + b * width + c * (width * depth)) / (width * depth) == c,
        a + b * width + c * (width * depth) >= 0,
{
    let idx = a + b * width + c * (width * depth);
    assert(a + b * width + c * (width * depth) == (b + c * depth) * width + a)
        by (nonlinear_arith);
    assert(b + c * depth >= 0) by (nonlinear_arith)
        requires
            b >= 0,
            c >= 0,
            depth >= 1,
    ;
    assert((b + c * depth) * width + a >= 0) by (nonlinear_arith)
        requires
            b + c * depth >= 0,
            width >= 1,
            a >= 0,
    ;
    lemma_fundamental_div_mod_converse(idx, width, b + c * depth, a);
    assert(idx % width == a);
    assert(idx / width == b + c * depth);
    lemma_fundamental_div_mod_converse(b + c * depth, depth, c, b);
    assert((idx / width) % depth == b);
    assert(a + b * width < width * depth) by (nonlinear_arith)
        requires
            0 <= a < width,
            0 <= b < depth,
            width >= 1,
    ;
    assert(a + b * width + c * (width * depth) == c * (width * depth) + (a + b * width))
        by (nonlinear_arith);
    assert(width * depth >= 1) by (nonlinear_arith)
        requires
            width >= 1,
            depth >= 1,
    ;
    lemma_fundamental_div_mod_converse(idx, width * depth, c, a + b * width);
}

/// Repacking an unpacked index recovers it: the converse digit identity.
proof fn lemma_unpack_pack(width: int, depth: int, index: int)
    requires
        width >= 1,
        depth >= 1,
        0 <= index,
    ensures
        index % width + ((index / width) % depth) * width + (index / (width * depth)) * (width
            * depth) == index,
{
    let a = index % width;
    let b = (index / width) % depth;
    let c = index / (width * depth);
    lemma_fundamental_div_mod(index, width);
    lemma_fundamental_div_mod(index / width, depth);
    lemma_div_denominator(index, width, depth);
    assert(index / width / depth == index / (width * depth));
    assert(index == width * (depth * c + b) + a);
    assert(width * (depth * c + b) + a == a + b * width + c * (width * depth)) by (nonlinear_arith);
}

/// Index bijection, forward direction: for coordinates whose anchored form
/// lies inside the packing ranges, decoding the linear index returns exactly
/// the anchored coordinates, under either up-axis convention.
pub proof fn lemma_index_bijection(
    up_axis: UpAxis,
    anchor: Vec3I,
    width: int,
    depth: int,
    x: int,
    y: int,
    z: int,
)
    requires
        width >= 1,
        depth >= 1,
        0 <= x + anchor.x < width,
        up_axis == UpAxis::YUp ==> 0 <= z + anchor.z < depth && 0 <= y + anchor.y,
        up_axis == UpAxis::ZUp ==> 0 <= y + anchor.y < depth && 0 <= z + anchor.z,
    ensures
        spec_inverse_index(
            up_axis,
            width,
            depth,
            spec_linear_index(up_axis, anchor, width, depth, x, y, z),
        ) == (x + anchor.x, y + anchor.y, z + anchor.z),
        spec_linear_index(up_axis, anchor, width, depth, x, y, z) >= 0,
{
    let sx = x + anchor.x;
    let sy = y + anchor.y;
    let sz = z + anchor.z;
    match up_axis {
        UpAxis::YUp => {
            lemma_pack_unpack(width, depth, sx, sz, sy);
        },
        UpAxis::ZUp => {
            lemma_pack_unpack(width, depth, sx, sy, sz);
        },
    }
}

/// Index bijection, reverse direction: encoding the decoded anchored
/// coordinates of any non-negative index recovers that index, under either
/// up-axis convention.
pub proof fn lemma_index_bijection_reverse(
    up_axis: UpAxis,
    anchor: Vec3I,
    width: int,
    depth: int,
    index: int,
)
    requires
        width >= 1,
        depth >= 1,
        0 <= index,
    ensures
        ({
            let (dx, dy, dz) = spec_inverse_index(up_axis, width, depth, index);
            spec_linear_index(
                up_axis,
                anchor,
                width,
                depth,
                dx - anchor.x,
                dy - anchor.y,
                dz - anchor.z,
            ) == index
        }),
{
    lemma_unpack_pack(width, depth, index);
}

/// A dense, capacity-bounded voxel grid: `CAPACITY` slots of payload `T`
/// plus an occupancy mask, anchored at an integer position, with logical
/// dimensions fixed at construction.
///
/// A slot holds meaningful data exactly when its occupancy flag is set; all
/// other slots hold the payload's default value. Any operation whose
/// computed index falls outside `[0, CAPACITY)` (including through
/// anchored coordinates that are negative on some axis) is a no-op that
/// reports failure.
pub struct StaticSizedVoxelGrid<T: CellValue, const CAPACITY: usize> {
    width: usize,
    height: usize,
    depth: usize,
    grid: Vec<T>,
    occupied: Vec<bool>,
    position: Vec3I,
    up_axis: UpAxis,
}

/// Capacity tier of ten thousand slots.
pub type StaticSizedVoxelGridSmall<T> = StaticSizedVoxelGrid<T, 10000>;

/// Capacity tier of fifty thousand slots.
pub type StaticSizedVoxelGridMedium<T> = StaticSizedVoxelGrid<T, 50000>;

/// Capacity tier of one hundred thousand slots.
pub type StaticSizedVoxelGridLarge<T> = StaticSizedVoxelGrid<T, 100000>;

/// Capacity tier of one million slots.
pub type StaticSizedVoxelGridXL<T> = StaticSizedVoxelGrid<T, 1000000>;

/// Capacity tier of one hundred million slots.
pub type StaticSizedVoxelGridXXL<T> = StaticSizedVoxelGrid<T, 100000000>;

impl<T: CellValue, const CAPACITY: usize> StaticSizedVoxelGrid<T, CAPACITY> {
    /// The backing store and occupancy mask always span `CAPACITY` slots,
    /// and the geometry stays within the 32-bit range that keeps index
    /// arithmetic representable.
    #[verifier::type_invariant]
    spec fn inv(&self) -> bool {
        &&& self.grid@.len() == CAPACITY
        &&& self.occupied@.len() == CAPACITY
        &&& 1 <= self.width <= 0x7FFF_FFFF
        &&& 1 <= self.height <= 0x7FFF_FFFF
        &&& 1 <= self.depth <= 0x7FFF_FFFF
        &&& 0 <= self.position.x <= 0x3FFF_FFFF
        &&& 0 <= self.position.y <= 0x3FFF_FFFF
        &&& 0 <= self.position.z <= 0x3FFF_FFFF
        &&& CAPACITY <= 0x4000_0000
    }

    /// The data-model invariant: every unoccupied slot holds the payload's
    /// default value. Established at construction and preserved by every
    /// operation.
    pub open spec fn spec_erased(&self) -> bool {
        forall|i: int|
            0 <= i < CAPACITY && !(#[trigger] self.spec_occupied_seq()[i])
                ==> self.spec_cells()[i] == T::spec_default()
    }

    /// Writing one slot (and its occupancy flag) keeps the erased-slot
    /// invariant, provided a slot left unoccupied is left with the default.
    proof fn lemma_erased_write(pre: Self, post: Self, index: int, occ: bool, v: T)
        requires
            pre.spec_erased(),
            0 <= index < CAPACITY,
            pre.spec_occupied_seq().len() == CAPACITY,
            pre.spec_cells().len() == CAPACITY,
            post.spec_occupied_seq() == pre.spec_occupied_seq().update(index, occ),
            post.spec_cells() == pre.spec_cells().update(index, v),
            !occ ==> v == T::spec_default(),
        ensures
            post.spec_erased(),
    {
        assert forall|i: int|
            0 <= i < CAPACITY && !(#[trigger] post.spec_occupied_seq()[i])
                implies post.spec_cells()[i] == T::spec_default() by {
            if i != index {
                assert(!pre.spec_occupied_seq()[i]);
            }
        }
    }

    /// Logical width.
    pub closed spec fn spec_width(&self) -> int {
        self.width as int
    }

    /// Logical height.
    pub closed spec fn spec_height(&self) -> int {
        self.height as int
    }

    /// Logical depth.
    pub closed spec fn spec_depth(&self) -> int {
        self.depth as int
    }

    /// The anchor position.
    pub closed spec fn spec_anchor_pos(&self) -> Vec3I {
        self.position
    }

    /// The up-axis convention the grid was built with.
    pub closed spec fn spec_up_axis(&self) -> UpAxis {
        self.up_axis
    }

    /// The backing slots.
    pub closed spec fn spec_cells(&self) -> Seq<T> {
        self.grid@
    }

    /// The occupancy mask.
    pub closed spec fn spec_occupied_seq(&self) -> Seq<bool> {
        self.occupied@
    }

    /// The linear index the grid computes for local coordinates.
    pub open spec fn spec_index(&self, x: int, y: int, z: int) -> int {
        spec_linear_index(
            self.spec_up_axis(),
            self.spec_anchor_pos(),
            self.spec_width(),
            self.spec_depth(),
            x,
            y,
            z,
        )
    }

    /// Local coordinates address a slot: the anchored coordinates are
    /// non-negative on every axis and the computed index is below capacity.
    pub open spec fn spec_in_range(&self, x: int, y: int, z: int) -> bool {
        &&& 0 <= x + self.spec_anchor_pos().x
        &&& 0 <= y + self.spec_anchor_pos().y
        &&& 0 <= z + self.spec_anchor_pos().z
        &&& self.spec_index(x, y, z) < CAPACITY
    }

    /// Slot `i` exists and is occupied.
    pub open spec fn spec_occupied_at(&self, i: int) -> bool {
        0 <= i < (CAPACITY as int) && self.spec_occupied_seq()[i]
    }

    /// Local coordinates address an occupied slot.
    pub open spec fn spec_cell_occupied(&self, x: int, y: int, z: int) -> bool {
        self.spec_in_range(x, y, z) && self.spec_occupied_seq()[self.spec_index(x, y, z)]
    }

    /// Geometry (dimensions, anchor, convention) is unchanged.
    pub open spec fn spec_same_shape(&self, other: &Self) -> bool {
        &&& self.spec_width() == other.spec_width()
        &&& self.spec_height() == other.spec_height()
        &&& self.spec_depth() == other.spec_depth()
        &&& self.spec_anchor_pos() == other.spec_anchor_pos()
        &&& self.spec_up_axis() == other.spec_up_axis()
    }

    /// The number of occupied slots among the first `k`.
    pub open spec fn spec_occupied_count_upto(&self, k: int) -> int
        decreases k,
    {
        if k <= 0 {
            0
        } else {
            self.spec_occupied_count_upto(k - 1) + if self.spec_occupied_seq()[k - 1] {
                1int
            } else {
                0int
            }
        }
    }

    /// The size of the occupancy set.
    pub open spec fn spec_occupied_count(&self) -> int {
        self.spec_occupied_count_upto(CAPACITY as int)
    }

    /// The unit box of slot `i`, positioned at its decoded anchored
    /// coordinates.
    pub open spec fn spec_cell_box(&self, i: int) -> CuboidI {
        let dec = spec_inverse_index(self.spec_up_axis(), self.spec_width(), self.spec_depth(), i);
        CuboidI {
            position: Vec3I { x: dec.0 as i64, y: dec.1 as i64, z: dec.2 as i64 },
            extents: Vec3I { x: 1i64, y: 1i64, z: 1i64 },
        }
    }

    /// The unit boxes of the occupied slots among the first `k`, in
    /// ascending index order.
    pub open spec fn spec_cuboids_upto(&self, k: int) -> Seq<CuboidI>
        decreases k,
    {
        if k <= 0 {
            Seq::empty()
        } else {
            let rest = self.spec_cuboids_upto(k - 1);
            if self.spec_occupied_seq()[k - 1] {
                rest.push(self.spec_cell_box(k - 1))
            } else {
                rest
            }
        }
    }

    /// One box is produced per occupied slot.
    pub proof fn lemma_cuboids_len(&self, k: int)
        ensures
            self.spec_cuboids_upto(k).len() == self.spec_occupied_count_upto(k),
        decreases k,
    {
        if k > 0 {
            self.lemma_cuboids_len(k - 1);
        }
    }

    /// The drawable snapshot has exactly one box per member of the
    /// occupancy set.
    pub proof fn lemma_snapshot_size(&self)
        requires
            self.spec_width() >= 1,
            self.spec_depth() >= 1,
        ensures
            self.spec_cuboids().len() == self.spec_occupied_count(),
    {
        self.lemma_cuboids_len(CAPACITY as int);
    }

    /// Coordinates that address a slot lie within the walkable coordinate
    /// bound: every index term is non-negative, so each anchored coordinate
    /// is at most the index, which is below the capacity bound.
    proof fn lemma_in_range_coords_bounded(&self, x: int, y: int, z: int)
        requires
            self.spec_in_range(x, y, z),
            1 <= self.spec_width() <= 0x7FFF_FFFF,
            1 <= self.spec_depth() <= 0x7FFF_FFFF,
            0 <= self.spec_anchor_pos().x <= 0x3FFF_FFFF,
            0 <= self.spec_anchor_pos().y <= 0x3FFF_FFFF,
            0 <= self.spec_anchor_pos().z <= 0x3FFF_FFFF,
            CAPACITY <= 0x4000_0000,
        ensures
            -0x4000_0000 <= x <= 0x4000_0000,
            -0x4000_0000 <= y <= 0x4000_0000,
            -0x4000_0000 <= z <= 0x4000_0000,
    {
        let a = self.spec_anchor_pos();
        let w = self.spec_width();
        let d = self.spec_depth();
        let sx = x + a.x;
        let sy = y + a.y;
        let sz = z + a.z;
        let idx = self.spec_index(x, y, z);
        assert(sz * w >= sz && sz * w >= 0) by (nonlinear_arith)
            requires
                sz >= 0,
                w >= 1,
        ;
        assert(sy * w >= sy && sy * w >= 0) by (nonlinear_arith)
            requires
                sy >= 0,
                w >= 1,
        ;
        assert(sy * (w * d) >= sy && sy * (w * d) >= 0) by (nonlinear_arith)
            requires
                sy >= 0,
                w >= 1,
                d >= 1,
        ;
        assert(sz * (w * d) >= sz && sz * (w * d) >= 0) by (nonlinear_arith)
            requires
                sz >= 0,
                w >= 1,
                d >= 1,
        ;
        assert(sx <= idx && sy <= idx && sz <= idx);
    }

    /// Builds a grid with the given anchor and logical extents, every slot
    /// unoccupied and holding the payload's default value. The anchor and
    /// extents must lie in the 32-bit range that keeps index arithmetic
    /// representable, and the capacity tier must be allocatable as one
    /// dense block.
    pub fn new(position: &Vec3I, extents: &Vec3I, config: &GridConfig) -> (r: Self)
        requires
            0 <= position.x <= 0x3FFF_FFFF,
            0 <= position.y <= 0x3FFF_FFFF,
            0 <= position.z <= 0x3FFF_FFFF,
            1 <= extents.x <= 0x7FFF_FFFF,
            1 <= extents.y <= 0x7FFF_FFFF,
            1 <= extents.z <= 0x7FFF_FFFF,
            CAPACITY <= 0x4000_0000,
        ensures
            r.spec_width() == extents.x as int,
            r.spec_height() == extents.y as int,
            r.spec_depth() == extents.z as int,
            r.spec_anchor_pos() == *position,
            r.spec_up_axis() == config.up_axis,
            r.spec_cells().len() == CAPACITY as int,
            r.spec_occupied_seq().len() == CAPACITY as int,
            forall|i: int|
                0 <= i < CAPACITY ==> !(#[trigger] r.spec_occupied_seq()[i]) && r.spec_cells()[i]
                    == T::spec_default(),
            r.spec_erased(),
    {
        let width = extents.x as usize;
        let height = extents.y as usize;
        let depth = extents.z as usize;

        let mut grid: Vec<T> = Vec::new();
        while grid.len() < CAPACITY
            invariant
                grid@.len() <= CAPACITY,
                forall|i: int| 0 <= i < grid@.len() ==> #[trigger] grid@[i] == T::spec_default(),
            decreases CAPACITY - grid@.len(),
        {
            grid.push(T::default_value());
        }

        let mut occupied: Vec<bool> = Vec::new();
        while occupied.len() < CAPACITY
            invariant
                occupied@.len() <= CAPACITY,
                forall|i: int| 0 <= i < occupied@.len() ==> !(#[trigger] occupied@[i]),
            decreases CAPACITY - occupied@.len(),
        {
            occupied.push(false);
        }

        Self {
            width,
            height,
            depth,
            grid,
            occupied,
            position: *position,
            up_axis: config.up_axis,
        }
    }

    /// The box covering the full logical extents at the grid's anchor,
    /// independent of occupancy.
    pub fn bounds_as_cuboid(&self) -> (r: CuboidI)
        ensures
            r.position == self.spec_anchor_pos(),
            r.extents.x == self.spec_width(),
            r.extents.y == self.spec_height(),
            r.extents.z == self.spec_depth(),
    {
        proof {
            use_type_invariant(&*self);
        }
        CuboidI {
            position: self.position,
            extents: Vec3I {
                x: self.width as TransformInt,
                y: self.height as TransformInt,
                z: self.depth as TransformInt,
            },
        }
    }

    /// The slot addressed by local coordinates, or `None` when the
    /// computed index is out of range.
    fn index_1d(&self, x: TransformInt, y: TransformInt, z: TransformInt) -> (r: Option<usize>)
        ensures
            match r {
                Option::Some(i) => self.spec_in_range(x as int, y as int, z as int) && i
                    == self.spec_index(x as int, y as int, z as int),
                Option::None => !self.spec_in_range(x as int, y as int, z as int),
            },
    {
        proof {
            use_type_invariant(&*self);
        }
        let sx = x as i128 + self.position.x as i128;
        let sy = y as i128 + self.position.y as i128;
        let sz = z as i128 + self.position.z as i128;
        if sx < 0 || sy < 0 || sz < 0 {
            return Option::None;
        }
        let w = self.width as i128;
        let d = self.depth as i128;
        proof {
            assert(w * d < 0x4000_0000_0000_0000i128) by (nonlinear_arith)
                requires
                    0 <= w < 0x8000_0000i128,
                    0 <= d < 0x8000_0000i128,
            ;
            assert(sz * w < 0x1_0000_0000_0000_0000_0000_0000i128) by (nonlinear_arith)
                requires
                    0 <= sz < 0x2_0000_0000_0000_0000i128,
                    0 <= w < 0x8000_0000i128,
            ;
            assert(sy * w < 0x1_0000_0000_0000_0000_0000_0000i128) by (nonlinear_arith)
                requires
                    0 <= sy < 0x2_0000_0000_0000_0000i128,
                    0 <= w < 0x8000_0000i128,
            ;
            assert(sy * (w * d) < 0x4000_0000_0000_0000_0000_0000_0000_0000i128)
                by (nonlinear_arith)
                requires
                    0 <= sy < 0x1_0000_0000_0000_0000i128,
                    0 <= w * d < 0x4000_0000_0000_0000i128,
            ;
            assert(sz * (w * d) < 0x4000_0000_0000_0000_0000_0000_0000_0000i128)
                by (nonlinear_arith)
                requires
                    0 <= sz < 0x1_0000_0000_0000_0000i128,
                    0 <= w * d < 0x4000_0000_0000_0000i128,
            ;
            assert(sz * w >= 0 && sy * w >= 0 && sy * (w * d) >= 0 && sz * (w * d) >= 0)
                by (nonlinear_arith)
                requires
                    sx >= 0,
                    sy >= 0,
                    sz >= 0,
                    w >= 0,
                    d >= 0,
                    w * d >= 0,
            ;
        }
        let index = match self.up_axis {
            UpAxis::YUp => sx + sz * w + sy * (w * d),
            UpAxis::ZUp => sx + sy * w + sz * (w * d),
        };
        if index >= CAPACITY as i128 {
            Option::None
        } else {
            Option::Some(index as usize)
        }
    }

    /// The anchored coordinates whose packing is `index`; the exact inverse
    /// of the index computation over the packing ranges.
    fn index_3d(&self, index: usize) -> (r: Vec3I)
        requires
            index < CAPACITY,
            self.spec_width() >= 1,
            self.spec_depth() >= 1,
        ensures
            ({
                let dec = spec_inverse_index(
                    self.spec_up_axis(),
                    self.spec_width(),
                    self.spec_depth(),
                    index as int,
                );
                r.x == dec.0 && r.y == dec.1 && r.z == dec.2
            }),
    {
        proof {
            use_type_invariant(&*self);
        }
        let index = index as u64;
        let width = self.width as u64;
        let depth = self.depth as u64;

        proof {
            let wi = width as int;
            let di = depth as int;
            let ii = index as int;
            assert(wi * di >= 1) by (nonlinear_arith)
                requires
                    wi >= 1,
                    di >= 1,
            ;
            assert(wi * di <= 0x7FFF_FFFF * 0x7FFF_FFFF) by (nonlinear_arith)
                requires
                    1 <= wi <= 0x7FFF_FFFF,
                    1 <= di <= 0x7FFF_FFFF,
            ;
            assert(ii / (wi * di) <= ii) by (nonlinear_arith)
                requires
                    wi * di >= 1,
                    ii >= 0,
            ;
            assert(ii / wi <= ii) by (nonlinear_arith)
                requires
                    wi >= 1,
                    ii >= 0,
            ;
        }

        let x: u64;
        let y: u64;
        let z: u64;

        match self.up_axis {
            UpAxis::YUp => {
                x = index % width;
                z = (index / width) % depth;
                y = index / (width * depth);
            },
            UpAxis::ZUp => {
                x = index % width;
                y = (index / width) % depth;
                z = index / (width * depth);
            },
        }

        Vec3I { x: x as TransformInt, y: y as TransformInt, z: z as TransformInt }
    }

    /// Writes `value` into an unoccupied slot and marks it occupied.
    /// Fails without touching anything when the index is out of range or
    /// the slot is already occupied.
    pub fn create_cell(&mut self, x: TransformInt, y: TransformInt, z: TransformInt, value: &T) -> (r:
        bool)
        ensures
            r == (old(self).spec_in_range(x as int, y as int, z as int) && !old(
                self,
            ).spec_occupied_at(old(self).spec_index(x as int, y as int, z as int))),
            r ==> final(self).spec_cells() == old(self).spec_cells().update(
                old(self).spec_index(x as int, y as int, z as int),
                *value,
            ) && final(self).spec_occupied_seq() == old(self).spec_occupied_seq().update(
                old(self).spec_index(x as int, y as int, z as int),
                true,
            ),
            !r ==> *final(self) == *old(self),
            final(self).spec_same_shape(old(self)),
            old(self).spec_erased() ==> final(self).spec_erased(),
    {
        proof {
            use_type_invariant(&*self);
        }
        match self.index_1d(x, y, z) {
            Option::None => false,
            Option::Some(index) => {
                if !self.occupied[index] {
                    self.occupied[index] = true;
                    self.grid[index] = *value;
                    proof {
                        if old(self).spec_erased() {
                            Self::lemma_erased_write(
                                *old(self),
                                *self,
                                index as int,
                                true,
                                *value,
                            );
                        }
                    }
                    true
                } else {
                    false
                }
            },
        }
    }

    /// A reference to the value of an occupied slot, or `None` when the
    /// index is out of range or the slot is unoccupied.
    pub fn read_cell(&self, x: TransformInt, y: TransformInt, z: TransformInt) -> (r: Option<&T>)
        ensures
            match r {
                Option::Some(v) => self.spec_cell_occupied(x as int, y as int, z as int) && *v
                    == self.spec_cells()[self.spec_index(x as int, y as int, z as int)],
                Option::None => !self.spec_cell_occupied(x as int, y as int, z as int),
            },
    {
        proof {
            use_type_invariant(&*self);
        }
        match self.index_1d(x, y, z) {
            Option::None => Option::None,
            Option::Some(index) => {
                if self.occupied[index] {
                    Option::Some(&self.grid[index])
                } else {
                    Option::None
                }
            },
        }
    }

    /// Like `read_cell`, returning the value by copy.
    pub fn read_cell_cloned(&self, x: TransformInt, y: TransformInt, z: TransformInt) -> (r:
        Option<T>)
        ensures
            match r {
                Option::Some(v) => self.spec_cell_occupied(x as int, y as int, z as int) && v
                    == self.spec_cells()[self.spec_index(x as int, y as int, z as int)],
                Option::None => !self.spec_cell_occupied(x as int, y as int, z as int),
            },
    {
        match self.read_cell(x, y, z) {
            Option::Some(v) => Option::Some(*v),
            Option::None => Option::None,
        }
    }

    /// Overwrites the value of an occupied slot. Fails without touching
    /// anything when the index is out of range or the slot is unoccupied.
    pub fn update_cell(&mut self, x: TransformInt, y: TransformInt, z: TransformInt, value: &T) -> (r:
        bool)
        ensures
            r == old(self).spec_cell_occupied(x as int, y as int, z as int),
            r ==> final(self).spec_cells() == old(self).spec_cells().update(
                old(self).spec_index(x as int, y as int, z as int),
                *value,
            ) && final(self).spec_occupied_seq() == old(self).spec_occupied_seq(),
            !r ==> *final(self) == *old(self),
            final(self).spec_same_shape(old(self)),
            old(self).spec_erased() ==> final(self).spec_erased(),
    {
        proof {
            use_type_invariant(&*self);
        }
        match self.index_1d(x, y, z) {
            Option::None => false,
            Option::Some(index) => {
                if self.occupied[index] {
                    self.grid[index] = *value;
                    proof {
                        if old(self).spec_erased() {
                            assert(self.spec_occupied_seq() == old(self).spec_occupied_seq()
                                .update(index as int, true)) by {
                                assert(self.spec_occupied_seq() =~= old(
                                    self,
                                ).spec_occupied_seq().update(index as int, true));
                            }
                            Self::lemma_erased_write(
                                *old(self),
                                *self,
                                index as int,
                                true,
                                *value,
                            );
                        }
                    }
                    true
                } else {
                    false
                }
            },
        }
    }

    /// Writes `value` and marks the slot occupied whether or not it was.
    /// Out-of-range indices are ignored.
    pub fn upsert_cell(&mut self, x: TransformInt, y: TransformInt, z: TransformInt, value: &T)
        ensures
            old(self).spec_in_range(x as int, y as int, z as int) ==> final(self).spec_cells()
                == old(self).spec_cells().update(
                old(self).spec_index(x as int, y as int, z as int),
                *value,
            ) && final(self).spec_occupied_seq() == old(self).spec_occupied_seq().update(
                old(self).spec_index(x as int, y as int, z as int),
                true,
            ),
            !old(self).spec_in_range(x as int, y as int, z as int) ==> *final(self) == *old(self),
            final(self).spec_same_shape(old(self)),
            old(self).spec_erased() ==> final(self).spec_erased(),
    {
        proof {
            use_type_invariant(&*self);
        }
        match self.index_1d(x, y, z) {
            Option::None => {},
            Option::Some(index) => {
                self.occupied[index] = true;
                self.grid[index] = *value;
                proof {
                    if old(self).spec_erased() {
                        Self::lemma_erased_write(*old(self), *self, index as int, true, *value);
                    }
                }
            },
        }
    }

    /// Resets an occupied slot to the default value and clears its
    /// occupancy flag. Out-of-range indices and unoccupied slots are
    /// ignored.
    pub fn delete_cell(&mut self, x: TransformInt, y: TransformInt, z: TransformInt)
        ensures
            old(self).spec_cell_occupied(x as int, y as int, z as int) ==> final(self).spec_cells()
                == old(self).spec_cells().update(
                old(self).spec_index(x as int, y as int, z as int),
                T::spec_default(),
            ) && final(self).spec_occupied_seq() == old(self).spec_occupied_seq().update(
                old(self).spec_index(x as int, y as int, z as int),
                false,
            ),
            !old(self).spec_cell_occupied(x as int, y as int, z as int) ==> *final(self) == *old(
                self,
            ),
            final(self).spec_same_shape(old(self)),
            old(self).spec_erased() ==> final(self).spec_erased(),
    {
        proof {
            use_type_invariant(&*self);
        }
        match self.index_1d(x, y, z) {
            Option::None => {},
            Option::Some(index) => {
                if self.occupied[index] {
                    self.grid[index] = T::default_value();
                    self.occupied[index] = false;
                    proof {
                        if old(self).spec_erased() {
                            Self::lemma_erased_write(
                                *old(self),
                                *self,
                                index as int,
                                false,
                                T::spec_default(),
                            );
                        }
                    }
                }
            },
        }
    }

    /// Like `delete_cell`, reporting whether a slot was actually cleared.
    pub fn delete_cell_check(&mut self, x: TransformInt, y: TransformInt, z: TransformInt) -> (r:
        bool)
        ensures
            r == old(self).spec_cell_occupied(x as int, y as int, z as int),
            r ==> final(self).spec_cells() == old(self).spec_cells().update(
                old(self).spec_index(x as int, y as int, z as int),
                T::spec_default(),
            ) && final(self).spec_occupied_seq() == old(self).spec_occupied_seq().update(
                old(self).spec_index(x as int, y as int, z as int),
                false,
            ),
            !r ==> *final(self) == *old(self),
            final(self).spec_same_shape(old(self)),
            old(self).spec_erased() ==> final(self).spec_erased(),
    {
        proof {
            use_type_invariant(&*self);
        }
        match self.index_1d(x, y, z) {
            Option::None => false,
            Option::Some(index) => {
                if self.occupied[index] {
                    self.grid[index] = T::default_value();
                    self.occupied[index] = false;
                    proof {
                        if old(self).spec_erased() {
                            Self::lemma_erased_write(
                                *old(self),
                                *self,
                                index as int,
                                false,
                                T::spec_default(),
                            );
                        }
                    }
                    true
                } else {
                    false
                }
            },
        }
    }

    /// Like `delete_cell`, additionally returning the prior value of a
    /// cleared slot.
    pub fn delete_cell_pop(&mut self, x: TransformInt, y: TransformInt, z: TransformInt) -> (r:
        Option<T>)
        ensures
            match r {
                Option::Some(v) => old(self).spec_cell_occupied(x as int, y as int, z as int) && v
                    == old(self).spec_cells()[old(self).spec_index(x as int, y as int, z as int)],
                Option::None => !old(self).spec_cell_occupied(x as int, y as int, z as int),
            },
            r is Some ==> final(self).spec_cells() == old(self).spec_cells().update(
                old(self).spec_index(x as int, y as int, z as int),
                T::spec_default(),
            ) && final(self).spec_occupied_seq() == old(self).spec_occupied_seq().update(
                old(self).spec_index(x as int, y as int, z as int),
                false,
            ),
            r is None ==> *final(self) == *old(self),
            final(self).spec_same_shape(old(self)),
            old(self).spec_erased() ==> final(self).spec_erased(),
    {
        proof {
            use_type_invariant(&*self);
        }
        match self.index_1d(x, y, z) {
            Option::None => Option::None,
            Option::Some(index) => {
                if self.occupied[index] {
                    let prior = self.grid[index];
                    self.grid[index] = T::default_value();
                    self.occupied[index] = false;
                    proof {
                        if old(self).spec_erased() {
                            Self::lemma_erased_write(
                                *old(self),
                                *self,
                                index as int,
                                false,
                                T::spec_default(),
                            );
                        }
                    }
                    Option::Some(prior)
                } else {
                    Option::None
                }
            },
        }
    }
}

impl<T: CellValue, const CAPACITY: usize> PathfindingGrid for StaticSizedVoxelGrid<T, CAPACITY> {
    /// Walkable means: the computed index is in range and the slot is
    /// occupied. Occupied cells are the traversable surface.
    open spec fn spec_walkable(&self) -> Set<Vec3I> {
        Set::new(
            |q: Vec3I| self.spec_cell_occupied(q.x as int, q.y as int, q.z as int),
        )
    }

    open spec fn spec_anchor(&self) -> Vec3I {
        self.spec_anchor_pos()
    }

    /// A grid with a zero horizontal extent packs no decodable cells, so
    /// its snapshot is empty; otherwise one unit box per occupied slot.
    open spec fn spec_cuboids(&self) -> Seq<CuboidI> {
        if self.spec_width() >= 1 && self.spec_depth() >= 1 {
            self.spec_cuboids_upto(CAPACITY as int)
        } else {
            Seq::empty()
        }
    }

    fn is_valid_path_node_i(&self, position: &Vec3I) -> (r: bool) {
        proof {
            assert(self.spec_walkable().contains(*position) == self.spec_cell_occupied(
                position.x as int,
                position.y as int,
                position.z as int,
            ));
        }
        match self.index_1d(position.x, position.y, position.z) {
            Option::None => false,
            Option::Some(index) => {
                proof {
                    use_type_invariant(&*self);
                    self.lemma_in_range_coords_bounded(
                        position.x as int,
                        position.y as int,
                        position.z as int,
                    );
                }
                self.occupied[index]
            },
        }
    }

    fn position_i(&self) -> (r: Vec3I) {
        self.position
    }

    fn as_cuboid_cells(&self) -> (r: Vec<CuboidI>) {
        proof {
            use_type_invariant(&*self);
        }
        let mut cells: Vec<CuboidI> = Vec::new();
        let mut idx: usize = 0;
        while idx < CAPACITY
            invariant
                self.inv(),
                self.spec_width() >= 1,
                self.spec_depth() >= 1,
                idx <= CAPACITY,
                cells@ == self.spec_cuboids_upto(idx as int),
            decreases CAPACITY - idx,
        {
            if self.occupied[idx] {
                let pos = self.index_3d(idx);
                cells.push(CuboidI { position: pos, extents: Vec3I { x: 1, y: 1, z: 1 } });
            }
            idx = idx + 1;
        }
        cells
    }
}

} // verus!
