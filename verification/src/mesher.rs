//! Greedy surface meshing: walks one chunk's decompressed cell array,
//! culls hidden faces against in-chunk neighbours and up to six bordering
//! chunks, merges visible same-label faces into rectangles, and emits packed
//! vertex quads with index sextuples.
//!
//! Boundary policy: a face on the chunk border is tested against the
//! bordering chunk's cell when that chunk is supplied, and is kept
//! (conservatively treated as visible) when it is not.  A pass never marks
//! coverage inside a bordering chunk; each chunk discovers its own side of a
//! shared border independently.

use vstd::prelude::*;

use crate::block::Block;
use crate::block_registry::{ATTR_TRANSPARENT, Attributes, BlockDefinition, BlockRegistry};
use crate::chunk::{
    CHUNK_SIZE, CHUNK_SIZE_CUBED, cell_index, lemma_cell_index_inverse,
    lemma_cell_index_reconstruct, spec_cell_index, spec_cell_x, spec_cell_y, spec_cell_z,
};
use crate::direction::{DirectionSet, dir_in, opposite_direction};
use crate::mesh::{PackedVertex, QuadIndexes, QuadVertexes};
use crate::palette::Palette;

verus! {

/// An upper bound on how many quads one pass can emit: six per cell.
pub const MAX_QUADS: usize = 196608;

/// Is face `d` of cell `c` already covered?
pub open spec fn marked(f: Seq<DirectionSet>, c: int, d: u8) -> bool {
    dir_in(f[c].bits, d)
}

/// Every block identity in `s` is registered in `reg`.
pub open spec fn ids_registered(s: Seq<Block>, reg: Seq<BlockDefinition>) -> bool {
    forall|i: int| 0 <= i < s.len() ==> (#[trigger] s[i].id as int) < reg.len()
}

/// A bordering chunk, if supplied, is a well-formed chunk-sized palette
/// whose labels are registered.
pub open spec fn neighbor_ok(n: Option<&Palette>, reg: Seq<BlockDefinition>) -> bool {
    match n {
        None => true,
        Some(np) => {
            &&& np.wf()
            &&& np@.len() == CHUNK_SIZE_CUBED
            &&& ids_registered(np.lookup_seq(), reg)
        },
    }
}

/// The ghost record of one emitted quad: which direction it faces, the one
/// label it carries, the anchor cell and extents of its face rectangle,
/// and exactly which cells that rectangle covers.
pub struct QuadFootprint {
    pub dir: u8,
    pub block_id: u16,
    pub x: int,
    pub y: int,
    pub z: int,
    pub len_p: int,
    pub len_q: int,
    pub cells: Set<int>,
}

impl QuadFootprint {
    /// Whether this quad covers the face of cell `c`.
    pub open spec fn covers(self, c: int) -> bool {
        self.cells.contains(c)
    }

    /// The normal's axis.
    pub open spec fn axis(self) -> int {
        (self.dir as int) % 3
    }

    /// The first perpendicular axis, along which `len_p` extends.
    pub open spec fn axis_p(self) -> int {
        (self.axis() + 1) % 3
    }

    /// The second perpendicular axis, along which `len_q` extends.
    pub open spec fn axis_q(self) -> int {
        (self.axis() + 2) % 3
    }

    /// The covered cells are exactly the recorded rectangle.
    pub open spec fn is_rectangle(self) -> bool {
        self.cells == rect_set(
            self.x,
            self.y,
            self.z,
            self.axis_p(),
            self.axis_q(),
            self.len_p,
            self.len_q,
        )
    }

    /// The anchor sits in the chunk and the rectangle stays inside it.
    pub open spec fn geometry_wf(self) -> bool {
        &&& self.dir < 6
        &&& 0 <= self.x < 32
        &&& 0 <= self.y < 32
        &&& 0 <= self.z < 32
        &&& 1 <= self.len_p
        &&& 1 <= self.len_q
        &&& spec_axis_coord(self.x, self.y, self.z, self.axis_p()) + self.len_p <= 32
        &&& spec_axis_coord(self.x, self.y, self.z, self.axis_q()) + self.len_q <= 32
    }
}

/// The position field of a packed vertex along one axis.
pub open spec fn vert_coord(v: PackedVertex, axis: int) -> int {
    if axis == 0 {
        (((v.xyz as u32) & 0x3f) as int)
    } else if axis == 1 {
        ((((v.xyz as u32) >> 6) & 0x3f) as int)
    } else {
        ((((v.xyz as u32) >> 12) & 0x3f) as int)
    }
}

/// The 2-bit orientation tag of a packed vertex for one axis.
pub open spec fn vert_tag(v: PackedVertex, axis: int) -> int {
    if axis == 0 {
        ((((v.xyz as u32) >> 18) & 0x3) as int)
    } else if axis == 1 {
        ((((v.xyz as u32) >> 20) & 0x3) as int)
    } else {
        ((((v.xyz as u32) >> 22) & 0x3) as int)
    }
}

/// The four packed corners of a quad sit on the corners of its footprint's
/// rectangle: along the normal's axis every corner lies on the face plane
/// (one past the anchor for a positive normal), along each perpendicular
/// axis every corner lies on one of the rectangle's two bounds, and the
/// orientation tags name the normal's axis and sign.
pub open spec fn quad_shape_ok(vs: Seq<PackedVertex>, fp: QuadFootprint) -> bool {
    &&& vs.len() == 4
    &&& forall|c: int|
        0 <= c < 4 ==> {
            let v = #[trigger] vs[c];
            &&& v.uvz == 0
            &&& vert_coord(v, fp.axis()) == spec_axis_coord(fp.x, fp.y, fp.z, fp.axis()) + (
            if fp.dir < 3 {
                1int
            } else {
                0int
            })
            &&& (vert_coord(v, fp.axis_p()) == spec_axis_coord(fp.x, fp.y, fp.z, fp.axis_p())
                || vert_coord(v, fp.axis_p()) == spec_axis_coord(fp.x, fp.y, fp.z, fp.axis_p())
                + fp.len_p)
            &&& (vert_coord(v, fp.axis_q()) == spec_axis_coord(fp.x, fp.y, fp.z, fp.axis_q())
                || vert_coord(v, fp.axis_q()) == spec_axis_coord(fp.x, fp.y, fp.z, fp.axis_q())
                + fp.len_q)
            &&& vert_tag(v, fp.axis()) == (if fp.dir < 3 {
                2int
            } else {
                0int
            })
            &&& vert_tag(v, fp.axis_p()) == 1
            &&& vert_tag(v, fp.axis_q()) == 1
        }
}

/// Two quads never claim the same cell-face pair.
pub open spec fn quads_disjoint(a: QuadFootprint, b: QuadFootprint) -> bool {
    a.dir == b.dir ==> forall|c: int| !(#[trigger] a.covers(c) && b.covers(c))
}

/// The mesher's output: index sextuples and vertex quadruples in step, with
/// a ghost footprint per quad.
pub struct PackedMesh {
    pub indexes: Vec<QuadIndexes<u32>>,
    pub vertexes: Vec<QuadVertexes<PackedVertex>>,
    pub footprints: Ghost<Seq<QuadFootprint>>,
}

/// Quad `t`'s six indices reference its own four vertices as two triangles
/// with a fixed winding.
pub open spec fn sextuple_ok(s: Seq<u32>, t: int) -> bool {
    &&& s.len() == 6
    &&& s[0] == 4 * t
    &&& s[1] == 4 * t + 1
    &&& s[2] == 4 * t + 3
    &&& s[3] == 4 * t + 1
    &&& s[4] == 4 * t + 2
    &&& s[5] == 4 * t + 3
}

/// The running well-formedness of a mesh under construction: sequences in
/// step, valid index sextuples, and a footprint per quad whose cells are in
/// range, carry the quad's one non-background label, are all marked covered,
/// and overlap no other quad's cells in the same direction.
pub open spec fn mesh_inv(blocks: Seq<Block>, faces: Seq<DirectionSet>, m: PackedMesh) -> bool {
    &&& blocks.len() == CHUNK_SIZE_CUBED
    &&& faces.len() == CHUNK_SIZE_CUBED
    &&& m.vertexes@.len() == m.indexes@.len()
    &&& m.footprints@.len() == m.vertexes@.len()
    &&& m.vertexes@.len() <= MAX_QUADS
    &&& forall|t: int| 0 <= t < m.indexes@.len() ==> sextuple_ok(#[trigger] m.indexes@[t]@, t)
    &&& forall|t: int|
        0 <= t < m.footprints@.len() ==> (#[trigger] m.footprints@[t]).geometry_wf()
            && m.footprints@[t].block_id != 0 && (exists|c: int| m.footprints@[t].covers(c))
            && m.footprints@[t].is_rectangle() && quad_shape_ok(m.vertexes@[t]@, m.footprints@[t])
    &&& forall|t: int, c: int|
        0 <= t < m.footprints@.len() && (#[trigger] m.footprints@[t].covers(c)) ==> 0 <= c
            < CHUNK_SIZE_CUBED && marked(faces, c, m.footprints@[t].dir) && blocks[c].id
            == m.footprints@[t].block_id
    &&& forall|t1: int, t2: int|
        0 <= t1 < t2 < m.footprints@.len() ==> quads_disjoint(
            #[trigger] m.footprints@[t1],
            #[trigger] m.footprints@[t2],
        )
}

/// The linear-index step of one cell along an axis.
pub open spec fn spec_axis_step(i: int) -> int {
    if i == 0 {
        1
    } else if i == 1 {
        32
    } else {
        1024
    }
}

/// The coordinate of `(x, y, z)` along axis `i`.
pub open spec fn spec_axis_coord(x: int, y: int, z: int, i: int) -> int {
    if i == 0 {
        x
    } else if i == 1 {
        y
    } else {
        z
    }
}

/// Reads the coordinate along axis `axis`.
fn axis_coord(x: usize, y: usize, z: usize, axis: usize) -> (r: usize)
    requires
        axis < 3,
    ensures
        r == spec_axis_coord(x as int, y as int, z as int, axis as int),
{
    if axis == 0 {
        x
    } else if axis == 1 {
        y
    } else {
        z
    }
}

/// Moves `(x, y, z)` by `off` cells along `axis`.
fn offset_coords(x: usize, y: usize, z: usize, axis: usize, off: usize) -> (r: (usize, usize, usize))
    requires
        axis < 3,
        x < CHUNK_SIZE,
        y < CHUNK_SIZE,
        z < CHUNK_SIZE,
        spec_axis_coord(x as int, y as int, z as int, axis as int) + off < CHUNK_SIZE,
    ensures
        r.0 < CHUNK_SIZE && r.1 < CHUNK_SIZE && r.2 < CHUNK_SIZE,
        r.0 as int == x + (if axis == 0 {
            off as int
        } else {
            0int
        }),
        r.1 as int == y + (if axis == 1 {
            off as int
        } else {
            0int
        }),
        r.2 as int == z + (if axis == 2 {
            off as int
        } else {
            0int
        }),
        spec_cell_index(r.0 as int, r.1 as int, r.2 as int) == spec_cell_index(
            x as int,
            y as int,
            z as int,
        ) + off * spec_axis_step(axis as int),
        spec_axis_coord(r.0 as int, r.1 as int, r.2 as int, axis as int) == spec_axis_coord(
            x as int,
            y as int,
            z as int,
            axis as int,
        ) + off,
        forall|i: int|
            0 <= i < 3 && i != axis ==> spec_axis_coord(r.0 as int, r.1 as int, r.2 as int, i)
                == spec_axis_coord(x as int, y as int, z as int, i),
{
    if axis == 0 {
        (x + off, y, z)
    } else if axis == 1 {
        (x, y + off, z)
    } else {
        (x, y, z + off)
    }
}

/// Wraps `value + delta` into `[min_val, max_val]`, treating the range as a
/// ring.  The shifted value may undershoot or overshoot the range by less
/// than one full ring width.
pub fn wrap(value: i32, delta: i32, min_val: i32, max_val: i32) -> (r: i32)
    requires
        min_val <= max_val,
        max_val - min_val < 0x1000_0000,
        -(max_val + 1 - min_val) <= value + delta - min_val,
        value + delta - min_val < 2 * (max_val + 1 - min_val),
        -0x1000_0000 < value + delta,
        value + delta < 0x1000_0000,
    ensures
        min_val <= r <= max_val,
        r == min_val + (value + delta - min_val) % (max_val + 1 - min_val),
{
    let mod_val = (max_val + 1) - min_val;
    let v = (value + delta) - min_val;
    let r = if v < 0 {
        v + mod_val
    } else if v >= mod_val {
        v - mod_val
    } else {
        v
    };
    proof {
        let m = mod_val as int;
        let vi = v as int;
        if vi < 0 {
            assert((vi % m) == vi + m) by (nonlinear_arith)
                requires
                    -m <= vi < 0,
                    m >= 1,
            ;
        } else if vi >= m {
            assert((vi % m) == vi - m) by (nonlinear_arith)
                requires
                    m <= vi < 2 * m,
                    m >= 1,
            ;
        } else {
            assert((vi % m) == vi) by (nonlinear_arith)
                requires
                    0 <= vi < m,
                    m >= 1,
            ;
        }
    }
    r + min_val
}

/// The cell reached from `(x, y, z)` by `j` steps along axis `p` and `k`
/// steps along axis `q`.
pub open spec fn rect_cell(
    x: int,
    y: int,
    z: int,
    p: int,
    q: int,
    j: int,
    k: int,
) -> int {
    spec_cell_index(
        x + (if p == 0 { j } else { 0 }) + (if q == 0 { k } else { 0 }),
        y + (if p == 1 { j } else { 0 }) + (if q == 1 { k } else { 0 }),
        z + (if p == 2 { j } else { 0 }) + (if q == 2 { k } else { 0 }),
    )
}

/// The cells of the axis-aligned rectangle anchored at `(x, y, z)` with
/// extents `lp` along axis `p` and `lq` along axis `q`.
pub open spec fn rect_set(x: int, y: int, z: int, p: int, q: int, lp: int, lq: int) -> Set<int> {
    Set::new(
        |c: int|
            exists|j: int, k: int|
                0 <= j < lp && 0 <= k < lq && c == rect_cell(x, y, z, p, q, j, k),
    )
}

/// The first `upto` cells of the row at offset `lq` along axis `q`.
pub open spec fn row_set(x: int, y: int, z: int, p: int, q: int, lq: int, upto: int) -> Set<int> {
    Set::new(
        |c: int| exists|j: int| 0 <= j < upto && c == rect_cell(x, y, z, p, q, j, lq),
    )
}

/// Growing a one-row rectangle by its next cell along axis `p`.
proof fn lemma_rect_set_grow_p(x: int, y: int, z: int, p: int, q: int, lp: int, s: Set<int>, c: int)
    requires
        lp >= 0,
        s == rect_set(x, y, z, p, q, lp, 1),
        c == rect_cell(x, y, z, p, q, lp, 0),
    ensures
        s.insert(c) == rect_set(x, y, z, p, q, lp + 1, 1),
{
    let big = rect_set(x, y, z, p, q, lp + 1, 1);
    assert forall|cc: int| #[trigger] big.contains(cc) implies s.insert(c).contains(cc) by {
        let (j, k) = choose|j: int, k: int|
            0 <= j < lp + 1 && 0 <= k < 1 && cc == rect_cell(x, y, z, p, q, j, k);
        if j < lp {
            assert(cc == rect_cell(x, y, z, p, q, j, k));
            assert(s.contains(cc));
        } else {
            assert(cc == rect_cell(x, y, z, p, q, lp, 0));
        }
    }
    assert forall|cc: int| #[trigger] s.insert(c).contains(cc) implies big.contains(cc) by {
        if cc == c {
            assert(cc == rect_cell(x, y, z, p, q, lp, 0));
            assert(big.contains(cc));
        } else {
            let (j, k) = choose|j: int, k: int|
                0 <= j < lp && 0 <= k < 1 && cc == rect_cell(x, y, z, p, q, j, k);
            assert(cc == rect_cell(x, y, z, p, q, j, k));
            assert(big.contains(cc));
        }
    }
    assert(s.insert(c) =~= big);
}

/// Growing a partial row by its next cell along axis `p`.
proof fn lemma_row_set_grow(
    x: int,
    y: int,
    z: int,
    p: int,
    q: int,
    lp: int,
    lq: int,
    upto: int,
    s: Set<int>,
    c: int,
)
    requires
        upto >= 0,
        s == rect_set(x, y, z, p, q, lp, lq).union(row_set(x, y, z, p, q, lq, upto)),
        c == rect_cell(x, y, z, p, q, upto, lq),
    ensures
        s.insert(c) == rect_set(x, y, z, p, q, lp, lq).union(row_set(x, y, z, p, q, lq, upto + 1)),
{
    let big = rect_set(x, y, z, p, q, lp, lq).union(row_set(x, y, z, p, q, lq, upto + 1));
    assert forall|cc: int| #[trigger] big.contains(cc) implies s.insert(c).contains(cc) by {
        if row_set(x, y, z, p, q, lq, upto + 1).contains(cc) {
            let j = choose|j: int| 0 <= j < upto + 1 && cc == rect_cell(x, y, z, p, q, j, lq);
            if j < upto {
                assert(cc == rect_cell(x, y, z, p, q, j, lq));
                assert(row_set(x, y, z, p, q, lq, upto).contains(cc));
            } else {
                assert(cc == rect_cell(x, y, z, p, q, upto, lq));
            }
        }
    }
    assert forall|cc: int| #[trigger] s.insert(c).contains(cc) implies big.contains(cc) by {
        if cc == c {
            assert(cc == rect_cell(x, y, z, p, q, upto, lq));
            assert(row_set(x, y, z, p, q, lq, upto + 1).contains(cc));
        } else if row_set(x, y, z, p, q, lq, upto).contains(cc) {
            let j = choose|j: int| 0 <= j < upto && cc == rect_cell(x, y, z, p, q, j, lq);
            assert(cc == rect_cell(x, y, z, p, q, j, lq));
            assert(row_set(x, y, z, p, q, lq, upto + 1).contains(cc));
        }
    }
    assert(s.insert(c) =~= big);
}

/// A rectangle plus one complete further row is the taller rectangle.
proof fn lemma_rect_set_complete_row(x: int, y: int, z: int, p: int, q: int, lp: int, lq: int)
    requires
        lp >= 0,
        lq >= 0,
    ensures
        rect_set(x, y, z, p, q, lp, lq).union(row_set(x, y, z, p, q, lq, lp)) == rect_set(
            x,
            y,
            z,
            p,
            q,
            lp,
            lq + 1,
        ),
{
    let small = rect_set(x, y, z, p, q, lp, lq).union(row_set(x, y, z, p, q, lq, lp));
    let big = rect_set(x, y, z, p, q, lp, lq + 1);
    assert forall|cc: int| #[trigger] big.contains(cc) implies small.contains(cc) by {
        let (j, k) = choose|j: int, k: int|
            0 <= j < lp && 0 <= k < lq + 1 && cc == rect_cell(x, y, z, p, q, j, k);
        if k < lq {
            assert(cc == rect_cell(x, y, z, p, q, j, k));
            assert(rect_set(x, y, z, p, q, lp, lq).contains(cc));
        } else {
            assert(cc == rect_cell(x, y, z, p, q, j, lq));
            assert(row_set(x, y, z, p, q, lq, lp).contains(cc));
        }
    }
    assert forall|cc: int| #[trigger] small.contains(cc) implies big.contains(cc) by {
        if rect_set(x, y, z, p, q, lp, lq).contains(cc) {
            let (j, k) = choose|j: int, k: int|
                0 <= j < lp && 0 <= k < lq && cc == rect_cell(x, y, z, p, q, j, k);
            assert(cc == rect_cell(x, y, z, p, q, j, k));
            assert(big.contains(cc));
        } else {
            let j = choose|j: int| 0 <= j < lp && cc == rect_cell(x, y, z, p, q, j, lq);
            assert(cc == rect_cell(x, y, z, p, q, j, lq));
            assert(big.contains(cc));
        }
    }
    assert(small =~= big);
}

/// Packs one corner: three 6-bit position fields (each in `[0, 32]`) and a
/// 2-bit orientation tag per axis, with a placeholder texture layer.
fn pack_vertex(px: u32, py: u32, pz: u32, ox: u32, oy: u32, oz: u32) -> (r: PackedVertex)
    requires
        px <= 32,
        py <= 32,
        pz <= 32,
        ox <= 2,
        oy <= 2,
        oz <= 2,
    ensures
        0 <= r.xyz < 0x100_0000,
        (r.xyz as u32) & 0x3f == px,
        ((r.xyz as u32) >> 6) & 0x3f == py,
        ((r.xyz as u32) >> 12) & 0x3f == pz,
        ((r.xyz as u32) >> 18) & 0x3 == ox,
        ((r.xyz as u32) >> 20) & 0x3 == oy,
        ((r.xyz as u32) >> 22) & 0x3 == oz,
        r.uvz == 0,
{
    let v = px | (py << 6) | (pz << 12) | (ox << 18) | (oy << 20) | (oz << 22);
    proof {
        lemma_pack_fields(px, py, pz, ox, oy, oz);
    }
    PackedVertex { xyz: v as i32, uvz: 0 }
}

/// Bit-packing six bounded fields is lossless.
proof fn lemma_pack_fields(px: u32, py: u32, pz: u32, ox: u32, oy: u32, oz: u32)
    by (bit_vector)
    requires
        px <= 32,
        py <= 32,
        pz <= 32,
        ox <= 2,
        oy <= 2,
        oz <= 2,
    ensures
        px | (py << 6) | (pz << 12) | (ox << 18) | (oy << 20) | (oz << 22) < 0x100_0000,
        (px | (py << 6) | (pz << 12) | (ox << 18) | (oy << 20) | (oz << 22)) & 0x3f == px,
        ((px | (py << 6) | (pz << 12) | (ox << 18) | (oy << 20) | (oz << 22)) >> 6) & 0x3f == py,
        ((px | (py << 6) | (pz << 12) | (ox << 18) | (oy << 20) | (oz << 22)) >> 12) & 0x3f == pz,
        ((px | (py << 6) | (pz << 12) | (ox << 18) | (oy << 20) | (oz << 22)) >> 18) & 0x3 == ox,
        ((px | (py << 6) | (pz << 12) | (ox << 18) | (oy << 20) | (oz << 22)) >> 20) & 0x3 == oy,
        ((px | (py << 6) | (pz << 12) | (ox << 18) | (oy << 20) | (oz << 22)) >> 22) & 0x3 == oz,
        ((px | (py << 6) | (pz << 12) | (ox << 18) | (oy << 20) | (oz << 22)) as i32) as u32 == (px
            | (py << 6) | (pz << 12) | (ox << 18) | (oy << 20) | (oz << 22)),
        ((px | (py << 6) | (pz << 12) | (ox << 18) | (oy << 20) | (oz << 22)) as i32) >= 0,
{
}

/// The unit offsets of one corner of a face quad, in emission order.  The
/// offset along the face normal's axis is the same for all four corners:
/// one for a positive normal, zero for a negative one.
fn corner_offsets(dir: u8, corner: u8) -> (r: (usize, usize, usize))
    requires
        dir < 6,
        corner < 4,
    ensures
        r.0 <= 1,
        r.1 <= 1,
        r.2 <= 1,
        dir % 3 == 0 ==> r.0 == (if dir < 3 {
            1usize
        } else {
            0usize
        }),
        dir % 3 == 1 ==> r.1 == (if dir < 3 {
            1usize
        } else {
            0usize
        }),
        dir % 3 == 2 ==> r.2 == (if dir < 3 {
            1usize
        } else {
            0usize
        }),
{
    if dir == 0 {
        // East (+X)
        if corner == 0 {
            (1, 1, 1)
        } else if corner == 1 {
            (1, 0, 1)
        } else if corner == 2 {
            (1, 0, 0)
        } else {
            (1, 1, 0)
        }
    } else if dir == 1 {
        // Up (+Y)
        if corner == 0 {
            (0, 1, 1)
        } else if corner == 1 {
            (1, 1, 1)
        } else if corner == 2 {
            (1, 1, 0)
        } else {
            (0, 1, 0)
        }
    } else if dir == 2 {
        // North (+Z)
        if corner == 0 {
            (0, 1, 1)
        } else if corner == 1 {
            (0, 0, 1)
        } else if corner == 2 {
            (1, 0, 1)
        } else {
            (1, 1, 1)
        }
    } else if dir == 3 {
        // West (-X)
        if corner == 0 {
            (0, 1, 0)
        } else if corner == 1 {
            (0, 0, 0)
        } else if corner == 2 {
            (0, 0, 1)
        } else {
            (0, 1, 1)
        }
    } else if dir == 4 {
        // Down (-Y)
        if corner == 0 {
            (1, 0, 1)
        } else if corner == 1 {
            (0, 0, 1)
        } else if corner == 2 {
            (0, 0, 0)
        } else {
            (1, 0, 0)
        }
    } else {
        // South (-Z)
        if corner == 0 {
            (1, 1, 0)
        } else if corner == 1 {
            (1, 0, 0)
        } else if corner == 2 {
            (0, 0, 0)
        } else {
            (0, 1, 0)
        }
    }
}

/// Builds the packed corner `corner` of a quad anchored at `(x, y, z)` with
/// extents `len_p` and `len_q` along the perpendicular axes `p` and `q`.
fn make_corner(
    dir: u8,
    corner: u8,
    x: usize,
    y: usize,
    z: usize,
    p: usize,
    q: usize,
    len_p: usize,
    len_q: usize,
) -> (r: PackedVertex)
    requires
        dir < 6,
        corner < 4,
        p == ((dir as int % 3) + 1) % 3,
        q == ((dir as int % 3) + 2) % 3,
        x < CHUNK_SIZE,
        y < CHUNK_SIZE,
        z < CHUNK_SIZE,
        1 <= len_p,
        1 <= len_q,
        spec_axis_coord(x as int, y as int, z as int, p as int) + len_p <= 32,
        spec_axis_coord(x as int, y as int, z as int, q as int) + len_q <= 32,
    ensures
        r.uvz == 0,
        vert_coord(r, (dir as int) % 3) == spec_axis_coord(
            x as int,
            y as int,
            z as int,
            (dir as int) % 3,
        ) + (if dir < 3 {
            1int
        } else {
            0int
        }),
        vert_coord(r, p as int) == spec_axis_coord(x as int, y as int, z as int, p as int)
            || vert_coord(r, p as int) == spec_axis_coord(x as int, y as int, z as int, p as int)
            + len_p,
        vert_coord(r, q as int) == spec_axis_coord(x as int, y as int, z as int, q as int)
            || vert_coord(r, q as int) == spec_axis_coord(x as int, y as int, z as int, q as int)
            + len_q,
        vert_tag(r, (dir as int) % 3) == (if dir < 3 {
            2int
        } else {
            0int
        }),
        vert_tag(r, p as int) == 1,
        vert_tag(r, q as int) == 1,
{
    let a = (dir % 3) as usize;
    let (o0, o1, o2) = corner_offsets(dir, corner);
    let ext0: usize = if p == 0 {
        len_p
    } else if q == 0 {
        len_q
    } else {
        1
    };
    let ext1: usize = if p == 1 {
        len_p
    } else if q == 1 {
        len_q
    } else {
        1
    };
    let ext2: usize = if p == 2 {
        len_p
    } else if q == 2 {
        len_q
    } else {
        1
    };
    let cx = x + (if o0 == 1 {
        ext0
    } else {
        0
    });
    let cy = y + (if o1 == 1 {
        ext1
    } else {
        0
    });
    let cz = z + (if o2 == 1 {
        ext2
    } else {
        0
    });
    let oa: u32 = if dir < 3 {
        2
    } else {
        0
    };
    let t0: u32 = if a == 0 {
        oa
    } else {
        1
    };
    let t1: u32 = if a == 1 {
        oa
    } else {
        1
    };
    let t2: u32 = if a == 2 {
        oa
    } else {
        1
    };
    pack_vertex(cx as u32, cy as u32, cz as u32, t0, t1, t2)
}

/// Appends one quad: an index sextuple with the fixed winding, four packed
/// corner vertices, and the quad's ghost footprint.
#[verifier::rlimit(50)]
fn emit_quad(
    out: &mut PackedMesh,
    registry: &BlockRegistry,
    blocks: &Vec<Block>,
    faces: &Vec<DirectionSet>,
    neighbors: [Option<&Palette>; 6],
    dir: u8,
    x: usize,
    y: usize,
    z: usize,
    p: usize,
    q: usize,
    len_p: usize,
    len_q: usize,
    Ghost(fp): Ghost<QuadFootprint>,
)
    requires
        mesh_inv(blocks@, faces@, *old(out)),
        quads_visible(registry@, blocks@, neighbors, *old(out)),
        old(out).vertexes@.len() < MAX_QUADS,
        dir < 6,
        x < CHUNK_SIZE,
        y < CHUNK_SIZE,
        z < CHUNK_SIZE,
        p == ((dir as int % 3) + 1) % 3,
        q == ((dir as int % 3) + 2) % 3,
        1 <= len_p,
        1 <= len_q,
        spec_axis_coord(x as int, y as int, z as int, p as int) + len_p <= 32,
        spec_axis_coord(x as int, y as int, z as int, q as int) + len_q <= 32,
        fp.dir == dir,
        fp.block_id != 0,
        fp.x == x as int,
        fp.y == y as int,
        fp.z == z as int,
        fp.len_p == len_p as int,
        fp.len_q == len_q as int,
        fp.is_rectangle(),
        exists|c: int| fp.covers(c),
        forall|c: int|
            #[trigger] fp.covers(c) ==> 0 <= c < CHUNK_SIZE_CUBED && marked(faces@, c, dir)
                && blocks@[c].id == fp.block_id && face_visible_at(
                registry@,
                blocks@,
                neighbors@[dir as int],
                dir,
                c,
            ),
        forall|t: int|
            0 <= t < old(out).footprints@.len() ==> quads_disjoint(
                #[trigger] old(out).footprints@[t],
                fp,
            ),
    ensures
        mesh_inv(blocks@, faces@, *final(out)),
        quads_visible(registry@, blocks@, neighbors, *final(out)),
        final(out).vertexes@.len() == old(out).vertexes@.len() + 1,
        final(out).footprints@ == old(out).footprints@.push(fp),
{
    let t = out.vertexes.len();
    let base = (t * 4) as u32;
    out.indexes.push(
        QuadIndexes::new([base, base + 1, base + 3, base + 1, base + 2, base + 3]),
    );
    let v0 = make_corner(dir, 0, x, y, z, p, q, len_p, len_q);
    let v1 = make_corner(dir, 1, x, y, z, p, q, len_p, len_q);
    let v2 = make_corner(dir, 2, x, y, z, p, q, len_p, len_q);
    let v3 = make_corner(dir, 3, x, y, z, p, q, len_p, len_q);
    out.vertexes.push(QuadVertexes::new([v0, v1, v2, v3]));
    out.footprints = Ghost(out.footprints@.push(fp));
    proof {
        assert(sextuple_ok(out.indexes@[t as int]@, t as int));
        assert forall|t2: int| 0 <= t2 < out.indexes@.len() implies sextuple_ok(
            #[trigger] out.indexes@[t2]@,
            t2,
        ) by {
            if t2 < t {
                assert(out.indexes@[t2] == old(out).indexes@[t2]);
            }
        }
        assert forall|t1: int, t2: int|
            0 <= t1 < t2 < out.footprints@.len() implies quads_disjoint(
            #[trigger] out.footprints@[t1],
            #[trigger] out.footprints@[t2],
        ) by {
            if t2 < out.footprints@.len() - 1 {
                assert(quads_disjoint(old(out).footprints@[t1], old(out).footprints@[t2]));
            } else {
                assert(out.footprints@[t2] == fp);
                assert(quads_disjoint(old(out).footprints@[t1], fp));
            }
        }
        assert forall|t2: int, c: int|
            0 <= t2 < out.footprints@.len() && (#[trigger] out.footprints@[t2].covers(c)) implies 0
            <= c < CHUNK_SIZE_CUBED && marked(faces@, c, out.footprints@[t2].dir) && blocks@[c].id
            == out.footprints@[t2].block_id by {
            if t2 < out.footprints@.len() - 1 {
                assert(out.footprints@[t2] == old(out).footprints@[t2]);
            } else {
                assert(out.footprints@[t2] == fp);
            }
        }
        let vs = out.vertexes@[t as int]@;
        assert(vs[0] == v0 && vs[1] == v1 && vs[2] == v2 && vs[3] == v3);
        assert(fp.axis() == (dir as int) % 3);
        assert(fp.axis_p() == p as int);
        assert(fp.axis_q() == q as int);
        assert(fp.geometry_wf());
        assert(quad_shape_ok(vs, fp)) by {
            assert forall|c: int|
                0 <= c < 4 implies {
                let v = #[trigger] vs[c];
                &&& v.uvz == 0
                &&& vert_coord(v, fp.axis()) == spec_axis_coord(fp.x, fp.y, fp.z, fp.axis()) + (
                if fp.dir < 3 {
                    1int
                } else {
                    0int
                })
                &&& (vert_coord(v, fp.axis_p()) == spec_axis_coord(fp.x, fp.y, fp.z, fp.axis_p())
                    || vert_coord(v, fp.axis_p()) == spec_axis_coord(fp.x, fp.y, fp.z, fp.axis_p())
                    + fp.len_p)
                &&& (vert_coord(v, fp.axis_q()) == spec_axis_coord(fp.x, fp.y, fp.z, fp.axis_q())
                    || vert_coord(v, fp.axis_q()) == spec_axis_coord(fp.x, fp.y, fp.z, fp.axis_q())
                    + fp.len_q)
                &&& vert_tag(v, fp.axis()) == (if fp.dir < 3 {
                    2int
                } else {
                    0int
                })
                &&& vert_tag(v, fp.axis_p()) == 1
                &&& vert_tag(v, fp.axis_q()) == 1
            } by {
                if c == 0 {
                    assert(vs[c] == v0);
                } else if c == 1 {
                    assert(vs[c] == v1);
                } else if c == 2 {
                    assert(vs[c] == v2);
                } else {
                    assert(vs[c] == v3);
                }
            }
        }
        assert forall|t2: int| 0 <= t2 < out.footprints@.len() implies (
        #[trigger] out.footprints@[t2]).geometry_wf() && out.footprints@[t2].block_id != 0 && (
        exists|c: int| out.footprints@[t2].covers(c)) && out.footprints@[t2].is_rectangle()
            && quad_shape_ok(out.vertexes@[t2]@, out.footprints@[t2]) by {
            if t2 < out.footprints@.len() - 1 {
                assert(out.footprints@[t2] == old(out).footprints@[t2]);
                assert(out.vertexes@[t2] == old(out).vertexes@[t2]);
            } else {
                assert(out.footprints@[t2] == fp);
            }
        }
        assert(mesh_inv(blocks@, faces@, *out));
        assert forall|t2: int, c: int|
            0 <= t2 < out.footprints@.len() && (#[trigger] out.footprints@[t2].covers(
                c,
            )) implies face_visible_at(
            registry@,
            blocks@,
            neighbors@[out.footprints@[t2].dir as int],
            out.footprints@[t2].dir,
            c,
        ) by {
            if t2 < out.footprints@.len() - 1 {
                assert(out.footprints@[t2] == old(out).footprints@[t2]);
            } else {
                assert(out.footprints@[t2] == fp);
            }
        }
        assert(quads_visible(registry@, blocks@, neighbors, *out));
    }
}

/// Marks the face of the facing cell at `(fx, fy, fz)` that looks back at
/// the opaque cell at `(cx, cy, cz)`.  Both cells are opaque, so the
/// marked face is itself hidden, and the mark stays justified.
#[verifier::rlimit(60)]
fn cull_opposite_face(
    registry: &BlockRegistry,
    blocks: &Vec<Block>,
    faces: &mut Vec<DirectionSet>,
    neighbors: [Option<&Palette>; 6],
    dir: u8,
    block_id: u16,
    cx: usize,
    cy: usize,
    cz: usize,
    fx: usize,
    fy: usize,
    fz: usize,
)
    requires
        blocks@.len() == CHUNK_SIZE_CUBED,
        old(faces)@.len() == CHUNK_SIZE_CUBED,
        dir < 6,
        cx < CHUNK_SIZE,
        cy < CHUNK_SIZE,
        cz < CHUNK_SIZE,
        fx < CHUNK_SIZE,
        fy < CHUNK_SIZE,
        fz < CHUNK_SIZE,
        fx as int == cx + (if (dir as int) % 3 == 0 {
            if dir < 3 {
                1int
            } else {
                -1int
            }
        } else {
            0int
        }),
        fy as int == cy + (if (dir as int) % 3 == 1 {
            if dir < 3 {
                1int
            } else {
                -1int
            }
        } else {
            0int
        }),
        fz as int == cz + (if (dir as int) % 3 == 2 {
            if dir < 3 {
                1int
            } else {
                -1int
            }
        } else {
            0int
        }),
        blocks@[spec_cell_index(cx as int, cy as int, cz as int)].id == block_id,
        !spec_transparent(registry@, block_id),
        !spec_transparent(
            registry@,
            blocks@[spec_cell_index(fx as int, fy as int, fz as int)].id,
        ),
    ensures
        final(faces)@.len() == CHUNK_SIZE_CUBED,
        forall|c2: int, d2: u8|
            0 <= c2 < CHUNK_SIZE_CUBED && d2 < 8 && #[trigger] marked(old(faces)@, c2, d2)
                ==> marked(final(faces)@, c2, d2),
        forall|c2: int|
            0 <= c2 < CHUNK_SIZE_CUBED ==> #[trigger] marked(final(faces)@, c2, dir) == marked(
                old(faces)@,
                c2,
                dir,
            ),
        forall|c2: int, d2: u8|
            0 <= c2 < CHUNK_SIZE_CUBED && d2 < 6 && #[trigger] marked(final(faces)@, c2, d2)
                && !marked(old(faces)@, c2, d2) ==> !face_visible_at(
                registry@,
                blocks@,
                neighbors@[d2 as int],
                d2,
                c2,
            ),
{
    let od = opposite_direction(dir);
    let faced_idx = cell_index(fx, fy, fz);
    proof {
        assert(od != dir);
        lemma_cell_index_inverse(cx as int, cy as int, cz as int);
        lemma_cell_index_inverse(fx as int, fy as int, fz as int);
        assert(!spec_on_boundary(od, fx as int, fy as int, fz as int));
        assert(spec_cell_index(fx as int, fy as int, fz as int) + (if od < 3 {
            spec_axis_step((od as int) % 3)
        } else {
            -spec_axis_step((od as int) % 3)
        }) == spec_cell_index(cx as int, cy as int, cz as int));
        assert(!face_visible_at(
            registry@,
            blocks@,
            neighbors@[od as int],
            od,
            faced_idx as int,
        ));
    }
    mark_face(faces, faced_idx, od);
}

/// Does the registry mark this identity as see-through?
pub open spec fn spec_transparent(reg: Seq<BlockDefinition>, id: u16) -> bool {
    reg[id as int].spec_attribs().bits & ATTR_TRANSPARENT == ATTR_TRANSPARENT
}

/// Whether face `dir` of the cell at `(cx, cy, cz)` stays on the chunk
/// border along the face normal.
pub open spec fn spec_on_boundary(dir: u8, cx: int, cy: int, cz: int) -> bool {
    if dir < 3 {
        spec_axis_coord(cx, cy, cz, (dir as int) % 3) == 31
    } else {
        spec_axis_coord(cx, cy, cz, (dir as int) % 3) == 0
    }
}

/// The culling rule for one face of a cell carrying `block_id`.
///
/// A transparent cell's face is hidden exactly against a facing cell of
/// the same label; an opaque cell's face is visible exactly against a
/// see-through facing cell.  Inside the chunk the facing cell is the next
/// cell along the normal; on the border it is the wrapped-around cell of
/// the bordering chunk when one is supplied, and a missing bordering chunk
/// leaves the face visible.
pub open spec fn spec_face_visible(
    reg: Seq<BlockDefinition>,
    blocks: Seq<Block>,
    neighbor: Option<&Palette>,
    dir: u8,
    block_id: u16,
    is_transparent: bool,
    cx: int,
    cy: int,
    cz: int,
) -> bool {
    let a = (dir as int) % 3;
    if spec_on_boundary(dir, cx, cy, cz) {
        match neighbor {
            None => true,
            Some(np) => {
                let w = if dir < 3 {
                    0int
                } else {
                    31int
                };
                let faced = np@[spec_cell_index(
                    if a == 0 {
                        w
                    } else {
                        cx
                    },
                    if a == 1 {
                        w
                    } else {
                        cy
                    },
                    if a == 2 {
                        w
                    } else {
                        cz
                    },
                )];
                if is_transparent {
                    faced.id != block_id
                } else {
                    spec_transparent(reg, faced.id)
                }
            },
        }
    } else {
        let step = if dir < 3 {
            spec_axis_step(a)
        } else {
            -spec_axis_step(a)
        };
        let faced = blocks[spec_cell_index(cx, cy, cz) + step];
        if is_transparent {
            faced.id != block_id
        } else {
            spec_transparent(reg, faced.id)
        }
    }
}

/// Whether face `d` of the cell with linear index `c` is visible, judged
/// from that cell's own label and transparency.
pub open spec fn face_visible_at(
    reg: Seq<BlockDefinition>,
    blocks: Seq<Block>,
    neighbor: Option<&Palette>,
    d: u8,
    c: int,
) -> bool {
    spec_face_visible(
        reg,
        blocks,
        neighbor,
        d,
        blocks[c].id,
        spec_transparent(reg, blocks[c].id),
        spec_cell_x(c),
        spec_cell_y(c),
        spec_cell_z(c),
    )
}

/// Every cell face covered by an emitted quad is a visible face.
pub open spec fn quads_visible(
    reg: Seq<BlockDefinition>,
    blocks: Seq<Block>,
    neighbors: [Option<&Palette>; 6],
    m: PackedMesh,
) -> bool {
    forall|t: int, c: int|
        0 <= t < m.footprints@.len() && (#[trigger] m.footprints@[t].covers(c))
            ==> face_visible_at(
            reg,
            blocks,
            neighbors@[m.footprints@[t].dir as int],
            m.footprints@[t].dir,
            c,
        )
}

/// Every covered mark is accounted for: it lies inside some emitted quad
/// of its direction, or the face it marks is hidden anyway.
pub open spec fn marks_justified(
    reg: Seq<BlockDefinition>,
    blocks: Seq<Block>,
    neighbors: [Option<&Palette>; 6],
    faces: Seq<DirectionSet>,
    m: PackedMesh,
) -> bool {
    forall|c: int, d: u8|
        0 <= c < CHUNK_SIZE_CUBED && d < 6 && #[trigger] marked(faces, c, d) ==> (exists|t: int|
            0 <= t < m.footprints@.len() && m.footprints@[t].dir == d
                && m.footprints@[t].covers(c)) || !face_visible_at(
            reg,
            blocks,
            neighbors@[d as int],
            d,
            c,
        )
}

/// A face the pass is done with: either covered, or hidden anyway.
pub open spec fn face_settled(
    reg: Seq<BlockDefinition>,
    blocks: Seq<Block>,
    neighbors: [Option<&Palette>; 6],
    faces: Seq<DirectionSet>,
    c: int,
    d: u8,
) -> bool {
    marked(faces, c, d) || !face_visible_at(reg, blocks, neighbors@[d as int], d, c)
}

/// Decides whether face `dir` of the cell at `(cx, cy, cz)` is visible,
/// per `spec_face_visible`.
///
/// When an opaque face is hidden by an opaque in-chunk facing cell, the
/// facing cell's opposite face is marked covered too, since an
/// opaque/opaque boundary hides both sides; that face is itself hidden.  A
/// visible outcome changes no coverage at all, and no outcome changes
/// coverage in the face's own direction.
#[verifier::rlimit(100)]
fn face_test(
    registry: &BlockRegistry,
    blocks: &Vec<Block>,
    faces: &mut Vec<DirectionSet>,
    neighbors: [Option<&Palette>; 6],
    dir: u8,
    block_id: u16,
    is_transparent: bool,
    cx: usize,
    cy: usize,
    cz: usize,
) -> (visible: bool)
    requires
        blocks@.len() == CHUNK_SIZE_CUBED,
        old(faces)@.len() == CHUNK_SIZE_CUBED,
        ids_registered(blocks@, registry@),
        forall|d: int| 0 <= d < 6 ==> neighbor_ok(#[trigger] neighbors@[d], registry@),
        dir < 6,
        cx < CHUNK_SIZE,
        cy < CHUNK_SIZE,
        cz < CHUNK_SIZE,
        blocks@[spec_cell_index(cx as int, cy as int, cz as int)].id == block_id,
        is_transparent == spec_transparent(registry@, block_id),
    ensures
        final(faces)@.len() == CHUNK_SIZE_CUBED,
        forall|c2: int, d2: u8|
            0 <= c2 < CHUNK_SIZE_CUBED && d2 < 6 && #[trigger] marked(final(faces)@, c2, d2)
                && !marked(old(faces)@, c2, d2) ==> !face_visible_at(
                registry@,
                blocks@,
                neighbors@[d2 as int],
                d2,
                c2,
            ),
        visible == spec_face_visible(
            registry@,
            blocks@,
            neighbors@[dir as int],
            dir,
            block_id,
            is_transparent,
            cx as int,
            cy as int,
            cz as int,
        ),
        visible ==> final(faces)@ == old(faces)@,
        forall|c2: int, d2: u8|
            0 <= c2 < CHUNK_SIZE_CUBED && d2 < 8 && #[trigger] marked(old(faces)@, c2, d2)
                ==> marked(final(faces)@, c2, d2),
        forall|c2: int|
            0 <= c2 < CHUNK_SIZE_CUBED ==> #[trigger] marked(final(faces)@, c2, dir) == marked(
                old(faces)@,
                c2,
                dir,
            ),
{
    let a = (dir % 3) as usize;
    let coord_a = axis_coord(cx, cy, cz, a);
    let facing_neighbor = if dir < 3 {
        coord_a == CHUNK_SIZE - 1
    } else {
        coord_a == 0
    };
    if facing_neighbor {
        match neighbors[dir as usize] {
            None => true,
            Some(np) => {
                let delta: i32 = if dir < 3 {
                    1
                } else {
                    -1
                };
                let wrapped = wrap(coord_a as i32, delta, 0, 31) as usize;
                let (nx, ny, nz) = if a == 0 {
                    (wrapped, cy, cz)
                } else if a == 1 {
                    (cx, wrapped, cz)
                } else {
                    (cx, cy, wrapped)
                };
                let n_idx = cell_index(nx, ny, nz);
                let faced = *np.get(n_idx);
                proof {
                    crate::palette::lemma_view_values(np);
                    assert((np.code_at(n_idx as int) as int) < np.lookup_seq().len());
                    assert(faced == np.lookup_seq()[np.code_at(n_idx as int) as int]);
                    assert((faced.id as int) < registry@.len());
                    assert(wrapped as int == (if dir < 3 {
                        0int
                    } else {
                        31int
                    })) by {
                        if dir < 3 {
                            assert(coord_a == 31);
                            assert((31int + 1 - 0) % 32int == 0int);
                        } else {
                            assert(coord_a == 0);
                            assert((0int - 1 - 0) % 32int == 31int);
                        }
                    }
                    assert(faced == np@[n_idx as int]);
                }
                if is_transparent {
                    faced.id != block_id
                } else {
                    registry.get_block_attributes(faced.id).contains(
                        Attributes::from_bits(ATTR_TRANSPARENT),
                    )
                }
            },
        }
    } else {
        let (fx, fy, fz) = if dir < 3 {
            offset_coords(cx, cy, cz, a, 1)
        } else {
            if a == 0 {
                (cx - 1, cy, cz)
            } else if a == 1 {
                (cx, cy - 1, cz)
            } else {
                (cx, cy, cz - 1)
            }
        };
        let faced_idx = cell_index(fx, fy, fz);
        proof {
            if dir < 3 {
                assert(faced_idx as int == spec_cell_index(cx as int, cy as int, cz as int)
                    + spec_axis_step(a as int));
            } else {
                if a == 0 {
                    assert(faced_idx as int == spec_cell_index(cx as int, cy as int, cz as int)
                        - spec_axis_step(a as int));
                } else if a == 1 {
                    assert(faced_idx as int == spec_cell_index(cx as int, cy as int, cz as int)
                        - spec_axis_step(a as int));
                } else {
                    assert(faced_idx as int == spec_cell_index(cx as int, cy as int, cz as int)
                        - spec_axis_step(a as int));
                }
            }
        }
        let faced_id = blocks[faced_idx].id;
        if is_transparent {
            faced_id != block_id
        } else {
            let faced_transparent = registry.get_block_attributes(faced_id).contains(
                Attributes::from_bits(ATTR_TRANSPARENT),
            );
            if !faced_transparent {
                cull_opposite_face(
                    registry,
                    blocks,
                    faces,
                    neighbors,
                    dir,
                    block_id,
                    cx,
                    cy,
                    cz,
                    fx,
                    fy,
                    fz,
                );
                false
            } else {
                true
            }
        }
    }
}

/// A candidate cell for the quad under construction: in range, carrying the
/// quad's label, and not yet covered in the quad's direction.
pub open spec fn fresh_cell(
    c: int,
    blocks: Seq<Block>,
    entry: Seq<DirectionSet>,
    cells: Set<int>,
    block_id: u16,
    dir: u8,
) -> bool {
    &&& 0 <= c < CHUNK_SIZE_CUBED
    &&& blocks[c].id == block_id
    &&& !marked(entry, c, dir)
    &&& !cells.contains(c)
}

/// A mesh invariant stated against fewer marks still holds once more faces
/// are marked covered.
proof fn lemma_inv_monotone(
    blocks: Seq<Block>,
    f1: Seq<DirectionSet>,
    f2: Seq<DirectionSet>,
    m: PackedMesh,
)
    requires
        mesh_inv(blocks, f1, m),
        f2.len() == f1.len(),
        forall|c2: int, d2: u8|
            0 <= c2 < f1.len() && d2 < 8 && #[trigger] marked(f1, c2, d2) ==> marked(f2, c2, d2),
    ensures
        mesh_inv(blocks, f2, m),
{
    assert forall|t: int, c: int|
        0 <= t < m.footprints@.len() && (#[trigger] m.footprints@[t].covers(c)) implies 0 <= c
        < CHUNK_SIZE_CUBED && marked(f2, c, m.footprints@[t].dir) && blocks[c].id
        == m.footprints@[t].block_id by {
        assert(marked(f1, c, m.footprints@[t].dir));
    }
}

/// Handles one visible-face candidate: grows the largest same-label,
/// uncovered, visible rectangle that starts at `(x, y, z)` and faces `dir`,
/// marks every covered cell, and emits one quad for it; emits nothing when
/// the cell's own face is already covered or hidden.
#[verifier::rlimit(100)]
fn process_face(
    registry: &BlockRegistry,
    blocks: &Vec<Block>,
    faces: &mut Vec<DirectionSet>,
    neighbors: [Option<&Palette>; 6],
    out: &mut PackedMesh,
    x: usize,
    y: usize,
    z: usize,
    dir: u8,
    block_id: u16,
    is_transparent: bool,
)
    requires
        mesh_inv(blocks@, old(faces)@, *old(out)),
        quads_visible(registry@, blocks@, neighbors, *old(out)),
        marks_justified(registry@, blocks@, neighbors, old(faces)@, *old(out)),
        old(out).vertexes@.len() < MAX_QUADS,
        ids_registered(blocks@, registry@),
        forall|d: int| 0 <= d < 6 ==> neighbor_ok(#[trigger] neighbors@[d], registry@),
        dir < 6,
        x < CHUNK_SIZE,
        y < CHUNK_SIZE,
        z < CHUNK_SIZE,
        block_id == blocks@[spec_cell_index(x as int, y as int, z as int)].id,
        block_id != 0,
        is_transparent == spec_transparent(registry@, block_id),
    ensures
        mesh_inv(blocks@, final(faces)@, *final(out)),
        quads_visible(registry@, blocks@, neighbors, *final(out)),
        marks_justified(registry@, blocks@, neighbors, final(faces)@, *final(out)),
        final(out).vertexes@.len() <= old(out).vertexes@.len() + 1,
        forall|c2: int, d2: u8|
            0 <= c2 < CHUNK_SIZE_CUBED && d2 < 8 && #[trigger] marked(old(faces)@, c2, d2)
                ==> marked(final(faces)@, c2, d2),
        marked(final(faces)@, spec_cell_index(x as int, y as int, z as int), dir)
            || !face_visible_at(
            registry@,
            blocks@,
            neighbors@[dir as int],
            dir,
            spec_cell_index(x as int, y as int, z as int),
        ),
{
    let a = (dir % 3) as usize;
    let p = (a + 1) % 3;
    let q = (a + 2) % 3;
    let coord_p = axis_coord(x, y, z, p);
    let coord_q = axis_coord(x, y, z, q);
    let ghost entry_faces = faces@;
    let ghost mut cells: Set<int> = Set::empty();
    let mut len_p: usize = 0;
    let mut stop: bool = false;
    proof {
        assert(cells =~= rect_set(x as int, y as int, z as int, p as int, q as int, 0, 1));
    }
    while !stop && coord_p + len_p < CHUNK_SIZE
        invariant
            blocks@.len() == CHUNK_SIZE_CUBED,
            faces@.len() == CHUNK_SIZE_CUBED,
            entry_faces.len() == CHUNK_SIZE_CUBED,
            ids_registered(blocks@, registry@),
            forall|d: int| 0 <= d < 6 ==> neighbor_ok(#[trigger] neighbors@[d], registry@),
            dir < 6,
            block_id != 0,
            x < CHUNK_SIZE,
            y < CHUNK_SIZE,
            z < CHUNK_SIZE,
            p == ((dir as int % 3) + 1) % 3,
            q == ((dir as int % 3) + 2) % 3,
            coord_p == spec_axis_coord(x as int, y as int, z as int, p as int),
            coord_p + len_p <= CHUNK_SIZE,
            block_id == blocks@[spec_cell_index(x as int, y as int, z as int)].id,
            is_transparent == spec_transparent(registry@, block_id),
            *out == *old(out),
            mesh_inv(blocks@, entry_faces, *old(out)),
            old(out).vertexes@.len() < MAX_QUADS,
            forall|c2: int, d2: u8|
                0 <= c2 < CHUNK_SIZE_CUBED && d2 < 8 && #[trigger] marked(entry_faces, c2, d2)
                    ==> marked(faces@, c2, d2),
            forall|c2: int|
                0 <= c2 < CHUNK_SIZE_CUBED ==> #[trigger] marked(faces@, c2, dir) == (marked(
                    entry_faces,
                    c2,
                    dir,
                ) || cells.contains(c2)),
            forall|c2: int, d2: u8|
                0 <= c2 < CHUNK_SIZE_CUBED && d2 < 6 && #[trigger] marked(faces@, c2, d2) ==> (exists|
                    t: int,
                |
                    0 <= t < old(out).footprints@.len() && old(out).footprints@[t].dir == d2
                        && old(out).footprints@[t].covers(c2)) || !face_visible_at(
                    registry@,
                    blocks@,
                    neighbors@[d2 as int],
                    d2,
                    c2,
                ) || (d2 == dir && cells.contains(c2)),
            forall|c: int|
                #[trigger] cells.contains(c) ==> 0 <= c < CHUNK_SIZE_CUBED && blocks@[c].id
                    == block_id && !marked(entry_faces, c, dir) && face_visible_at(
                    registry@,
                    blocks@,
                    neighbors@[dir as int],
                    dir,
                    c,
                ),
            len_p >= 1 ==> cells.contains(spec_cell_index(x as int, y as int, z as int)),
            cells == rect_set(x as int, y as int, z as int, p as int, q as int, len_p as int, 1),
            stop && len_p == 0 ==> marked(
                faces@,
                spec_cell_index(x as int, y as int, z as int),
                dir,
            ) || !face_visible_at(
                registry@,
                blocks@,
                neighbors@[dir as int],
                dir,
                spec_cell_index(x as int, y as int, z as int),
            ),
        decreases 32 - len_p, (if stop {
            0int
        } else {
            1int
        }),
    {
        let (cx, cy, cz) = offset_coords(x, y, z, p, len_p);
        let c = cell_index(cx, cy, cz);
        let already = faces[c].contains(dir);
        if already {
            stop = true;
        } else if blocks[c].id != block_id {
            proof {
                if len_p == 0 {
                    assert(c == spec_cell_index(x as int, y as int, z as int));
                    assert(false);
                }
            }
            stop = true;
        } else {
            let vis = face_test(
                registry,
                blocks,
                faces,
                neighbors,
                dir,
                block_id,
                is_transparent,
                cx,
                cy,
                cz,
            );
            if !vis {
                proof {
                    if len_p == 0 {
                        lemma_cell_index_inverse(cx as int, cy as int, cz as int);
                        assert(!face_visible_at(
                            registry@,
                            blocks@,
                            neighbors@[dir as int],
                            dir,
                            c as int,
                        ));
                        assert(c == spec_cell_index(x as int, y as int, z as int));
                    }
                }
                stop = true;
            } else {
                mark_face(faces, c, dir);
                proof {
                    let prev = cells;
                    lemma_cell_index_inverse(cx as int, cy as int, cz as int);
                    assert(face_visible_at(
                        registry@,
                        blocks@,
                        neighbors@[dir as int],
                        dir,
                        c as int,
                    ));
                    assert(c == rect_cell(
                        x as int,
                        y as int,
                        z as int,
                        p as int,
                        q as int,
                        len_p as int,
                        0,
                    ));
                    lemma_rect_set_grow_p(
                        x as int,
                        y as int,
                        z as int,
                        p as int,
                        q as int,
                        len_p as int,
                        prev,
                        c as int,
                    );
                    cells = cells.insert(c as int);
                }
                len_p = len_p + 1;
            }
        }
    }
    if len_p == 0 {
        proof {
            lemma_inv_monotone(blocks@, entry_faces, faces@, *out);
            lemma_rect_set_empty(x as int, y as int, z as int, p as int, q as int);
            assert(marks_justified(registry@, blocks@, neighbors, faces@, *out));
        }
        return ;
    }
    let mut len_q: usize = 1;
    let mut stop2: bool = false;
    while !stop2 && coord_q + len_q < CHUNK_SIZE
        invariant
            blocks@.len() == CHUNK_SIZE_CUBED,
            faces@.len() == CHUNK_SIZE_CUBED,
            entry_faces.len() == CHUNK_SIZE_CUBED,
            ids_registered(blocks@, registry@),
            forall|d: int| 0 <= d < 6 ==> neighbor_ok(#[trigger] neighbors@[d], registry@),
            dir < 6,
            block_id != 0,
            x < CHUNK_SIZE,
            y < CHUNK_SIZE,
            z < CHUNK_SIZE,
            p == ((dir as int % 3) + 1) % 3,
            q == ((dir as int % 3) + 2) % 3,
            coord_p == spec_axis_coord(x as int, y as int, z as int, p as int),
            coord_q == spec_axis_coord(x as int, y as int, z as int, q as int),
            1 <= len_p,
            coord_p + len_p <= CHUNK_SIZE,
            1 <= len_q,
            coord_q + len_q <= CHUNK_SIZE,
            block_id == blocks@[spec_cell_index(x as int, y as int, z as int)].id,
            is_transparent == spec_transparent(registry@, block_id),
            *out == *old(out),
            mesh_inv(blocks@, entry_faces, *old(out)),
            old(out).vertexes@.len() < MAX_QUADS,
            forall|c2: int, d2: u8|
                0 <= c2 < CHUNK_SIZE_CUBED && d2 < 8 && #[trigger] marked(entry_faces, c2, d2)
                    ==> marked(faces@, c2, d2),
            forall|c2: int|
                0 <= c2 < CHUNK_SIZE_CUBED ==> #[trigger] marked(faces@, c2, dir) == (marked(
                    entry_faces,
                    c2,
                    dir,
                ) || cells.contains(c2)),
            forall|c2: int, d2: u8|
                0 <= c2 < CHUNK_SIZE_CUBED && d2 < 6 && #[trigger] marked(faces@, c2, d2) ==> (exists|
                    t: int,
                |
                    0 <= t < old(out).footprints@.len() && old(out).footprints@[t].dir == d2
                        && old(out).footprints@[t].covers(c2)) || !face_visible_at(
                    registry@,
                    blocks@,
                    neighbors@[d2 as int],
                    d2,
                    c2,
                ) || (d2 == dir && cells.contains(c2)),
            forall|c: int|
                #[trigger] cells.contains(c) ==> 0 <= c < CHUNK_SIZE_CUBED && blocks@[c].id
                    == block_id && !marked(entry_faces, c, dir) && face_visible_at(
                    registry@,
                    blocks@,
                    neighbors@[dir as int],
                    dir,
                    c,
                ),
            cells.contains(spec_cell_index(x as int, y as int, z as int)),
            cells == rect_set(
                x as int,
                y as int,
                z as int,
                p as int,
                q as int,
                len_p as int,
                len_q as int,
            ),
        decreases 32 - len_q, (if stop2 {
            0int
        } else {
            1int
        }),
    {
        let (tx, ty, tz) = offset_coords(x, y, z, q, len_q);
        let mut j: usize = 0;
        let mut row_ok: bool = true;
        while row_ok && j < len_p
            invariant
                blocks@.len() == CHUNK_SIZE_CUBED,
                faces@.len() == CHUNK_SIZE_CUBED,
                entry_faces.len() == CHUNK_SIZE_CUBED,
                ids_registered(blocks@, registry@),
                forall|d: int| 0 <= d < 6 ==> neighbor_ok(#[trigger] neighbors@[d], registry@),
                dir < 6,
                block_id != 0,
                x < CHUNK_SIZE,
                y < CHUNK_SIZE,
                z < CHUNK_SIZE,
                p == ((dir as int % 3) + 1) % 3,
                q == ((dir as int % 3) + 2) % 3,
                coord_p == spec_axis_coord(x as int, y as int, z as int, p as int),
                coord_q == spec_axis_coord(x as int, y as int, z as int, q as int),
                1 <= len_p,
                coord_p + len_p <= CHUNK_SIZE,
                1 <= len_q,
                coord_q + len_q < CHUNK_SIZE,
                j <= len_p,
                tx < CHUNK_SIZE,
                ty < CHUNK_SIZE,
                tz < CHUNK_SIZE,
                tx as int == x + (if q == 0 {
                    len_q as int
                } else {
                    0int
                }),
                ty as int == y + (if q == 1 {
                    len_q as int
                } else {
                    0int
                }),
                tz as int == z + (if q == 2 {
                    len_q as int
                } else {
                    0int
                }),
                spec_axis_coord(tx as int, ty as int, tz as int, p as int) == coord_p,
                spec_axis_coord(tx as int, ty as int, tz as int, q as int) == coord_q + len_q,
                spec_axis_coord(tx as int, ty as int, tz as int, (dir as int) % 3)
                    == spec_axis_coord(x as int, y as int, z as int, (dir as int) % 3),
                block_id == blocks@[spec_cell_index(x as int, y as int, z as int)].id,
                is_transparent == spec_transparent(registry@, block_id),
                *out == *old(out),
                mesh_inv(blocks@, entry_faces, *old(out)),
                old(out).vertexes@.len() < MAX_QUADS,
                forall|c2: int, d2: u8|
                    0 <= c2 < CHUNK_SIZE_CUBED && d2 < 8 && #[trigger] marked(entry_faces, c2, d2)
                        ==> marked(faces@, c2, d2),
                forall|c2: int|
                    0 <= c2 < CHUNK_SIZE_CUBED ==> #[trigger] marked(faces@, c2, dir) == (marked(
                        entry_faces,
                        c2,
                        dir,
                    ) || cells.contains(c2)),
                forall|c2: int, d2: u8|
                    0 <= c2 < CHUNK_SIZE_CUBED && d2 < 6 && #[trigger] marked(faces@, c2, d2) ==> (exists|
                        t: int,
                    |
                        0 <= t < old(out).footprints@.len() && old(out).footprints@[t].dir == d2
                            && old(out).footprints@[t].covers(c2)) || !face_visible_at(
                        registry@,
                        blocks@,
                        neighbors@[d2 as int],
                        d2,
                        c2,
                    ) || (d2 == dir && cells.contains(c2)),
                forall|c: int|
                    #[trigger] cells.contains(c) ==> 0 <= c < CHUNK_SIZE_CUBED && blocks@[c].id
                        == block_id && !marked(entry_faces, c, dir) && face_visible_at(
                        registry@,
                        blocks@,
                        neighbors@[dir as int],
                        dir,
                        c,
                    ),
                cells.contains(spec_cell_index(x as int, y as int, z as int)),
                cells == rect_set(
                    x as int,
                    y as int,
                    z as int,
                    p as int,
                    q as int,
                    len_p as int,
                    len_q as int,
                ),
                row_ok ==> forall|j2: int|
                    0 <= j2 < j ==> fresh_cell(
                        #[trigger] rect_cell(
                            x as int,
                            y as int,
                            z as int,
                            p as int,
                            q as int,
                            j2,
                            len_q as int,
                        ),
                        blocks@,
                        entry_faces,
                        cells,
                        block_id,
                        dir,
                    ) && face_visible_at(
                        registry@,
                        blocks@,
                        neighbors@[dir as int],
                        dir,
                        rect_cell(x as int, y as int, z as int, p as int, q as int, j2, len_q as int),
                    ),
            decreases len_p - j, (if row_ok {
                1int
            } else {
                0int
            }),
        {
            let (rx, ry, rz) = offset_coords(tx, ty, tz, p, j);
            let rc = cell_index(rx, ry, rz);
            proof {
                assert(rc == rect_cell(
                    x as int,
                    y as int,
                    z as int,
                    p as int,
                    q as int,
                    j as int,
                    len_q as int,
                ));
            }
            let already = faces[rc].contains(dir);
            if already {
                row_ok = false;
            } else if blocks[rc].id != block_id {
                row_ok = false;
            } else {
                let vis = face_test(
                    registry,
                    blocks,
                    faces,
                    neighbors,
                    dir,
                    block_id,
                    is_transparent,
                    rx,
                    ry,
                    rz,
                );
                if !vis {
                    row_ok = false;
                } else {
                    proof {
                        assert(!marked(faces@, rc as int, dir));
                        assert(!marked(entry_faces, rc as int, dir));
                        assert(!cells.contains(rc as int));
                        assert(fresh_cell(
                            rc as int,
                            blocks@,
                            entry_faces,
                            cells,
                            block_id,
                            dir,
                        ));
                        lemma_cell_index_inverse(rx as int, ry as int, rz as int);
                        assert(face_visible_at(
                            registry@,
                            blocks@,
                            neighbors@[dir as int],
                            dir,
                            rc as int,
                        ));
                        assert forall|j2: int| 0 <= j2 < j + 1 implies fresh_cell(
                            #[trigger] rect_cell(
                                x as int,
                                y as int,
                                z as int,
                                p as int,
                                q as int,
                                j2,
                                len_q as int,
                            ),
                            blocks@,
                            entry_faces,
                            cells,
                            block_id,
                            dir,
                        ) && face_visible_at(
                            registry@,
                            blocks@,
                            neighbors@[dir as int],
                            dir,
                            rect_cell(x as int, y as int, z as int, p as int, q as int, j2, len_q as int),
                        ) by {
                            if j2 == j as int {
                                assert(rc == rect_cell(
                                    x as int,
                                    y as int,
                                    z as int,
                                    p as int,
                                    q as int,
                                    j2,
                                    len_q as int,
                                ));
                            }
                        }
                    }
                    j = j + 1;
                }
            }
        }
        if row_ok {
            let ghost cells_row = cells;
            let mut j3: usize = 0;
            proof {
                assert(cells.union(
                    row_set(x as int, y as int, z as int, p as int, q as int, len_q as int, 0),
                ) =~= cells);
            }
            while j3 < len_p
                invariant
                    blocks@.len() == CHUNK_SIZE_CUBED,
                    faces@.len() == CHUNK_SIZE_CUBED,
                    entry_faces.len() == CHUNK_SIZE_CUBED,
                    dir < 6,
                    block_id != 0,
                    x < CHUNK_SIZE,
                    y < CHUNK_SIZE,
                    z < CHUNK_SIZE,
                    p == ((dir as int % 3) + 1) % 3,
                    q == ((dir as int % 3) + 2) % 3,
                    coord_p == spec_axis_coord(x as int, y as int, z as int, p as int),
                    coord_q == spec_axis_coord(x as int, y as int, z as int, q as int),
                    1 <= len_p,
                    coord_p + len_p <= CHUNK_SIZE,
                    1 <= len_q,
                    coord_q + len_q < CHUNK_SIZE,
                    j3 <= len_p,
                    tx < CHUNK_SIZE,
                    ty < CHUNK_SIZE,
                    tz < CHUNK_SIZE,
                    tx as int == x + (if q == 0 {
                        len_q as int
                    } else {
                        0int
                    }),
                    ty as int == y + (if q == 1 {
                        len_q as int
                    } else {
                        0int
                    }),
                    tz as int == z + (if q == 2 {
                        len_q as int
                    } else {
                        0int
                    }),
                    spec_axis_coord(tx as int, ty as int, tz as int, p as int) == coord_p,
                    spec_axis_coord(tx as int, ty as int, tz as int, q as int) == coord_q + len_q,
                    block_id == blocks@[spec_cell_index(x as int, y as int, z as int)].id,
                    is_transparent == spec_transparent(registry@, block_id),
                    *out == *old(out),
                    mesh_inv(blocks@, entry_faces, *old(out)),
                    old(out).vertexes@.len() < MAX_QUADS,
                    ids_registered(blocks@, registry@),
                    forall|d: int| 0 <= d < 6 ==> neighbor_ok(#[trigger] neighbors@[d], registry@),
                    forall|c2: int, d2: u8|
                        0 <= c2 < CHUNK_SIZE_CUBED && d2 < 8 && #[trigger] marked(
                            entry_faces,
                            c2,
                            d2,
                        ) ==> marked(faces@, c2, d2),
                    forall|c2: int|
                        0 <= c2 < CHUNK_SIZE_CUBED ==> #[trigger] marked(faces@, c2, dir) == (
                        marked(entry_faces, c2, dir) || cells.contains(c2)),
                    forall|c2: int, d2: u8|
                        0 <= c2 < CHUNK_SIZE_CUBED && d2 < 6 && #[trigger] marked(faces@, c2, d2) ==> (exists|
                            t: int,
                        |
                            0 <= t < old(out).footprints@.len() && old(out).footprints@[t].dir == d2
                                && old(out).footprints@[t].covers(c2)) || !face_visible_at(
                            registry@,
                            blocks@,
                            neighbors@[d2 as int],
                            d2,
                            c2,
                        ) || (d2 == dir && cells.contains(c2)),
                    forall|c: int|
                        #[trigger] cells.contains(c) ==> 0 <= c < CHUNK_SIZE_CUBED && blocks@[c].id
                            == block_id && !marked(entry_faces, c, dir) && face_visible_at(
                            registry@,
                            blocks@,
                            neighbors@[dir as int],
                            dir,
                            c,
                        ),
                    cells.contains(spec_cell_index(x as int, y as int, z as int)),
                    cells == rect_set(
                        x as int,
                        y as int,
                        z as int,
                        p as int,
                        q as int,
                        len_p as int,
                        len_q as int,
                    ).union(row_set(x as int, y as int, z as int, p as int, q as int, len_q as int, j3 as int)),
                    forall|j2: int|
                        0 <= j2 < len_p ==> fresh_cell(
                            #[trigger] rect_cell(
                                x as int,
                                y as int,
                                z as int,
                                p as int,
                                q as int,
                                j2,
                                len_q as int,
                            ),
                            blocks@,
                            entry_faces,
                            cells_row,
                            block_id,
                            dir,
                        ) && face_visible_at(
                            registry@,
                            blocks@,
                            neighbors@[dir as int],
                            dir,
                            rect_cell(x as int, y as int, z as int, p as int, q as int, j2, len_q as int),
                        ),
                decreases len_p - j3,
            {
                let (rx, ry, rz) = offset_coords(tx, ty, tz, p, j3);
                let rc = cell_index(rx, ry, rz);
                proof {
                    assert(rc == rect_cell(
                        x as int,
                        y as int,
                        z as int,
                        p as int,
                        q as int,
                        j3 as int,
                        len_q as int,
                    ));
                    assert(fresh_cell(rc as int, blocks@, entry_faces, cells_row, block_id, dir));
                }
                mark_face(faces, rc, dir);
                proof {
                    let prev = cells;
                    lemma_row_set_grow(
                        x as int,
                        y as int,
                        z as int,
                        p as int,
                        q as int,
                        len_p as int,
                        len_q as int,
                        j3 as int,
                        prev,
                        rc as int,
                    );
                    cells = cells.insert(rc as int);
                }
                j3 = j3 + 1;
            }
            proof {
                lemma_rect_set_complete_row(
                    x as int,
                    y as int,
                    z as int,
                    p as int,
                    q as int,
                    len_p as int,
                    len_q as int,
                );
            }
            len_q = len_q + 1;
        } else {
            stop2 = true;
        }
    }
    proof {
        lemma_inv_monotone(blocks@, entry_faces, faces@, *out);
    }
    let ghost fp = QuadFootprint {
        dir,
        block_id,
        x: x as int,
        y: y as int,
        z: z as int,
        len_p: len_p as int,
        len_q: len_q as int,
        cells,
    };
    proof {
        assert(fp.covers(spec_cell_index(x as int, y as int, z as int)));
        lemma_new_quad_disjoint(blocks@, entry_faces, *out, fp);
    }
    let ghost pre_emit = *out;
    emit_quad(out, registry, blocks, faces, neighbors, dir, x, y, z, p, q, len_p, len_q, Ghost(fp));
    proof {
        lemma_justified_after_emit(
            registry@,
            blocks@,
            neighbors,
            faces@,
            pre_emit,
            *out,
            fp,
        );
    }
}

/// A one-row rectangle of width zero covers nothing.
proof fn lemma_rect_set_empty(x: int, y: int, z: int, p: int, q: int)
    ensures
        forall|c: int| !(#[trigger] rect_set(x, y, z, p, q, 0, 1).contains(c)),
{
    assert forall|c: int| !(#[trigger] rect_set(x, y, z, p, q, 0, 1).contains(c)) by {
        if rect_set(x, y, z, p, q, 0, 1).contains(c) {
            let (j, k) = choose|j: int, k: int|
                0 <= j < 0 && 0 <= k < 1 && c == rect_cell(x, y, z, p, q, j, k);
            assert(false);
        }
    }
}

/// The quad under construction overlaps no already-emitted quad: its cells
/// were all uncovered when the pass reached it, while an emitted quad's
/// cells were covered already.
proof fn lemma_new_quad_disjoint(
    blocks: Seq<Block>,
    entry_faces: Seq<DirectionSet>,
    m: PackedMesh,
    fp: QuadFootprint,
)
    requires
        mesh_inv(blocks, entry_faces, m),
        forall|c: int| #[trigger] fp.covers(c) ==> !marked(entry_faces, c, fp.dir),
    ensures
        forall|t: int|
            0 <= t < m.footprints@.len() ==> quads_disjoint(#[trigger] m.footprints@[t], fp),
{
    assert forall|t: int| 0 <= t < m.footprints@.len() implies quads_disjoint(
        #[trigger] m.footprints@[t],
        fp,
    ) by {
        if m.footprints@[t].dir == fp.dir {
            assert forall|c: int| !(#[trigger] m.footprints@[t].covers(c) && fp.covers(c)) by {
                if m.footprints@[t].covers(c) && fp.covers(c) {
                    assert(marked(entry_faces, c, m.footprints@[t].dir));
                    assert(!marked(entry_faces, c, fp.dir));
                }
            }
        }
    }
}

/// Once the quad under construction is emitted, the marks it placed are
/// justified by it, and every older mark keeps its old justification.
proof fn lemma_justified_after_emit(
    reg: Seq<BlockDefinition>,
    blocks: Seq<Block>,
    neighbors: [Option<&Palette>; 6],
    faces: Seq<DirectionSet>,
    m0: PackedMesh,
    m1: PackedMesh,
    fp: QuadFootprint,
)
    requires
        m1.footprints@ == m0.footprints@.push(fp),
        forall|c2: int, d2: u8|
            0 <= c2 < CHUNK_SIZE_CUBED && d2 < 6 && #[trigger] marked(faces, c2, d2) ==> (exists|
                t: int,
            |
                0 <= t < m0.footprints@.len() && m0.footprints@[t].dir == d2
                    && m0.footprints@[t].covers(c2)) || !face_visible_at(
                reg,
                blocks,
                neighbors@[d2 as int],
                d2,
                c2,
            ) || (d2 == fp.dir && fp.covers(c2)),
    ensures
        marks_justified(reg, blocks, neighbors, faces, m1),
{
    assert forall|c2: int, d2: u8|
        0 <= c2 < CHUNK_SIZE_CUBED && d2 < 6 && #[trigger] marked(faces, c2, d2) implies (exists|
        t: int,
    |
        0 <= t < m1.footprints@.len() && m1.footprints@[t].dir == d2 && m1.footprints@[t].covers(
            c2,
        )) || !face_visible_at(reg, blocks, neighbors@[d2 as int], d2, c2) by {
        if exists|t: int|
            0 <= t < m0.footprints@.len() && m0.footprints@[t].dir == d2
                && m0.footprints@[t].covers(c2) {
            let t0 = choose|t: int|
                0 <= t < m0.footprints@.len() && m0.footprints@[t].dir == d2
                    && m0.footprints@[t].covers(c2);
            assert(m1.footprints@[t0] == m0.footprints@[t0]);
            assert(m1.footprints@[t0].dir == d2 && m1.footprints@[t0].covers(c2));
        } else if d2 == fp.dir && fp.covers(c2) {
            let t1 = m0.footprints@.len() as int;
            assert(m1.footprints@[t1] == fp);
            assert(m1.footprints@[t1].dir == d2 && m1.footprints@[t1].covers(c2));
        }
    }
}

/// A chunk-sized cell array filled with the background block.
fn air_blocks(n: usize) -> (r: Vec<Block>)
    ensures
        r@.len() == n,
{
    let mut r: Vec<Block> = Vec::new();
    let mut i: usize = 0;
    while i < n
        invariant
            i <= n,
            r@.len() == i,
        decreases n - i,
    {
        r.push(Block::air());
        i = i + 1;
    }
    r
}

/// A chunk-sized coverage array with every face uncovered.
fn empty_faces(n: usize) -> (r: Vec<DirectionSet>)
    ensures
        r@.len() == n,
        forall|i: int| 0 <= i < n ==> (#[trigger] r@[i]).bits == 0,
        forall|i: int, d: u8| 0 <= i < n && d < 8 ==> !(#[trigger] marked(r@, i, d)),
{
    let mut r: Vec<DirectionSet> = Vec::new();
    let mut i: usize = 0;
    while i < n
        invariant
            i <= n,
            r@.len() == i,
            forall|k: int| 0 <= k < i ==> (#[trigger] r@[k]).bits == 0,
            forall|k: int, d: u8| 0 <= k < i && d < 8 ==> !(#[trigger] marked(r@, k, d)),
        decreases n - i,
    {
        r.push(DirectionSet::empty());
        i = i + 1;
    }
    r
}

/// Meshes one chunk: decompresses its palette, walks every cell in fixed
/// axis order, culls hidden faces (against the six bordering chunks where
/// supplied), merges visible faces greedily into rectangles, and returns the
/// packed quads.
///
/// The ghost footprints record, per quad, exactly which cell faces it
/// covers: every quad faces one direction, carries one non-background
/// label drawn from the chunk itself, and covers exactly an axis-aligned
/// rectangle of same-label cells whose corners its packed vertices encode.
/// Every face a quad covers is visible, every visible face of every
/// non-background cell is covered, and no two quads cover the same
/// cell-face pair.  A chunk whose palette knows only the background label
/// produces an empty mesh.
pub fn generate_packed_mesh(
    block_registry: &BlockRegistry,
    blocks_palette: &Palette,
    neighbors: [Option<&Palette>; 6],
) -> (r: PackedMesh)
    requires
        blocks_palette.wf(),
        blocks_palette@.len() == CHUNK_SIZE_CUBED,
        ids_registered(blocks_palette.lookup_seq(), block_registry@),
        forall|d: int| 0 <= d < 6 ==> neighbor_ok(#[trigger] neighbors@[d], block_registry@),
    ensures
        r.vertexes@.len() == r.indexes@.len(),
        r.footprints@.len() == r.vertexes@.len(),
        r.vertexes@.len() <= MAX_QUADS,
        forall|t: int| 0 <= t < r.indexes@.len() ==> sextuple_ok(#[trigger] r.indexes@[t]@, t),
        forall|t: int|
            0 <= t < r.footprints@.len() ==> (#[trigger] r.footprints@[t]).geometry_wf()
                && r.footprints@[t].block_id != 0 && (exists|c: int| r.footprints@[t].covers(c))
                && quad_shape_ok(r.vertexes@[t]@, r.footprints@[t]),
        forall|t: int, c: int|
            0 <= t < r.footprints@.len() && (#[trigger] r.footprints@[t].covers(c)) ==> 0 <= c
                < CHUNK_SIZE_CUBED && blocks_palette@[c].id == r.footprints@[t].block_id,
        forall|t1: int, t2: int|
            0 <= t1 < t2 < r.footprints@.len() ==> quads_disjoint(
                #[trigger] r.footprints@[t1],
                #[trigger] r.footprints@[t2],
            ),
        forall|t: int, c: int|
            0 <= t < r.footprints@.len() && (#[trigger] r.footprints@[t].covers(c))
                ==> face_visible_at(
                block_registry@,
                blocks_palette@,
                neighbors@[r.footprints@[t].dir as int],
                r.footprints@[t].dir,
                c,
            ),
        forall|c: int, d: u8|
            0 <= c < CHUNK_SIZE_CUBED && d < 6 && blocks_palette@[c].id != 0 && face_visible_at(
                block_registry@,
                blocks_palette@,
                neighbors@[d as int],
                d,
                c,
            ) ==> exists|t: int|
                0 <= t < r.footprints@.len() && r.footprints@[t].dir == d
                    && #[trigger] r.footprints@[t].covers(c),
        blocks_palette.lookup_seq().len() == 1 && blocks_palette.lookup_seq()[0].id == 0
            ==> r.vertexes@.len() == 0,
{
    let mut out = PackedMesh {
        indexes: Vec::new(),
        vertexes: Vec::new(),
        footprints: Ghost(Seq::empty()),
    };
    if blocks_palette.lookup_len() == 1 && blocks_palette.get_lookup_value(0).id == 0 {
        proof {
            crate::palette::lemma_view_values(blocks_palette);
            assert forall|c: int| 0 <= c < CHUNK_SIZE_CUBED implies blocks_palette@[c].id == 0 by {
                assert((blocks_palette.code_at(c) as int) < blocks_palette.lookup_seq().len());
                assert(blocks_palette@[c] == blocks_palette.lookup_seq()[blocks_palette.code_at(
                    c,
                ) as int]);
            }
        }
        return out;
    }
    let mut blocks: Vec<Block> = air_blocks(CHUNK_SIZE_CUBED);
    blocks_palette.copy_to_slice(&mut blocks);
    proof {
        crate::palette::lemma_view_values(blocks_palette);
        assert forall|i: int| 0 <= i < blocks@.len() implies (#[trigger] blocks@[i].id as int)
            < block_registry@.len() by {
            assert(blocks@[i] == blocks_palette@[i]);
            assert(blocks_palette@[i] == blocks_palette.lookup_seq()[blocks_palette.code_at(
                i,
            ) as int]);
        }
    }
    let mut faces: Vec<DirectionSet> = empty_faces(CHUNK_SIZE_CUBED);
    let mut y: usize = 0;
    while y < CHUNK_SIZE
        invariant
            blocks@.len() == CHUNK_SIZE_CUBED,
            faces@.len() == CHUNK_SIZE_CUBED,
            forall|c: int| 0 <= c < CHUNK_SIZE_CUBED ==> #[trigger] blocks@[c] == blocks_palette@[c],
            ids_registered(blocks@, block_registry@),
            forall|d: int| 0 <= d < 6 ==> neighbor_ok(#[trigger] neighbors@[d], block_registry@),
            mesh_inv(blocks@, faces@, out),
            quads_visible(block_registry@, blocks@, neighbors, out),
            marks_justified(block_registry@, blocks@, neighbors, faces@, out),
            y <= CHUNK_SIZE,
            out.vertexes@.len() <= 6 * 1024 * y,
            forall|c: int, d: u8|
                0 <= c < CHUNK_SIZE_CUBED && d < 6 && blocks@[c].id != 0 && spec_cell_y(c) < y
                    ==> #[trigger] face_settled(block_registry@, blocks@, neighbors, faces@, c, d),
        decreases CHUNK_SIZE - y,
    {
        let mut z: usize = 0;
        proof {
            assert(out.vertexes@.len() <= 6 * 1024 * y);
            assert(6 * 1024 * y == 6 * (1024 * y + 32 * 0)) by (nonlinear_arith);
        }
        while z < CHUNK_SIZE
            invariant
                blocks@.len() == CHUNK_SIZE_CUBED,
                faces@.len() == CHUNK_SIZE_CUBED,
                forall|c: int|
                    0 <= c < CHUNK_SIZE_CUBED ==> #[trigger] blocks@[c] == blocks_palette@[c],
                ids_registered(blocks@, block_registry@),
                forall|d: int|
                    0 <= d < 6 ==> neighbor_ok(#[trigger] neighbors@[d], block_registry@),
                mesh_inv(blocks@, faces@, out),
                quads_visible(block_registry@, blocks@, neighbors, out),
            marks_justified(block_registry@, blocks@, neighbors, faces@, out),
                y < CHUNK_SIZE,
                z <= CHUNK_SIZE,
                out.vertexes@.len() <= 6 * (1024 * y + 32 * z),
                forall|c: int, d: u8|
                    0 <= c < CHUNK_SIZE_CUBED && d < 6 && blocks@[c].id != 0 && (spec_cell_y(c) < y
                        || (spec_cell_y(c) == y && spec_cell_z(c) < z))
                        ==> #[trigger] face_settled(block_registry@, blocks@, neighbors, faces@, c, d),
            decreases CHUNK_SIZE - z,
        {
            let mut x: usize = 0;
            while x < CHUNK_SIZE
                invariant
                    blocks@.len() == CHUNK_SIZE_CUBED,
                    faces@.len() == CHUNK_SIZE_CUBED,
                    forall|c: int|
                        0 <= c < CHUNK_SIZE_CUBED ==> #[trigger] blocks@[c] == blocks_palette@[c],
                    ids_registered(blocks@, block_registry@),
                    forall|d: int|
                        0 <= d < 6 ==> neighbor_ok(#[trigger] neighbors@[d], block_registry@),
                    mesh_inv(blocks@, faces@, out),
                    quads_visible(block_registry@, blocks@, neighbors, out),
            marks_justified(block_registry@, blocks@, neighbors, faces@, out),
                    y < CHUNK_SIZE,
                    z < CHUNK_SIZE,
                    x <= CHUNK_SIZE,
                    out.vertexes@.len() <= 6 * (1024 * y + 32 * z + x),
                    forall|c: int, d: u8|
                        0 <= c < CHUNK_SIZE_CUBED && d < 6 && blocks@[c].id != 0 && (spec_cell_y(c)
                            < y || (spec_cell_y(c) == y && (spec_cell_z(c) < z || (spec_cell_z(c)
                            == z && spec_cell_x(c) < x))))
                            ==> #[trigger] face_settled(block_registry@, blocks@, neighbors, faces@, c, d),
                decreases CHUNK_SIZE - x,
            {
                let idx = cell_index(x, y, z);
                let block = blocks[idx];
                if block.id != 0 {
                    let is_transparent = block_registry.get_block_attributes(block.id).contains(
                        Attributes::from_bits(ATTR_TRANSPARENT),
                    );
                    let mut d: u8 = 0;
                    while d < 6
                        invariant
                            blocks@.len() == CHUNK_SIZE_CUBED,
                            faces@.len() == CHUNK_SIZE_CUBED,
                            forall|c: int|
                                0 <= c < CHUNK_SIZE_CUBED ==> #[trigger] blocks@[c]
                                    == blocks_palette@[c],
                            ids_registered(blocks@, block_registry@),
                            forall|d2: int|
                                0 <= d2 < 6 ==> neighbor_ok(
                                    #[trigger] neighbors@[d2],
                                    block_registry@,
                                ),
                            mesh_inv(blocks@, faces@, out),
                            quads_visible(block_registry@, blocks@, neighbors, out),
            marks_justified(block_registry@, blocks@, neighbors, faces@, out),
                            y < CHUNK_SIZE,
                            z < CHUNK_SIZE,
                            x < CHUNK_SIZE,
                            d <= 6,
                            idx == spec_cell_index(x as int, y as int, z as int),
                            idx < CHUNK_SIZE_CUBED,
                            block == blocks@[idx as int],
                            block.id != 0,
                            is_transparent == spec_transparent(block_registry@, block.id),
                            out.vertexes@.len() <= 6 * (1024 * y + 32 * z + x) + d,
                            forall|c: int, d2: u8|
                                0 <= c < CHUNK_SIZE_CUBED && d2 < 6 && blocks@[c].id != 0 && (
                                spec_cell_y(c) < y || (spec_cell_y(c) == y && (spec_cell_z(c) < z
                                    || (spec_cell_z(c) == z && spec_cell_x(c) < x))))
                                    ==> #[trigger] face_settled(block_registry@, blocks@, neighbors, faces@, c, d2),
                            forall|d2: u8|
                                d2 < d ==> #[trigger] face_settled(
                                    block_registry@,
                                    blocks@,
                                    neighbors,
                                    faces@,
                                    idx as int,
                                    d2,
                                ),
                        decreases 6 - d,
                    {
                        let ghost faces0 = faces@;
                        let covered = faces[idx].contains(d);
                        if !covered {
                            process_face(
                                block_registry,
                                &blocks,
                                &mut faces,
                                neighbors,
                                &mut out,
                                x,
                                y,
                                z,
                                d,
                                block.id,
                                is_transparent,
                            );
                        }
                        proof {
                            assert forall|d2: u8| d2 < d + 1 implies #[trigger] face_settled(
                                block_registry@,
                                blocks@,
                                neighbors,
                                faces@,
                                idx as int,
                                d2,
                            ) by {
                                if d2 < d {
                                    assert(face_settled(
                                        block_registry@,
                                        blocks@,
                                        neighbors,
                                        faces0,
                                        idx as int,
                                        d2,
                                    ));
                                    if marked(faces0, idx as int, d2) {
                                        assert(marked(faces@, idx as int, d2));
                                    }
                                }
                            }
                            assert forall|c: int, d2: u8|
                                0 <= c < CHUNK_SIZE_CUBED && d2 < 6 && blocks@[c].id != 0 && (
                                spec_cell_y(c) < y || (spec_cell_y(c) == y && (spec_cell_z(c) < z
                                    || (spec_cell_z(c) == z && spec_cell_x(c)
                                    < x)))) implies #[trigger] face_settled(
                                block_registry@,
                                blocks@,
                                neighbors,
                                faces@,
                                c,
                                d2,
                            ) by {
                                assert(face_settled(
                                    block_registry@,
                                    blocks@,
                                    neighbors,
                                    faces0,
                                    c,
                                    d2,
                                ));
                                if marked(faces0, c, d2) {
                                    assert(marked(faces@, c, d2));
                                }
                            }
                        }
                        d = d + 1;
                    }
                }
                proof {
                    assert forall|c: int, d2: u8|
                        0 <= c < CHUNK_SIZE_CUBED && d2 < 6 && blocks@[c].id != 0 && (spec_cell_y(c)
                            < y || (spec_cell_y(c) == y && (spec_cell_z(c) < z || (spec_cell_z(c)
                            == z && spec_cell_x(c) < x + 1)))) implies #[trigger] face_settled(
                        block_registry@,
                        blocks@,
                        neighbors,
                        faces@,
                        c,
                        d2,
                    ) by {
                        lemma_cell_index_reconstruct(c);
                        if spec_cell_y(c) == y && spec_cell_z(c) == z && spec_cell_x(c) == x {
                            assert(c == spec_cell_index(x as int, y as int, z as int));
                        }
                    }
                }
                x = x + 1;
            }
            proof {
                assert forall|c: int, d2: u8|
                    0 <= c < CHUNK_SIZE_CUBED && d2 < 6 && blocks@[c].id != 0 && (spec_cell_y(c)
                        < y || (spec_cell_y(c) == y && spec_cell_z(c) < z
                        + 1)) implies #[trigger] face_settled(
                    block_registry@,
                    blocks@,
                    neighbors,
                    faces@,
                    c,
                    d2,
                ) by {
                    lemma_cell_index_reconstruct(c);
                }
            }
            z = z + 1;
        }
        proof {
            assert forall|c: int, d2: u8|
                0 <= c < CHUNK_SIZE_CUBED && d2 < 6 && blocks@[c].id != 0 && spec_cell_y(c) < y
                    + 1 implies #[trigger] face_settled(
                block_registry@,
                blocks@,
                neighbors,
                faces@,
                c,
                d2,
            ) by {
                lemma_cell_index_reconstruct(c);
            }
        }
        y = y + 1;
    }
    proof {
        assert(blocks@ =~= blocks_palette@);
        assert forall|c: int, d: u8|
            0 <= c < CHUNK_SIZE_CUBED && d < 6 && blocks_palette@[c].id != 0 && face_visible_at(
                block_registry@,
                blocks_palette@,
                neighbors@[d as int],
                d,
                c,
            ) implies exists|t: int|
            0 <= t < out.footprints@.len() && out.footprints@[t].dir == d
                && #[trigger] out.footprints@[t].covers(c) by {
            lemma_cell_index_reconstruct(c);
            assert(face_settled(block_registry@, blocks@, neighbors, faces@, c, d));
            assert(marked(faces@, c, d));
        }
    }
    out
}

/// Marks face `d` of cell `c` covered, leaving every other cell-face pair
/// as it was.
fn mark_face(faces: &mut Vec<DirectionSet>, c: usize, d: u8)
    requires
        c < old(faces)@.len(),
        d < 8,
    ensures
        final(faces)@.len() == old(faces)@.len(),
        forall|c2: int, d2: u8|
            0 <= c2 < old(faces)@.len() && d2 < 8 ==> #[trigger] marked(final(faces)@, c2, d2) == (
            marked(old(faces)@, c2, d2) || (c2 == c && d2 == d)),
{
    let ds = faces[c];
    let nds = ds.with(d);
    faces.set(c, nds);
}

} // verus!
