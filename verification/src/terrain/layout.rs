//! The generated part of the labyrinth: the chunks made so far, each with
//! its cells and their passages, and the lookups into them.
use vstd::prelude::*;
use crate::terrain::generator::{
    cell_passages, chunk_cells, chunk_for_cell, chunks_around, floor_div, chunk_fits, chunk_of, global_cell, passages_ok, passages_upto,
    sizes_ok,
};
use crate::terrain::types::{
    can_step, validated_config, CellCoord3d, ChunkCoord, Direction3d, LayoutConfig, Passage3d,
};

verus! {

/// The integer part of a generated cell: where it is, which chunk holds it
/// and where in that chunk, and its open passages.
pub struct CellLayout {
    pub coord: CellCoord3d,
    pub chunk: ChunkCoord,
    pub local: [usize; 3],
    pub passages: Vec<Passage3d>,
}

/// The integer part of a generated chunk: its position and its cells, level
/// by level, row by row.
pub struct ChunkLayout {
    pub coord: ChunkCoord,
    pub cells: Vec<CellLayout>,
}

/// Every cell of the chunk lies one step inside the coordinate range, so all
/// of its neighbours can be named.
pub open spec fn chunk_interior(config: LayoutConfig, chunk: ChunkCoord) -> bool {
    &&& i32::MIN < chunk.x * config.chunk_width
    &&& (chunk.x + 1) * config.chunk_width <= i32::MAX
    &&& i32::MIN < chunk.y * config.chunk_depth
    &&& (chunk.y + 1) * config.chunk_depth <= i32::MAX
    &&& i32::MIN < chunk.z * config.chunk_levels
    &&& (chunk.z + 1) * config.chunk_levels <= i32::MAX
}

/// The cell at local position `(x, y, z)` of the chunk, as generated.
pub open spec fn cell_generated(config: LayoutConfig, chunk: ChunkCoord, x: int, y: int, z: int, c: CellLayout) -> bool {
    &&& c.coord == global_cell(config, chunk, x, y, z)
    &&& c.chunk == chunk
    &&& c.local@ == seq![x as usize, y as usize, z as usize]
    &&& c.passages@ == passages_upto(config.seed, c.coord, 6)
}

/// The chunk as generated: every local position holds its cell, at index
/// `(z * depth + y) * width + x`.
pub open spec fn chunk_generated(config: LayoutConfig, ch: ChunkLayout) -> bool {
    &&& ch.cells@.len() == config.chunk_width * config.chunk_depth * config.chunk_levels
    &&& forall|x: int, y: int, z: int|
        0 <= x < config.chunk_width && 0 <= y < config.chunk_depth && 0 <= z < config.chunk_levels
            ==> cell_generated(
            config,
            ch.coord,
            x,
            y,
            z,
            #[trigger] ch.cells@[(z * config.chunk_depth + y) * config.chunk_width + x],
        )
}

/// A cell one step inside the coordinate range has a listable set of
/// passages.
proof fn lemma_inner_cell_passages_ok(seed: u64, c: CellCoord3d)
    requires
        i32::MIN < c.x < i32::MAX,
        i32::MIN < c.y < i32::MAX,
        i32::MIN < c.z < i32::MAX,
    ensures
        passages_ok(seed, c),
{
    assert forall|d: Direction3d| can_step(c, d) by {}
}

/// The cells of a chunk with their passages.
pub fn generate_chunk(config: LayoutConfig, coord: ChunkCoord) -> (r: ChunkLayout)
    requires
        sizes_ok(config),
        chunk_interior(config, coord),
        config.chunk_width * config.chunk_depth * config.chunk_levels <= usize::MAX,
    ensures
        r.coord == coord,
        chunk_generated(config, r),
{
    let w = config.chunk_width;
    let d = config.chunk_depth;
    let l = config.chunk_levels;
    let placed = chunk_cells(config, coord);
    let mut cells: Vec<CellLayout> = Vec::new();
    let mut k: usize = 0;
    while k < placed.len()
        invariant
            sizes_ok(config),
            chunk_interior(config, coord),
            w == config.chunk_width,
            d == config.chunk_depth,
            l == config.chunk_levels,
            placed@.len() == w * d * l,
            forall|x: int, y: int, z: int|
                0 <= x < w && 0 <= y < d && 0 <= z < l ==> {
                    let e = #[trigger] placed@[(z * d + y) * w + x];
                    &&& e.0@ == seq![x as usize, y as usize, z as usize]
                    &&& e.1 == global_cell(config, coord, x, y, z)
                },
            k <= placed@.len(),
            cells@.len() == k,
            forall|i: int| 0 <= i < k ==> {
                let c = #[trigger] cells@[i];
                &&& c.coord == placed@[i].1
                &&& c.chunk == coord
                &&& c.local@ == placed@[i].0@
                &&& c.passages@ == passages_upto(config.seed, c.coord, 6)
            },
        decreases placed.len() - k,
    {
        let (local, cell) = placed[k];
        proof {
            let kk = k as int;
            let x = kk % (w as int);
            let q = kk / (w as int);
            let y = q % (d as int);
            let z = q / (d as int);
            assert(kk == (z * d + y) * w + x && 0 <= x < w && 0 <= y < d && 0 <= z < l) by (nonlinear_arith)
                requires
                    0 <= kk < w * d * l,
                    w > 0,
                    d > 0,
                    x == kk % (w as int),
                    q == kk / (w as int),
                    y == q % (d as int),
                    z == q / (d as int),
            {
                vstd::arithmetic::div_mod::lemma_fundamental_div_mod(kk, w as int);
                vstd::arithmetic::div_mod::lemma_fundamental_div_mod(q, d as int);
            }
            let e = placed@[(z * d + y) * w + x];
            assert(e.1 == global_cell(config, coord, x, y, z));
            assert(chunk_fits(config, coord));
            assert(coord.x * w <= coord.x * w + x <= (coord.x + 1) * w - 1) by (nonlinear_arith)
                requires 0 <= x < w;
            assert(coord.y * d <= coord.y * d + y <= (coord.y + 1) * d - 1) by (nonlinear_arith)
                requires 0 <= y < d;
            assert(coord.z * l <= coord.z * l + z <= (coord.z + 1) * l - 1) by (nonlinear_arith)
                requires 0 <= z < l;
            lemma_inner_cell_passages_ok(config.seed, cell);
        }
        let passages = cell_passages(config.seed, cell);
        let ghost before = cells@;
        cells.push(CellLayout { coord: cell, chunk: coord, local, passages });
        proof {
            assert forall|i: int| 0 <= i < k + 1 implies {
                let c = #[trigger] cells@[i];
                &&& c.coord == placed@[i].1
                &&& c.chunk == coord
                &&& c.local@ == placed@[i].0@
                &&& c.passages@ == passages_upto(config.seed, c.coord, 6)
            } by {
                if i < k {
                    assert(cells@[i] == before[i]);
                }
            }
        }
        k += 1;
    }
    proof {
        assert forall|x: int, y: int, z: int|
            0 <= x < w && 0 <= y < d && 0 <= z < l implies cell_generated(
            config,
            coord,
            x,
            y,
            z,
            #[trigger] cells@[(z * d + y) * w + x],
        ) by {
            assert(0 <= (z * d + y) * w + x < w * d * l) by (nonlinear_arith)
                requires 0 <= x < w, 0 <= y < d, 0 <= z < l;
            let e = placed@[(z * d + y) * w + x];
            assert(e.0@ == seq![x as usize, y as usize, z as usize]);
        }
    }
    ChunkLayout { coord, cells }
}

/// The chunk `center + (i, j, k)` for offsets within `radius`.
pub open spec fn is_around(center: ChunkCoord, radius: int, c: ChunkCoord) -> bool {
    &&& center.x - radius <= c.x <= center.x + radius
    &&& center.y - radius <= c.y <= center.y + radius
    &&& center.z - radius <= c.z <= center.z + radius
}

/// Every chunk within `radius` of the center lies inside the coordinate
/// range, and their number fits in memory.
pub open spec fn around_fits(config: LayoutConfig, center: ChunkCoord, radius: int) -> bool {
    &&& 0 <= radius
    &&& (2 * radius + 1) * (2 * radius + 1) * (2 * radius + 1) <= usize::MAX
    &&& chunk_interior(config, ChunkCoord {
        x: (center.x - radius) as i32,
        y: (center.y - radius) as i32,
        z: (center.z - radius) as i32,
    })
    &&& chunk_interior(config, ChunkCoord {
        x: (center.x + radius) as i32,
        y: (center.y + radius) as i32,
        z: (center.z + radius) as i32,
    })
    &&& i32::MIN <= center.x - radius
    &&& center.x + radius <= i32::MAX
    &&& i32::MIN <= center.y - radius
    &&& center.y + radius <= i32::MAX
    &&& i32::MIN <= center.z - radius
    &&& center.z + radius <= i32::MAX
}

/// A chunk between two interior chunks is interior.
proof fn lemma_between_interior(config: LayoutConfig, lo: ChunkCoord, hi: ChunkCoord, c: ChunkCoord)
    requires
        sizes_ok(config),
        chunk_interior(config, lo),
        chunk_interior(config, hi),
        lo.x <= c.x <= hi.x,
        lo.y <= c.y <= hi.y,
        lo.z <= c.z <= hi.z,
    ensures
        chunk_interior(config, c),
{
    let w = config.chunk_width as int;
    let d = config.chunk_depth as int;
    let l = config.chunk_levels as int;
    assert(lo.x * w <= c.x * w && (c.x + 1) * w <= (hi.x + 1) * w) by (nonlinear_arith)
        requires lo.x <= c.x <= hi.x, w > 0;
    assert(lo.y * d <= c.y * d && (c.y + 1) * d <= (hi.y + 1) * d) by (nonlinear_arith)
        requires lo.y <= c.y <= hi.y, d > 0;
    assert(lo.z * l <= c.z * l && (c.z + 1) * l <= (hi.z + 1) * l) by (nonlinear_arith)
        requires lo.z <= c.z <= hi.z, l > 0;
}

/// Rounding a coordinate down to its chunk gives a chunk coordinate that
/// fits, and the cell's offset in the chunk.
proof fn lemma_floor_div_fits(a: int, w: int)
    requires
        i32::MIN <= a <= i32::MAX,
        w >= 1,
    ensures
        i32::MIN <= a / w <= i32::MAX,
        0 <= a - (a / w) * w < w,
{
    vstd::arithmetic::div_mod::lemma_fundamental_div_mod(a, w);
    let q = a / w;
    let r = a % w;
    assert(0 <= r < w);
    assert(a == w * q + r);
    assert(i32::MIN <= q <= i32::MAX) by (nonlinear_arith)
        requires
            a == w * q + r,
            0 <= r < w,
            w >= 1,
            i32::MIN <= a <= i32::MAX,
    {
        if q < 0 {
            assert(w * q <= q) by (nonlinear_arith)
                requires q < 0, w >= 1;
        } else {
            assert(w * q >= q) by (nonlinear_arith)
                requires q >= 0, w >= 1;
        }
        if q < a && a < 0 {
            assert(w * q <= w * (a - 1)) by (nonlinear_arith)
                requires q <= a - 1, w >= 1;
            assert(w * (a - 1) <= a - 1) by (nonlinear_arith)
                requires a - 1 < 0, w >= 1;
        }
    }
    assert(a - q * w == r) by (nonlinear_arith)
        requires a == w * q + r;
}

/// The chunks generated so far, with the configuration they were made with.
pub struct TerrainLayout {
    config: LayoutConfig,
    chunks: Vec<ChunkLayout>,
}

impl TerrainLayout {
    /// The configuration the chunks are made with.
    pub closed spec fn layout_config(&self) -> LayoutConfig {
        self.config
    }

    /// The generated chunks, in the order they were made.
    pub closed spec fn chunk_seq(&self) -> Seq<ChunkLayout> {
        self.chunks@
    }

    /// Whether the chunk at `c` has been generated.
    pub open spec fn has_chunk(&self, c: ChunkCoord) -> bool {
        exists|i: int| 0 <= i < self.chunk_seq().len() && (#[trigger] self.chunk_seq()[i]).coord == c
    }

    /// The layout's invariant: usable chunk sizes, each chunk generated by
    /// the rules, and no chunk made twice.
    pub open spec fn wf(&self) -> bool {
        &&& sizes_ok(self.layout_config())
        &&& self.layout_config().chunk_width * self.layout_config().chunk_depth
            * self.layout_config().chunk_levels <= usize::MAX
        &&& self.layout_config().generation_radius >= 0
        &&& forall|i: int| 0 <= i < self.chunk_seq().len() ==> chunk_generated(self.layout_config(), #[trigger] self.chunk_seq()[i])
        &&& forall|i: int, j: int|
            0 <= i < j < self.chunk_seq().len() ==> (#[trigger] self.chunk_seq()[i]).coord != (#[trigger] self.chunk_seq()[j]).coord
    }

    /// An empty layout for the configuration, made usable: chunk sizes of at
    /// least one and a generation radius of at least zero.
    pub fn new(config: LayoutConfig) -> (r: Self)
        requires
            config.chunk_width <= i32::MAX,
            config.chunk_depth <= i32::MAX,
            config.chunk_levels <= i32::MAX,
            validated_config(config).chunk_width * validated_config(config).chunk_depth
                * validated_config(config).chunk_levels <= usize::MAX,
        ensures
            r.wf(),
            r.layout_config() == validated_config(config),
            r.chunk_seq().len() == 0,
    {
        TerrainLayout { config: config.validated(), chunks: Vec::new() }
    }

    /// The configuration the chunks are made with.
    pub fn config(&self) -> (r: LayoutConfig)
        ensures
            r == self.layout_config(),
    {
        self.config
    }

    /// How many chunks have been generated.
    pub fn generated_chunk_count(&self) -> (r: usize)
        ensures
            r == self.chunk_seq().len(),
    {
        self.chunks.len()
    }

    /// The generated chunks, in the order they were made.
    pub fn chunks(&self) -> (r: &[ChunkLayout])
        ensures
            r@ == self.chunk_seq(),
    {
        self.chunks.as_slice()
    }

    fn find_chunk(&self, coord: ChunkCoord) -> (r: Option<usize>)
        ensures
            match r {
                Some(i) => i < self.chunk_seq().len() && self.chunk_seq()[i as int].coord == coord,
                None => !self.has_chunk(coord),
            },
    {
        let mut i: usize = 0;
        while i < self.chunks.len()
            invariant
                i <= self.chunks@.len(),
                forall|j: int| 0 <= j < i ==> (#[trigger] self.chunks@[j]).coord != coord,
            decreases self.chunks.len() - i,
        {
            if self.chunks[i].coord == coord {
                return Some(i);
            }
            i += 1;
        }
        None
    }

    /// The chunk at `coord`, once it has been generated.
    pub fn chunk(&self, coord: ChunkCoord) -> (r: Option<&ChunkLayout>)
        requires
            self.wf(),
        ensures
            r is Some <==> self.has_chunk(coord),
            r matches Some(ch) ==> ch.coord == coord && chunk_generated(self.layout_config(), *ch),
    {
        match self.find_chunk(coord) {
            Some(i) => Some(&self.chunks[i]),
            None => None,
        }
    }

    /// The generated cell at `coord`, found once the chunk that owns it has
    /// been generated.
    pub fn cell(&self, coord: CellCoord3d) -> (r: Option<&CellLayout>)
        requires
            self.wf(),
        ensures
            r is Some <==> self.has_chunk(chunk_of(self.layout_config(), coord)),
            r matches Some(c) ==> {
                &&& c.coord == coord
                &&& c.chunk == chunk_of(self.layout_config(), coord)
                &&& c.passages@ == passages_upto(self.layout_config().seed, coord, 6)
            },
    {
        let config = self.config;
        let chunk_coord = chunk_for_cell(config, coord);
        let i = match self.find_chunk(chunk_coord) {
            Some(i) => i,
            None => {
                return None;
            },
        };
        let cells = &self.chunks[i].cells;
        let ghost w = config.chunk_width as int;
        let ghost d = config.chunk_depth as int;
        let ghost l = config.chunk_levels as int;
        proof {
            assert(chunk_generated(config, self.chunks@[i as int]));
            lemma_floor_div_fits(coord.x as int, w);
            lemma_floor_div_fits(coord.y as int, d);
            lemma_floor_div_fits(coord.z as int, l);
            let x = coord.x - chunk_coord.x * w;
            let y = coord.y - chunk_coord.y * d;
            let z = coord.z - chunk_coord.z * l;
            assert(chunk_coord.x == (coord.x as int) / w);
            assert(0 <= x < w);
            assert(0 <= y < d);
            assert(0 <= z < l);
            assert(cell_generated(config, chunk_coord, x, y, z, cells@[(z * d + y) * w + x]));
            assert(global_cell(config, chunk_coord, x, y, z) == coord);
        }
        let mut k: usize = 0;
        while k < cells.len()
            invariant
                w == config.chunk_width,
                d == config.chunk_depth,
                l == config.chunk_levels,
                sizes_ok(config),
                chunk_coord == chunk_of(config, coord),
                config == self.layout_config(),
                i < self.chunk_seq().len(),
                self.chunk_seq()[i as int].coord == chunk_coord,
                cells@ == self.chunk_seq()[i as int].cells@,
                cells@.len() == w * d * l,
                forall|x: int, y: int, z: int|
                    0 <= x < w && 0 <= y < d && 0 <= z < l ==> cell_generated(
                        config,
                        chunk_coord,
                        x,
                        y,
                        z,
                        #[trigger] cells@[(z * d + y) * w + x],
                    ),
                k <= cells@.len(),
                forall|j: int| 0 <= j < k ==> (#[trigger] cells@[j]).coord != coord,
            decreases cells.len() - k,
        {
            if cells[k].coord == coord {
                proof {
                    let kk = k as int;
                    let x = kk % w;
                    let q = kk / w;
                    let y = q % d;
                    let z = q / d;
                    assert(kk == (z * d + y) * w + x && 0 <= x < w && 0 <= y < d && 0 <= z < l) by (nonlinear_arith)
                        requires
                            0 <= kk < w * d * l,
                            w > 0,
                            d > 0,
                            x == kk % w,
                            q == kk / w,
                            y == q % d,
                            z == q / d,
                    {
                        vstd::arithmetic::div_mod::lemma_fundamental_div_mod(kk, w);
                        vstd::arithmetic::div_mod::lemma_fundamental_div_mod(q, d);
                    }
                    assert(cell_generated(config, chunk_coord, x, y, z, cells@[kk]));
                }
                return Some(&cells[k]);
            }
            k += 1;
        }
        proof {
            let x = coord.x - chunk_coord.x * w;
            let y = coord.y - chunk_coord.y * d;
            let z = coord.z - chunk_coord.z * l;
            assert(0 <= (z * d + y) * w + x < w * d * l) by (nonlinear_arith)
                requires 0 <= x < w, 0 <= y < d, 0 <= z < l;
            assert(cells@[(z * d + y) * w + x].coord == coord);
        }
        None
    }

    /// Generates every chunk within the configured radius of `center` that
    /// has not been generated yet, and returns how many were made.
    pub fn ensure_chunks_around(&mut self, center: ChunkCoord) -> (r: usize)
        requires
            old(self).wf(),
            around_fits(old(self).layout_config(), center, old(self).layout_config().generation_radius as int),
        ensures
            final(self).wf(),
            final(self).layout_config() == old(self).layout_config(),
            forall|c: ChunkCoord| #[trigger] final(self).has_chunk(c) <==> old(self).has_chunk(c) || is_around(
                center,
                old(self).layout_config().generation_radius as int,
                c,
            ),
            final(self).chunk_seq().len() == old(self).chunk_seq().len() + r,
            final(self).chunk_seq().take(old(self).chunk_seq().len() as int) == old(self).chunk_seq(),
            (forall|c: ChunkCoord| is_around(center, old(self).layout_config().generation_radius as int, c) ==> #[trigger] old(self).has_chunk(c))
                ==> r == 0,
    {
        let radius = self.config.generation_radius;
        let around = chunks_around(center, radius);
        let ghost side = 2 * radius + 1;
        let ghost lo = ChunkCoord { x: (center.x - radius) as i32, y: (center.y - radius) as i32, z: (center.z - radius) as i32 };
        let ghost hi = ChunkCoord { x: (center.x + radius) as i32, y: (center.y + radius) as i32, z: (center.z + radius) as i32 };
        let mut generated: usize = 0;
        let mut n: usize = 0;
        while n < around.len()
            invariant
                self.wf(),
                self.layout_config() == old(self).layout_config(),
                radius == self.config.generation_radius,
                around_fits(self.layout_config(), center, radius as int),
                side == 2 * radius + 1,
                lo == (ChunkCoord { x: (center.x - radius) as i32, y: (center.y - radius) as i32, z: (center.z - radius) as i32 }),
                hi == (ChunkCoord { x: (center.x + radius) as i32, y: (center.y + radius) as i32, z: (center.z + radius) as i32 }),
                around@.len() == side * side * side,
                forall|i: int, j: int, k: int|
                    0 <= i < side && 0 <= j < side && 0 <= k < side ==> #[trigger] around@[(k * side + j) * side + i] == (ChunkCoord {
                        x: (center.x - radius + i) as i32,
                        y: (center.y - radius + j) as i32,
                        z: (center.z - radius + k) as i32,
                    }),
                n <= around@.len(),
                generated <= n,
                self.chunk_seq().len() == old(self).chunk_seq().len() + generated,
                self.chunk_seq().take(old(self).chunk_seq().len() as int) == old(self).chunk_seq(),
                forall|c: ChunkCoord| #[trigger] self.has_chunk(c) <==> old(self).has_chunk(c) || exists|m: int| 0 <= m < n && around@[m] == c,
                (forall|c: ChunkCoord| is_around(center, radius as int, c) ==> #[trigger] old(self).has_chunk(c)) ==> generated == 0,
            decreases around.len() - n,
        {
            let coord = around[n];
            proof {
                let nn = n as int;
                let i = nn % side;
                let q = nn / side;
                let j = q % side;
                let k = q / side;
                assert(nn == (k * side + j) * side + i && 0 <= i < side && 0 <= j < side && 0 <= k < side) by (nonlinear_arith)
                    requires
                        0 <= nn < side * side * side,
                        side > 0,
                        i == nn % side,
                        q == nn / side,
                        j == q % side,
                        k == q / side,
                {
                    vstd::arithmetic::div_mod::lemma_fundamental_div_mod(nn, side);
                    vstd::arithmetic::div_mod::lemma_fundamental_div_mod(q, side);
                }
                assert(around@[(k * side + j) * side + i] == coord);
                assert(is_around(center, radius as int, coord));
                lemma_between_interior(self.config, lo, hi, coord);
            }
            match self.find_chunk(coord) {
                Some(_) => {
                    proof {
                        assert forall|c: ChunkCoord| #[trigger] self.has_chunk(c) <==> old(self).has_chunk(c) || exists|m: int| 0 <= m < n + 1 && around@[m] == c by {
                            if exists|m: int| 0 <= m < n + 1 && around@[m] == c {
                                let m = choose|m: int| 0 <= m < n + 1 && around@[m] == c;
                                if m < n {
                                    assert(exists|m2: int| 0 <= m2 < n && around@[m2] == c);
                                }
                            }
                            if exists|m: int| 0 <= m < n && around@[m] == c {
                                let m = choose|m: int| 0 <= m < n && around@[m] == c;
                                assert(0 <= m < n + 1 && around@[m] == c);
                            }
                        }
                    }
                },
                None => {
                    let chunk = generate_chunk(self.config, coord);
                    let ghost before = self.chunks@;
                    proof {
                        if forall|c: ChunkCoord| is_around(center, radius as int, c) ==> #[trigger] old(self).has_chunk(c) {
                            assert(old(self).has_chunk(coord));
                            assert(self.has_chunk(coord));
                        }
                        assert forall|c: ChunkCoord| (exists|t: int| 0 <= t < before.len() && (#[trigger] before[t]).coord == c)
                            <==> (old(self).has_chunk(c) || exists|m: int| 0 <= m < n && around@[m] == c) by {
                            assert(self.chunk_seq() == before);
                            if self.has_chunk(c) {
                            }
                        }
                    }
                    self.chunks.push(chunk);
                    generated += 1;
                    proof {
                        assert(self.chunks@ == before.push(chunk));
                        assert(self.chunk_seq().take(old(self).chunk_seq().len() as int) =~= old(self).chunk_seq()) by {
                            assert forall|t: int| 0 <= t < old(self).chunk_seq().len() implies self.chunk_seq()[t] == old(self).chunk_seq()[t] by {
                                assert(before.take(old(self).chunk_seq().len() as int)[t] == old(self).chunk_seq()[t]);
                            }
                        }
                        assert forall|a: int, b: int| 0 <= a < b < self.chunk_seq().len() implies (#[trigger] self.chunk_seq()[a]).coord != (#[trigger] self.chunk_seq()[b]).coord by {
                            if b == before.len() {
                                assert(self.chunk_seq()[a] == before[a]);
                                if before[a].coord == coord {
                                    assert(0 <= a < before.len() && before[a].coord == coord);
                                }
                            } else {
                                assert(self.chunk_seq()[a] == before[a] && self.chunk_seq()[b] == before[b]);
                            }
                        }
                        assert forall|t: int| 0 <= t < self.chunk_seq().len() implies chunk_generated(self.layout_config(), #[trigger] self.chunk_seq()[t]) by {
                            if t < before.len() {
                                assert(self.chunk_seq()[t] == before[t]);
                            }
                        }
                        assert forall|c: ChunkCoord| #[trigger] self.has_chunk(c) <==> old(self).has_chunk(c) || exists|m: int| 0 <= m < n + 1 && around@[m] == c by {
                            if self.has_chunk(c) {
                                let t = choose|t: int| 0 <= t < self.chunk_seq().len() && (#[trigger] self.chunk_seq()[t]).coord == c;
                                if t < before.len() {
                                    assert(before[t] == self.chunk_seq()[t]);
                                    assert(exists|t2: int| 0 <= t2 < before.len() && (#[trigger] before[t2]).coord == c);
                                    if exists|m: int| 0 <= m < n && around@[m] == c {
                                        let m = choose|m: int| 0 <= m < n && around@[m] == c;
                                        assert(0 <= m < n + 1 && around@[m] == c);
                                    }
                                } else {
                                    assert(around@[n as int] == c);
                                }
                            }
                            if old(self).has_chunk(c) {
                                assert(exists|t2: int| 0 <= t2 < before.len() && (#[trigger] before[t2]).coord == c);
                                let t = choose|t: int| 0 <= t < before.len() && (#[trigger] before[t]).coord == c;
                                assert(self.chunk_seq()[t] == before[t]);
                            }
                            if exists|m: int| 0 <= m < n + 1 && around@[m] == c {
                                let m = choose|m: int| 0 <= m < n + 1 && around@[m] == c;
                                if m < n {
                                    assert(exists|m2: int| 0 <= m2 < n && around@[m2] == c);
                                    assert(exists|t2: int| 0 <= t2 < before.len() && (#[trigger] before[t2]).coord == c);
                                    let t = choose|t: int| 0 <= t < before.len() && (#[trigger] before[t]).coord == c;
                                    assert(self.chunk_seq()[t] == before[t]);
                                } else {
                                    assert(self.chunk_seq()[before.len() as int].coord == c);
                                }
                            }
                        }
                    }
                },
            }
            n += 1;
        }
        proof {
            assert forall|c: ChunkCoord| #[trigger] self.has_chunk(c) <==> old(self).has_chunk(c) || is_around(center, radius as int, c) by {
                if is_around(center, radius as int, c) {
                    let i = c.x - (center.x - radius);
                    let j = c.y - (center.y - radius);
                    let k = c.z - (center.z - radius);
                    assert(0 <= (k * side + j) * side + i < side * side * side) by (nonlinear_arith)
                        requires 0 <= i < side, 0 <= j < side, 0 <= k < side;
                    assert(around@[(k * side + j) * side + i] == c);
                }
                if exists|m: int| 0 <= m < n && around@[m] == c {
                    let m = choose|m: int| 0 <= m < n && around@[m] == c;
                    let mm = m;
                    let i = mm % side;
                    let q = mm / side;
                    let j = q % side;
                    let k = q / side;
                    assert(mm == (k * side + j) * side + i && 0 <= i < side && 0 <= j < side && 0 <= k < side) by (nonlinear_arith)
                        requires
                            0 <= mm < side * side * side,
                            side > 0,
                            i == mm % side,
                            q == mm / side,
                            j == q % side,
                            k == q / side,
                    {
                        vstd::arithmetic::div_mod::lemma_fundamental_div_mod(mm, side);
                        vstd::arithmetic::div_mod::lemma_fundamental_div_mod(q, side);
                    }
                    assert(around@[(k * side + j) * side + i] == c);
                }
            }
        }
        generated
    }
}

} // verus!
