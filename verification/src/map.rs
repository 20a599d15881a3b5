//! The world map: a winding trail from the bottom of the map to the top row,
//! rivers crossing it, and clustered trees and mountains around it.
use vstd::prelude::*;

verus! {

/// What occupies one cell of the map.
#[derive(Clone, Copy, Debug, PartialEq, Eq, Structural)]
pub enum CellType {
    Grass,
    Path,
    Tree,
    Mountain,
    River,
    Bridge,
}

impl Default for CellType {
    fn default() -> (c: Self)
        ensures
            c == CellType::Grass,
    {
        CellType::Grass
    }
}

/// The first river row, the distance between river rows, and how far above the
/// bottom edge the last one must stay.
pub const RIVER_FIRST_ROW: usize = 15;
pub const RIVER_SPACING: usize = 30;
pub const RIVER_BOTTOM_MARGIN: usize = 5;

pub struct WorldMap {
    pub width: u16,
    pub height: u16,
    /// `grid[y][x]`, row 0 at the top.
    pub grid: Vec<Vec<CellType>>,
    /// The trail, cell by cell, from its start near the bottom to the top row.
    pub path_steps: Vec<(u16, u16)>,
}

pub open spec fn clamp(v: int, lo: int, hi: int) -> int {
    if v < lo {
        lo
    } else if v > hi {
        hi
    } else {
        v
    }
}

/// The column the trail heads for while it is on row `y`: the centre column
/// shifted by the row's wave offset, kept two cells away from either edge.
pub open spec fn desired_column(width: int, wave: Seq<i32>, y: int) -> int {
    clamp(width / 2 + wave[y] as int, 2, width - 3)
}

pub open spec fn trail_gap(width: int, wave: Seq<i32>, x: int, y: int) -> int {
    let d = desired_column(width, wave, y);
    if d >= x {
        d - x
    } else {
        x - d
    }
}

/// One step of the walk: sideways towards the desired column, or up a row
/// once it is reached.
pub open spec fn trail_next(width: int, wave: Seq<i32>, x: int, y: int) -> (int, int) {
    let d = desired_column(width, wave, y);
    if d > x {
        (x + 1, y)
    } else if d < x {
        (x - 1, y)
    } else {
        (x, y - 1)
    }
}

/// The cells the walk visits after `(x, y)` until it reaches row 0.
pub open spec fn trail_from(width: int, wave: Seq<i32>, x: int, y: int) -> Seq<(int, int)>
    decreases y, trail_gap(width, wave, x, y),
{
    if y <= 0 {
        Seq::empty()
    } else {
        let n = trail_next(width, wave, x, y);
        seq![n] + trail_from(width, wave, n.0, n.1)
    }
}

/// The whole trail: it starts in the centre column three rows above the
/// bottom edge and walks up to row 0.
pub open spec fn trail(width: int, height: int, wave: Seq<i32>) -> Seq<(int, int)> {
    seq![(width / 2, height - 3)] + trail_from(width, wave, width / 2, height - 3)
}

/// How many river rows a map of this height has: one every `RIVER_SPACING`
/// rows from `RIVER_FIRST_ROW`, above the bottom margin.
pub open spec fn river_count(height: int) -> int {
    let end = height - RIVER_BOTTOM_MARGIN;
    if end <= RIVER_FIRST_ROW {
        0
    } else {
        (end - RIVER_FIRST_ROW + RIVER_SPACING - 1) / RIVER_SPACING as int
    }
}

/// The row on which river `k` crosses column `x`.
pub open spec fn river_row(height: int, offsets: Seq<Seq<i32>>, k: int, x: int) -> int {
    clamp(RIVER_FIRST_ROW + RIVER_SPACING * k + offsets[k][x] as int, 0, height - 1)
}

/// Whether one of the first `rivers` rivers crosses cell `(x, y)`.
pub open spec fn is_wet(height: int, offsets: Seq<Seq<i32>>, rivers: int, x: int, y: int) -> bool {
    exists|k: int| 0 <= k < rivers && #[trigger] river_row(height, offsets, k, x) == y
}

/// A cell once the trail and the rivers are laid: water over the trail is a bridge.
pub open spec fn layered(on_trail: bool, wet: bool) -> CellType {
    if on_trail {
        if wet {
            CellType::Bridge
        } else {
            CellType::Path
        }
    } else if wet {
        CellType::River
    } else {
        CellType::Grass
    }
}

/// The terrain that grows on open grass at `(x, y)`: mountains in their
/// clusters, else trees in theirs, else grass.
pub open spec fn terrain(x: usize, y: usize) -> CellType {
    let val = ((x * 37) as usize ^ (y * 101) as usize) % 100;
    let tree_cluster = (((x / 3) * 13) as usize ^ ((y / 3) * 7) as usize) % 10;
    let mtn_cluster = (((x / 5) * 17) as usize ^ ((y / 5) * 11) as usize) % 10;
    if mtn_cluster < 2 && val < 30 {
        CellType::Mountain
    } else if tree_cluster < 3 && val < 40 {
        CellType::Tree
    } else {
        CellType::Grass
    }
}

/// The content of cell `(x, y)` of the map built from these wave and river offsets.
pub open spec fn cell_at(
    width: int,
    height: int,
    wave: Seq<i32>,
    offsets: Seq<Seq<i32>>,
    x: int,
    y: int,
) -> CellType {
    let base = layered(
        trail(width, height, wave).contains((x, y)),
        is_wet(height, offsets, river_count(height), x, y),
    );
    if base == CellType::Grass {
        terrain(x as usize, y as usize)
    } else {
        base
    }
}

pub open spec fn steps_view(steps: Seq<(u16, u16)>) -> Seq<(int, int)> {
    steps.map_values(|p: (u16, u16)| (p.0 as int, p.1 as int))
}

pub open spec fn rows_view(rows: Seq<Vec<CellType>>) -> Seq<Seq<CellType>> {
    rows.map_values(|r: Vec<CellType>| r@)
}

pub open spec fn offsets_view(offsets: Seq<Vec<i32>>) -> Seq<Seq<i32>> {
    offsets.map_values(|r: Vec<i32>| r@)
}

impl WorldMap {
    /// The trail as pairs of integers.
    pub open spec fn steps(&self) -> Seq<(int, int)> {
        steps_view(self.path_steps@)
    }

    /// The grid as rows of cells.
    pub open spec fn cells(&self) -> Seq<Seq<CellType>> {
        rows_view(self.grid@)
    }

    /// A map is well formed when the grid has `height` rows of `width` cells
    /// and the trail is not empty and stays on the grid.
    pub open spec fn wf(&self) -> bool {
        &&& self.cells().len() == self.height
        &&& forall|y: int| 0 <= y < self.height ==> #[trigger] self.cells()[y].len() == self.width
        &&& self.path_steps@.len() > 0
        &&& forall|i: int|
            0 <= i < self.path_steps@.len() ==> {
                &&& (#[trigger] self.path_steps@[i]).0 < self.width
                &&& self.path_steps@[i].1 < self.height
            }
    }
}


proof fn lemma_contains_push<A>(s: Seq<A>, a: A, b: A)
    ensures
        s.push(a).contains(b) <==> (s.contains(b) || a == b),
{
    if s.contains(b) {
        let i = choose|i: int| 0 <= i < s.len() && s[i] == b;
        assert(s.push(a)[i] == b);
    }
    if a == b {
        assert(s.push(a)[s.len() as int] == b);
    }
    if s.push(a).contains(b) {
        let i = choose|i: int| 0 <= i < s.push(a).len() && s.push(a)[i] == b;
        if i < s.len() {
            assert(s[i] == b);
        }
    }
}

/// Overwrites one cell of a grid.
fn set_cell(grid: &mut Vec<Vec<CellType>>, x: usize, y: usize, c: CellType)
    requires
        y < rows_view(old(grid)@).len(),
        x < rows_view(old(grid)@)[y as int].len(),
    ensures
        rows_view(final(grid)@) == rows_view(old(grid)@).update(
            y as int,
            rows_view(old(grid)@)[y as int].update(x as int, c),
        ),
{
    grid[y][x] = c;
    proof {
        assert(rows_view(grid@) =~= rows_view(old(grid)@).update(
            y as int,
            rows_view(old(grid)@)[y as int].update(x as int, c),
        ));
    }
}

/// A `width` by `height` grid of grass.
fn grass_grid(width: usize, height: usize) -> (grid: Vec<Vec<CellType>>)
    ensures
        rows_view(grid@).len() == height,
        forall|y: int, x: int|
            0 <= y < height && 0 <= x < width ==> rows_view(grid@)[y][x] == CellType::Grass,
        forall|y: int| 0 <= y < height ==> #[trigger] rows_view(grid@)[y].len() == width,
{
    let mut grid: Vec<Vec<CellType>> = Vec::new();
    let mut r: usize = 0;
    while r < height
        invariant
            r <= height,
            grid@.len() == r,
            forall|y: int| 0 <= y < r ==> #[trigger] grid@[y]@.len() == width,
            forall|y: int, x: int| 0 <= y < r && 0 <= x < width ==> grid@[y]@[x] == CellType::Grass,
        decreases height - r,
    {
        let mut row: Vec<CellType> = Vec::new();
        let mut c: usize = 0;
        while c < width
            invariant
                c <= width,
                row@.len() == c,
                forall|x: int| 0 <= x < c ==> row@[x] == CellType::Grass,
            decreases width - c,
        {
            row.push(CellType::Grass);
            c = c + 1;
        }
        grid.push(row);
        r = r + 1;
    }
    grid
}


/// Walks the trail over a grass grid, marking each cell it visits as path.
fn lay_trail(grid: &mut Vec<Vec<CellType>>, width: u16, height: u16, wave: &Vec<i32>) -> (steps: Vec<(u16, u16)>)
    requires
        width >= 5,
        height >= 3,
        wave@.len() == height,
        rows_view(old(grid)@).len() == height,
        forall|y: int| 0 <= y < height ==> #[trigger] rows_view(old(grid)@)[y].len() == width,
        forall|y: int, x: int|
            0 <= y < height && 0 <= x < width ==> rows_view(old(grid)@)[y][x] == CellType::Grass,
    ensures
        steps_view(steps@) == trail(width as int, height as int, wave@),
        rows_view(final(grid)@).len() == height,
        forall|y: int| 0 <= y < height ==> #[trigger] rows_view(final(grid)@)[y].len() == width,
        forall|y: int, x: int|
            0 <= y < height && 0 <= x < width ==> rows_view(final(grid)@)[y][x] == (if trail(
                width as int,
                height as int,
                wave@,
            ).contains((x, y)) {
                CellType::Path
            } else {
                CellType::Grass
            }),
{
    broadcast use vstd::seq_lib::group_seq_properties;

    let w: i64 = width as i64;
    let ghost wi = width as int;
    let ghost hi = height as int;
    let mut x: i64 = (width / 2) as i64;
    let mut y: i64 = height as i64 - 3;
    let mut steps: Vec<(u16, u16)> = Vec::new();
    steps.push((x as u16, y as u16));
    set_cell(grid, x as usize, y as usize, CellType::Path);
    proof {
        assert(steps_view(steps@) =~= seq![(x as int, y as int)]);
        assert(steps_view(steps@) + trail_from(wi, wave@, x as int, y as int) =~= trail(wi, hi, wave@));
    }
    while y > 0
        invariant
            w == width,
            wi == width,
            hi == height,
            width >= 5,
            2 <= x <= w - 3,
            0 <= y <= height - 3,
            wave@.len() == height,
            steps_view(steps@) + trail_from(wi, wave@, x as int, y as int) == trail(wi, hi, wave@),
            rows_view(grid@).len() == height,
            forall|r: int| 0 <= r < height ==> #[trigger] rows_view(grid@)[r].len() == width,
            forall|r: int, c: int|
                0 <= r < height && 0 <= c < width ==> rows_view(grid@)[r][c] == (if steps_view(
                    steps@,
                ).contains((c, r)) {
                    CellType::Path
                } else {
                    CellType::Grass
                }),
        decreases y, trail_gap(wi, wave@, x as int, y as int),
    {
        let ghost old_steps = steps_view(steps@);
        let ghost ox = x as int;
        let ghost oy = y as int;
        let off: i64 = wave[y as usize] as i64;
        let mut d: i64 = w / 2 + off;
        if d < 2 {
            d = 2;
        } else if d > w - 3 {
            d = w - 3;
        }
        assert(d == desired_column(wi, wave@, oy));
        if d > x {
            x = x + 1;
        } else if d < x {
            x = x - 1;
        } else {
            y = y - 1;
        }
        steps.push((x as u16, y as u16));
        set_cell(grid, x as usize, y as usize, CellType::Path);
        proof {
            assert((x as int, y as int) == trail_next(wi, wave@, ox, oy));
            assert(trail_from(wi, wave@, ox, oy) == seq![(x as int, y as int)] + trail_from(
                wi,
                wave@,
                x as int,
                y as int,
            ));
            assert(steps_view(steps@) =~= old_steps.push((x as int, y as int)));
            assert(steps_view(steps@) + trail_from(wi, wave@, x as int, y as int) =~= old_steps
                + trail_from(wi, wave@, ox, oy));
            assert forall|r: int, c: int|
                0 <= r < height && 0 <= c < width implies rows_view(grid@)[r][c] == (if steps_view(
                    steps@,
                ).contains((c, r)) {
                    CellType::Path
                } else {
                    CellType::Grass
                }) by {
                lemma_contains_push(old_steps, (x as int, y as int), (c, r));
            }
        }
    }
    proof {
        assert(steps_view(steps@) =~= steps_view(steps@) + trail_from(wi, wave@, x as int, y as int));
    }
    steps
}


/// River `k` has crossed `(x, y)`, counting its columns only below `cols`.
spec fn wet_partial(height: int, offsets: Seq<Seq<i32>>, k: int, cols: int, x: int, y: int) -> bool {
    is_wet(height, offsets, k, x, y) || (x < cols && river_row(height, offsets, k, x) == y)
}

/// Lays the rivers across a grid that holds only the trail on grass.
fn lay_rivers(
    grid: &mut Vec<Vec<CellType>>,
    width: u16,
    height: u16,
    offsets: &Vec<Vec<i32>>,
    Ghost(path): Ghost<Seq<(int, int)>>,
)
    requires
        height >= 5,
        offsets@.len() == river_count(height as int),
        forall|k: int| 0 <= k < offsets@.len() ==> #[trigger] offsets@[k]@.len() == width,
        rows_view(old(grid)@).len() == height,
        forall|y: int| 0 <= y < height ==> #[trigger] rows_view(old(grid)@)[y].len() == width,
        forall|y: int, x: int|
            0 <= y < height && 0 <= x < width ==> rows_view(old(grid)@)[y][x] == layered(
                path.contains((x, y)),
                false,
            ),
    ensures
        rows_view(final(grid)@).len() == height,
        forall|y: int| 0 <= y < height ==> #[trigger] rows_view(final(grid)@)[y].len() == width,
        forall|y: int, x: int|
            0 <= y < height && 0 <= x < width ==> rows_view(final(grid)@)[y][x] == layered(
                path.contains((x, y)),
                is_wet(height as int, offsets_view(offsets@), river_count(height as int), x, y),
            ),
{
    let ghost offs = offsets_view(offsets@);
    let ghost hi = height as int;
    let h: usize = height as usize;
    let w: usize = width as usize;
    let mut k: usize = 0;
    let mut base: usize = RIVER_FIRST_ROW;
    proof {
        assert forall|y: int, x: int|
            0 <= y < height && 0 <= x < width implies rows_view(grid@)[y][x] == layered(
                path.contains((x, y)),
                is_wet(hi, offs, 0, x, y),
            ) by {}
    }
    while base < h - RIVER_BOTTOM_MARGIN
        invariant
            h == height,
            w == width,
            hi == height,
            height >= 5,
            offs == offsets_view(offsets@),
            offsets@.len() == river_count(hi),
            forall|j: int| 0 <= j < offsets@.len() ==> #[trigger] offsets@[j]@.len() == width,
            base == RIVER_FIRST_ROW + RIVER_SPACING * k,
            k <= river_count(hi),
            rows_view(grid@).len() == height,
            forall|y: int| 0 <= y < height ==> #[trigger] rows_view(grid@)[y].len() == width,
            forall|y: int, x: int|
                0 <= y < height && 0 <= x < width ==> rows_view(grid@)[y][x] == layered(
                    path.contains((x, y)),
                    is_wet(hi, offs, k as int, x, y),
                ),
        decreases river_count(hi) - k,
    {
        assert(k < river_count(hi));
        let mut cx: usize = 0;
        while cx < w
            invariant
                h == height,
                w == width,
                hi == height,
                height >= 5,
                offs == offsets_view(offsets@),
                offsets@.len() == river_count(hi),
                forall|j: int| 0 <= j < offsets@.len() ==> #[trigger] offsets@[j]@.len() == width,
                base == RIVER_FIRST_ROW + RIVER_SPACING * k,
                k < river_count(hi),
                cx <= w,
                rows_view(grid@).len() == height,
                forall|y: int| 0 <= y < height ==> #[trigger] rows_view(grid@)[y].len() == width,
                forall|y: int, x: int|
                    0 <= y < height && 0 <= x < width ==> rows_view(grid@)[y][x] == layered(
                        path.contains((x, y)),
                        wet_partial(hi, offs, k as int, cx as int, x, y),
                    ),
            decreases w - cx,
        {
            assert(offsets@[k as int]@.len() == width);
            let raw: i64 = base as i64 + offsets[k][cx] as i64;
            let ry: usize = if raw < 0 {
                0
            } else if raw > (h - 1) as i64 {
                h - 1
            } else {
                raw as usize
            };
            assert(offs[k as int][cx as int] == offsets@[k as int]@[cx as int]);
            assert(ry == river_row(hi, offs, k as int, cx as int));
            let ghost before = rows_view(grid@);
            assert(rows_view(grid@)[ry as int] == grid@[ry as int]@);
            let cur = grid[ry][cx];
            assert(cur == before[ry as int][cx as int]);
            if cur == CellType::Path {
                set_cell(grid, cx, ry, CellType::Bridge);
            } else if cur == CellType::Grass {
                set_cell(grid, cx, ry, CellType::River);
            }
            proof {
                assert forall|y: int, x: int|
                    0 <= y < height && 0 <= x < width implies rows_view(grid@)[y][x] == layered(
                        path.contains((x, y)),
                        wet_partial(hi, offs, k as int, cx + 1, x, y),
                    ) by {
                    if x == cx && y == ry {
                        assert(wet_partial(hi, offs, k as int, cx + 1, x, y));
                    } else {
                        assert(rows_view(grid@)[y][x] == before[y][x]);
                        assert(wet_partial(hi, offs, k as int, cx + 1, x, y) == wet_partial(
                            hi,
                            offs,
                            k as int,
                            cx as int,
                            x,
                            y,
                        ));
                    }
                }
            }
            cx = cx + 1;
        }
        proof {
            assert forall|y: int, x: int|
                0 <= y < height && 0 <= x < width implies #[trigger] wet_partial(
                    hi,
                    offs,
                    k as int,
                    w as int,
                    x,
                    y,
                ) == is_wet(hi, offs, k + 1, x, y) by {
                if is_wet(hi, offs, k + 1, x, y) {
                    let j = choose|j: int| 0 <= j < k + 1 && #[trigger] river_row(hi, offs, j, x) == y;
                    if j < k {
                        assert(is_wet(hi, offs, k as int, x, y));
                    }
                }
                if is_wet(hi, offs, k as int, x, y) {
                    let j = choose|j: int| 0 <= j < k && #[trigger] river_row(hi, offs, j, x) == y;
                    assert(0 <= j < k + 1 && river_row(hi, offs, j, x) == y);
                }
                if x < w && river_row(hi, offs, k as int, x) == y {
                    assert(0 <= k < k + 1 && river_row(hi, offs, k as int, x) == y);
                }
            }
            assert forall|y: int, x: int|
                0 <= y < height && 0 <= x < width implies rows_view(grid@)[y][x] == layered(
                    path.contains((x, y)),
                    is_wet(hi, offs, k + 1, x, y),
                ) by {
                assert(wet_partial(hi, offs, k as int, w as int, x, y) == is_wet(hi, offs, k + 1, x, y));
            }
        }
        k = k + 1;
        base = base + RIVER_SPACING;
    }
    assert(k == river_count(hi));
}


/// The terrain for open grass at `(x, y)`.
fn terrain_at(x: usize, y: usize) -> (c: CellType)
    requires
        x < 0x10000,
        y < 0x10000,
    ensures
        c == terrain(x, y),
{
    let val = ((x * 37) ^ (y * 101)) % 100;
    let tree_cluster = (((x / 3) * 13) ^ ((y / 3) * 7)) % 10;
    let mtn_cluster = (((x / 5) * 17) ^ ((y / 5) * 11)) % 10;
    let mut c = CellType::Grass;
    if tree_cluster < 3 && val < 40 {
        c = CellType::Tree;
    }
    if mtn_cluster < 2 && val < 30 {
        c = CellType::Mountain;
    }
    c
}

/// Grows terrain on every cell of the grid that is still grass.
fn grow_terrain(grid: &mut Vec<Vec<CellType>>, width: u16, height: u16)
    requires
        rows_view(old(grid)@).len() == height,
        forall|y: int| 0 <= y < height ==> #[trigger] rows_view(old(grid)@)[y].len() == width,
    ensures
        rows_view(final(grid)@).len() == height,
        forall|y: int| 0 <= y < height ==> #[trigger] rows_view(final(grid)@)[y].len() == width,
        forall|y: int, x: int|
            0 <= y < height && 0 <= x < width ==> rows_view(final(grid)@)[y][x] == (if rows_view(
                old(grid)@,
            )[y][x] == CellType::Grass {
                terrain(x as usize, y as usize)
            } else {
                rows_view(old(grid)@)[y][x]
            }),
{
    let ghost start = rows_view(grid@);
    let h: usize = height as usize;
    let w: usize = width as usize;
    let mut r: usize = 0;
    while r < h
        invariant
            h == height,
            w == width,
            r <= h,
            start.len() == height,
            forall|y: int| 0 <= y < height ==> #[trigger] start[y].len() == width,
            rows_view(grid@).len() == height,
            forall|y: int| 0 <= y < height ==> #[trigger] rows_view(grid@)[y].len() == width,
            forall|y: int, x: int|
                0 <= y < height && 0 <= x < width ==> rows_view(grid@)[y][x] == (if y < r {
                    if start[y][x] == CellType::Grass {
                        terrain(x as usize, y as usize)
                    } else {
                        start[y][x]
                    }
                } else {
                    start[y][x]
                }),
        decreases h - r,
    {
        let mut c: usize = 0;
        while c < w
            invariant
                h == height,
                w == width,
                r < h,
                c <= w,
                start.len() == height,
                forall|y: int| 0 <= y < height ==> #[trigger] start[y].len() == width,
                rows_view(grid@).len() == height,
                forall|y: int| 0 <= y < height ==> #[trigger] rows_view(grid@)[y].len() == width,
                forall|y: int, x: int|
                    0 <= y < height && 0 <= x < width ==> rows_view(grid@)[y][x] == (if y < r || (y
                        == r && x < c) {
                        if start[y][x] == CellType::Grass {
                            terrain(x as usize, y as usize)
                        } else {
                            start[y][x]
                        }
                    } else {
                        start[y][x]
                    }),
            decreases w - c,
        {
            assert(rows_view(grid@)[r as int] == grid@[r as int]@);
            let cur = grid[r][c];
            if cur == CellType::Grass {
                let t = terrain_at(c, r);
                set_cell(grid, c, r, t);
            }
            c = c + 1;
        }
        r = r + 1;
    }
}

/// The rows on which the rivers of a map of this height are centred, top first.
pub fn river_rows(height: u16) -> (rows: Vec<usize>)
    ensures
        rows@.len() == river_count(height as int),
        forall|k: int| 0 <= k < rows@.len() ==> #[trigger] rows@[k] == RIVER_FIRST_ROW + RIVER_SPACING * k,
{
    let mut rows: Vec<usize> = Vec::new();
    let h: usize = height as usize;
    if h <= RIVER_BOTTOM_MARGIN {
        return rows;
    }
    let mut base: usize = RIVER_FIRST_ROW;
    while base < h - RIVER_BOTTOM_MARGIN
        invariant
            h == height,
            h > RIVER_BOTTOM_MARGIN,
            base == RIVER_FIRST_ROW + RIVER_SPACING * rows@.len(),
            rows@.len() <= river_count(height as int),
            forall|k: int| 0 <= k < rows@.len() ==> #[trigger] rows@[k] == RIVER_FIRST_ROW + RIVER_SPACING * k,
        decreases river_count(height as int) - rows@.len(),
    {
        rows.push(base);
        base = base + RIVER_SPACING;
    }
    rows
}

impl WorldMap {
    /// Builds the map: a trail walked from the centre of the row three above
    /// the bottom edge up to row 0, steered on each row `y` by `wave[y]`;
    /// `river_count(height)` rivers, river `k` crossing column `x` at row
    /// `river_rows(height)[k] + rivers[k][x]` (clamped to the map), turning
    /// the trail into bridges where they cross it; and clustered trees and
    /// mountains on the remaining grass.
    pub fn new(width: u16, height: u16, wave: &Vec<i32>, rivers: &Vec<Vec<i32>>) -> (m: WorldMap)
        requires
            width >= 5,
            height >= 5,
            wave@.len() == height,
            rivers@.len() == river_count(height as int),
            forall|k: int| 0 <= k < rivers@.len() ==> #[trigger] rivers@[k]@.len() == width,
        ensures
            builds(m, width, height, wave@, offsets_view(rivers@)),
    {
        let mut grid = grass_grid(width as usize, height as usize);
        let path_steps = lay_trail(&mut grid, width, height, wave);
        let ghost path = trail(width as int, height as int, wave@);
        assert forall|y: int, x: int|
            0 <= y < height && 0 <= x < width implies rows_view(grid@)[y][x] == layered(
                path.contains((x, y)),
                false,
            ) by {}
        lay_rivers(&mut grid, width, height, rivers, Ghost(path));
        grow_terrain(&mut grid, width, height);
        let m = WorldMap { width, height, grid, path_steps };
        proof {
            lemma_trail_in_bounds(width as int, height as int, wave@);
            assert forall|i: int| 0 <= i < m.path_steps@.len() implies {
                &&& (#[trigger] m.path_steps@[i]).0 < m.width
                &&& m.path_steps@[i].1 < m.height
            } by {
                assert(m.steps()[i] == (m.path_steps@[i].0 as int, m.path_steps@[i].1 as int));
            }
        }
        m
    }
}

/// Every step of the trail lies on the map, at least two columns from either side.
pub proof fn lemma_trail_in_bounds(width: int, height: int, wave: Seq<i32>)
    requires
        width >= 5,
        height >= 3,
    ensures
        forall|i: int|
            0 <= i < trail(width, height, wave).len() ==> {
                &&& 2 <= (#[trigger] trail(width, height, wave)[i]).0 <= width - 3
                &&& 0 <= trail(width, height, wave)[i].1 <= height - 3
            },
{
    lemma_trail_from_in_bounds(width, wave, width / 2, height - 3);
}

proof fn lemma_trail_from_in_bounds(width: int, wave: Seq<i32>, x: int, y: int)
    requires
        width >= 5,
        2 <= x <= width - 3,
        0 <= y,
    ensures
        forall|i: int|
            0 <= i < trail_from(width, wave, x, y).len() ==> {
                &&& 2 <= (#[trigger] trail_from(width, wave, x, y)[i]).0 <= width - 3
                &&& 0 <= trail_from(width, wave, x, y)[i].1 <= y
            },
    decreases y, trail_gap(width, wave, x, y),
{
    if y > 0 {
        let n = trail_next(width, wave, x, y);
        lemma_trail_from_in_bounds(width, wave, n.0, n.1);
        assert forall|i: int| 0 <= i < trail_from(width, wave, x, y).len() implies {
            &&& 2 <= (#[trigger] trail_from(width, wave, x, y)[i]).0 <= width - 3
            &&& 0 <= trail_from(width, wave, x, y)[i].1 <= y
        } by {
            if i > 0 {
                assert(trail_from(width, wave, x, y)[i] == trail_from(width, wave, n.0, n.1)[i - 1]);
            }
        }
    }
}


/// Two cells are neighbours on the trail when the second is one column to the
/// side of the first, or one row above it.
pub open spec fn is_trail_step(a: (int, int), b: (int, int)) -> bool {
    ||| (b.1 == a.1 && (b.0 == a.0 + 1 || b.0 == a.0 - 1))
    ||| (b.0 == a.0 && b.1 == a.1 - 1)
}

/// The trail is connected: it starts in the centre column three rows above the
/// bottom edge, each step moves to a neighbouring cell sideways or upwards, and
/// it ends on the top row.
pub proof fn lemma_trail_connected(width: int, height: int, wave: Seq<i32>)
    requires
        width >= 5,
        height >= 3,
    ensures
        trail(width, height, wave).len() > 0,
        trail(width, height, wave)[0] == (width / 2, height - 3),
        trail(width, height, wave).last().1 == 0,
        forall|i: int|
            0 <= i < trail(width, height, wave).len() - 1 ==> is_trail_step(
                #[trigger] trail(width, height, wave)[i],
                trail(width, height, wave)[i + 1],
            ),
{
    lemma_walk_connected(width, wave, width / 2, height - 3);
}

proof fn lemma_walk_connected(width: int, wave: Seq<i32>, x: int, y: int)
    requires
        0 <= y,
    ensures
        (seq![(x, y)] + trail_from(width, wave, x, y)).last().1 == 0,
        forall|i: int|
            0 <= i < (seq![(x, y)] + trail_from(width, wave, x, y)).len() - 1 ==> is_trail_step(
                #[trigger] (seq![(x, y)] + trail_from(width, wave, x, y))[i],
                (seq![(x, y)] + trail_from(width, wave, x, y))[i + 1],
            ),
    decreases y, trail_gap(width, wave, x, y),
{
    let s = seq![(x, y)] + trail_from(width, wave, x, y);
    if y <= 0 {
        assert(s =~= seq![(x, y)]);
    } else {
        let n = trail_next(width, wave, x, y);
        lemma_walk_connected(width, wave, n.0, n.1);
        let t = seq![n] + trail_from(width, wave, n.0, n.1);
        assert(trail_from(width, wave, x, y) == t);
        assert(s =~= seq![(x, y)] + t);
        assert forall|i: int| 0 <= i < s.len() - 1 implies is_trail_step(#[trigger] s[i], s[i + 1]) by {
            if i > 0 {
                assert(s[i] == t[i - 1]);
                assert(s[i + 1] == t[i]);
            }
        }
    }
}

/// On a built map, a cell shows path or bridge exactly when the trail passes
/// through it, and a bridge exactly where a river crosses the trail.
pub proof fn lemma_trail_drawn(
    width: int,
    height: int,
    wave: Seq<i32>,
    offsets: Seq<Seq<i32>>,
    x: int,
    y: int,
)
    ensures
        (cell_at(width, height, wave, offsets, x, y) == CellType::Path || cell_at(
            width,
            height,
            wave,
            offsets,
            x,
            y,
        ) == CellType::Bridge) <==> trail(width, height, wave).contains((x, y)),
        cell_at(width, height, wave, offsets, x, y) == CellType::Bridge <==> (trail(
            width,
            height,
            wave,
        ).contains((x, y)) && is_wet(height, offsets, river_count(height), x, y)),
{
}


/// Where the cells of the walk after `(x, y)` lie: on higher rows, or on row
/// `y` strictly past `x` towards the column the walk heads for.
spec fn ahead_of(width: int, wave: Seq<i32>, x: int, y: int, c: (int, int)) -> bool {
    let d = desired_column(width, wave, y);
    c.1 < y || (c.1 == y && (if d > x {
        x < c.0 <= d
    } else {
        d <= c.0 < x
    }))
}

proof fn lemma_walk_ahead(width: int, wave: Seq<i32>, x: int, y: int)
    ensures
        forall|i: int|
            0 <= i < trail_from(width, wave, x, y).len() ==> ahead_of(
                width,
                wave,
                x,
                y,
                #[trigger] trail_from(width, wave, x, y)[i],
            ),
    decreases y, trail_gap(width, wave, x, y),
{
    if y > 0 {
        let n = trail_next(width, wave, x, y);
        lemma_walk_ahead(width, wave, n.0, n.1);
        let t = trail_from(width, wave, x, y);
        assert forall|i: int| 0 <= i < t.len() implies ahead_of(width, wave, x, y, #[trigger] t[i]) by {
            if i > 0 {
                let c = trail_from(width, wave, n.0, n.1)[i - 1];
                assert(t[i] == c);
                assert(ahead_of(width, wave, n.0, n.1, c));
            }
        }
    }
}

/// Some cell of the sequence lies on row `r`.
pub open spec fn crosses_row(s: Seq<(int, int)>, r: int) -> bool {
    exists|i: int| 0 <= i < s.len() && (#[trigger] s[i]).1 == r
}

proof fn lemma_walk_unique_and_complete(width: int, wave: Seq<i32>, x: int, y: int)
    requires
        0 <= y,
    ensures
        (seq![(x, y)] + trail_from(width, wave, x, y)).no_duplicates(),
        forall|r: int| 0 <= r <= y ==> #[trigger] crosses_row(seq![(x, y)] + trail_from(width, wave, x, y), r),
    decreases y, trail_gap(width, wave, x, y),
{
    let s = seq![(x, y)] + trail_from(width, wave, x, y);
    if y <= 0 {
        assert(s =~= seq![(x, y)]);
        assert(s[0].1 == 0);
    } else {
        let n = trail_next(width, wave, x, y);
        lemma_walk_unique_and_complete(width, wave, n.0, n.1);
        lemma_walk_ahead(width, wave, x, y);
        let t = seq![n] + trail_from(width, wave, n.0, n.1);
        assert(trail_from(width, wave, x, y) == t);
        assert(s =~= seq![(x, y)] + t);
        assert forall|a: int, b: int| 0 <= a < b < s.len() implies s[a] != s[b] by {
            if a == 0 {
                assert(s[b] == t[b - 1]);
                assert(ahead_of(width, wave, x, y, trail_from(width, wave, x, y)[b - 1]));
            } else {
                assert(s[a] == t[a - 1] && s[b] == t[b - 1]);
            }
        }
        assert forall|r: int| 0 <= r <= y implies #[trigger] crosses_row(s, r) by {
            if r == y {
                assert(s[0].1 == r);
            } else {
                assert(0 <= r <= n.1);
                assert(crosses_row(t, r));
                let j = choose|j: int| 0 <= j < t.len() && (#[trigger] t[j]).1 == r;
                assert(s[j + 1] == t[j]);
            }
        }
    }
}

/// The trail never passes through the same cell twice, and it crosses every
/// row from its start three rows above the bottom edge up to the top row.
pub proof fn lemma_trail_simple(width: int, height: int, wave: Seq<i32>)
    requires
        height >= 3,
    ensures
        trail(width, height, wave).no_duplicates(),
        forall|r: int| 0 <= r <= height - 3 ==> #[trigger] crosses_row(trail(width, height, wave), r),
{
    lemma_walk_unique_and_complete(width, wave, width / 2, height - 3);
}

/// What a map built from these dimensions, wave and river offsets is: its size,
/// its trail, and each of its cells.
pub open spec fn builds(
    m: WorldMap,
    width: u16,
    height: u16,
    wave: Seq<i32>,
    offsets: Seq<Seq<i32>>,
) -> bool {
    &&& m.width == width
    &&& m.height == height
    &&& m.wf()
    &&& m.steps() == trail(width as int, height as int, wave)
    &&& forall|y: int, x: int|
        0 <= y < height && 0 <= x < width ==> m.cells()[y][x] == cell_at(
            width as int,
            height as int,
            wave,
            offsets,
            x,
            y,
        )
}

/// A map is determined by what it is built from: two maps built from the same
/// dimensions, wave and river offsets have the same trail and the same cells.
pub proof fn lemma_map_determined(
    m1: WorldMap,
    m2: WorldMap,
    width: u16,
    height: u16,
    wave: Seq<i32>,
    offsets: Seq<Seq<i32>>,
)
    requires
        builds(m1, width, height, wave, offsets),
        builds(m2, width, height, wave, offsets),
    ensures
        m1.path_steps@ == m2.path_steps@,
        m1.cells() == m2.cells(),
{
    assert(m1.path_steps@ =~= m2.path_steps@) by {
        assert(m1.steps().len() == m2.steps().len());
        assert forall|i: int| 0 <= i < m1.path_steps@.len() implies m1.path_steps@[i]
            == m2.path_steps@[i] by {
            assert(m1.steps()[i] == m2.steps()[i]);
            assert(m1.steps()[i] == (m1.path_steps@[i].0 as int, m1.path_steps@[i].1 as int));
            assert(m2.steps()[i] == (m2.path_steps@[i].0 as int, m2.path_steps@[i].1 as int));
        }
    }
    assert forall|y: int| 0 <= y < height implies m1.cells()[y] =~= m2.cells()[y] by {
        assert(m1.cells()[y].len() == width);
        assert(m2.cells()[y].len() == width);
        assert forall|x: int| 0 <= x < width implies m1.cells()[y][x] == m2.cells()[y][x] by {
            assert(m1.cells()[y][x] == cell_at(width as int, height as int, wave, offsets, x, y));
            assert(m2.cells()[y][x] == cell_at(width as int, height as int, wave, offsets, x, y));
        }
    }
    assert(m1.cells() =~= m2.cells());
}


/// Off the trail, a cell of a built map is river where some river crosses it:
/// river `k` (for `15 + 30k` above the bottom margin) crosses column `x` on row
/// `15 + 30k + offsets[k][x]`, kept on the map. Off the trail and the rivers the
/// ground grows mountains where `((x/5)*17 ^ (y/5)*11) % 10 < 2` and
/// `(x*37 ^ y*101) % 100 < 30`, else trees where `((x/3)*13 ^ (y/3)*7) % 10 < 3`
/// and `(x*37 ^ y*101) % 100 < 40`, else grass.
pub proof fn lemma_open_ground(
    m: WorldMap,
    width: u16,
    height: u16,
    wave: Seq<i32>,
    offsets: Seq<Seq<i32>>,
    x: usize,
    y: usize,
)
    requires
        builds(m, width, height, wave, offsets),
        x < width,
        y < height,
        !trail(width as int, height as int, wave).contains((x as int, y as int)),
    ensures
        (exists|k: int|
            {
                let r = 15 + 30 * k + #[trigger] offsets[k][x as int];
                &&& 0 <= k
                &&& 15 + 30 * k < height - 5
                &&& (if r < 0 {
                    0
                } else if r > height - 1 {
                    height - 1
                } else {
                    r
                }) == y
            }) ==> m.cells()[y as int][x as int] == CellType::River,
        !(exists|k: int|
            {
                let r = 15 + 30 * k + #[trigger] offsets[k][x as int];
                &&& 0 <= k
                &&& 15 + 30 * k < height - 5
                &&& (if r < 0 {
                    0
                } else if r > height - 1 {
                    height - 1
                } else {
                    r
                }) == y
            }) ==> {
            let val = ((x * 37) as usize ^ (y * 101) as usize) % 100;
            let tree = (((x / 3) * 13) as usize ^ ((y / 3) * 7) as usize) % 10;
            let mtn = (((x / 5) * 17) as usize ^ ((y / 5) * 11) as usize) % 10;
            &&& (mtn < 2 && val < 30 ==> m.cells()[y as int][x as int] == CellType::Mountain)
            &&& (!(mtn < 2 && val < 30) && tree < 3 && val < 40 ==> m.cells()[y as int][x as int]
                == CellType::Tree)
            &&& (!(mtn < 2 && val < 30) && !(tree < 3 && val < 40) ==> m.cells()[y as int][x as int]
                == CellType::Grass)
        },
{
    let h = height as int;
    let xi = x as int;
    let yi = y as int;
    assert(m.cells()[yi][xi] == cell_at(width as int, h, wave, offsets, xi, yi));
    assert(terrain(x, y) == {
        let val = ((x * 37) as usize ^ (y * 101) as usize) % 100;
        let tree = (((x / 3) * 13) as usize ^ ((y / 3) * 7) as usize) % 10;
        let mtn = (((x / 5) * 17) as usize ^ ((y / 5) * 11) as usize) % 10;
        if mtn < 2 && val < 30 {
            CellType::Mountain
        } else if tree < 3 && val < 40 {
            CellType::Tree
        } else {
            CellType::Grass
        }
    });
    if is_wet(h, offsets, river_count(h), xi, yi) {
        let k = choose|k: int| 0 <= k < river_count(h) && #[trigger] river_row(h, offsets, k, xi) == yi;
        assert(river_row(h, offsets, k, xi) == yi);
        assert(15 + 30 * k < h - 5);
        let r = 15 + 30 * k + offsets[k][xi];
        assert(0 <= k && 15 + 30 * k < height - 5 && (if r < 0 {
            0
        } else if r > height - 1 {
            height - 1
        } else {
            r
        }) == y);
    }
    if exists|k: int|
        {
            let r = 15 + 30 * k + #[trigger] offsets[k][x as int];
            &&& 0 <= k
            &&& 15 + 30 * k < height - 5
            &&& (if r < 0 {
                0
            } else if r > height - 1 {
                height - 1
            } else {
                r
            }) == y
        } {
        let k = choose|k: int|
            {
                let r = 15 + 30 * k + #[trigger] offsets[k][x as int];
                &&& 0 <= k
                &&& 15 + 30 * k < height - 5
                &&& (if r < 0 {
                    0
                } else if r > height - 1 {
                    height - 1
                } else {
                    r
                }) == y
            };
        assert(river_row(h, offsets, k, xi) == yi);
        assert(k < river_count(h));
        assert(is_wet(h, offsets, river_count(h), xi, yi));
    }
}

} // verus!
