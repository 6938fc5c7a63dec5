use vstd::prelude::*;

verus! {

/// A height map, row by row; a cell that is not a digit has height `u32::MAX`.
pub type Grid = Vec<Vec<u32>>;

/// Reads a rectangular height map. No result where the lines differ in length.
pub fn parse(input: &str) -> (r: Option<(Grid, usize)>)
    ensures
        r matches Some((g, w)) ==> shaped(g@, g.len(), w),
{
    let t = input.as_bytes();
    let mut grid: Grid = Vec::new();
    let mut line: Vec<u32> = Vec::new();
    let mut width: usize = 0;
    for i in 0..t.len()
        invariant
            forall|r: int| 0 <= r < grid.len() ==> (#[trigger] grid@[r]).len() == width,
    {
        let b = t[i];
        if b == 10 {
            if grid.len() == 0 {
                width = line.len();
            } else if line.len() != width {
                return None;
            }
            grid.push(line);
            line = Vec::new();
        } else {
            line.push(if 48 <= b && b <= 57 {
                (b - 48) as u32
            } else {
                u32::MAX
            });
        }
    }
    if line.len() > 0 {
        if grid.len() == 0 {
            width = line.len();
        } else if line.len() != width {
            return None;
        }
        grid.push(line);
    }
    Some((grid, width))
}

/// The cell one step from `(r, c)` in direction `d` (up, down, left,
/// right), if it is on the map.
fn neighbour(rows: usize, w: usize, r: usize, c: usize, d: u8) -> (n: Option<(usize, usize)>)
    requires
        r < rows,
        c < w,
    ensures
        n matches Some((a, b)) ==> a < rows && b < w,
{
    if d == 0 {
        if r == 0 {
            None
        } else {
            Some((r - 1, c))
        }
    } else if d == 1 {
        if r + 1 >= rows {
            None
        } else {
            Some((r + 1, c))
        }
    } else if d == 2 {
        if c == 0 {
            None
        } else {
            Some((r, c - 1))
        }
    } else {
        if c + 1 >= w {
            None
        } else {
            Some((r, c + 1))
        }
    }
}

pub open spec fn shaped<T>(g: Seq<Vec<T>>, rows: usize, w: usize) -> bool {
    g.len() == rows && forall|r: int| 0 <= r < rows ==> (#[trigger] g[r]).len() == w
}

/// The grid that marks the single cell `(tr, tc)`.
fn start_grid(rows: usize, w: usize, tr: usize, tc: usize) -> (g: Vec<Vec<bool>>)
    ensures
        shaped(g@, rows, w),
{
    let mut g: Vec<Vec<bool>> = Vec::new();
    for r in 0..rows
        invariant
            g.len() == r,
            forall|k: int| 0 <= k < r ==> (#[trigger] g@[k]).len() == w,
    {
        let mut row: Vec<bool> = Vec::new();
        for c in 0..w
            invariant
                row.len() == c,
        {
            row.push(r == tr && c == tc);
        }
        g.push(row);
    }
    g
}

/// The cells of height `level - 1` next to a marked cell of height `level`.
fn step_down(g: &Grid, reach: &Vec<Vec<bool>>, rows: usize, w: usize, level: u32) -> (next: Vec<Vec<bool>>)
    requires
        shaped(g@, rows, w),
        shaped(reach@, rows, w),
        level >= 1,
    ensures
        shaped(next@, rows, w),
{
    let mut next: Vec<Vec<bool>> = Vec::new();
    for r in 0..rows
        invariant
            shaped(g@, rows, w),
            shaped(reach@, rows, w),
            level >= 1,
            next.len() == r,
            forall|k: int| 0 <= k < r ==> (#[trigger] next@[k]).len() == w,
    {
        let mut row: Vec<bool> = Vec::new();
        for c in 0..w
            invariant
                shaped(g@, rows, w),
                shaped(reach@, rows, w),
                level >= 1,
                r < rows,
                row.len() == c,
        {
            let mut hit = false;
            if g[r][c] == level - 1 {
                for d in 0..4u8
                    invariant
                        shaped(g@, rows, w),
                        shaped(reach@, rows, w),
                        r < rows,
                        c < w,
                {
                    match neighbour(rows, w, r, c, d) {
                        Some((a, b)) => {
                            if reach[a][b] && g[a][b] == level {
                                hit = true;
                            }
                        },
                        None => {},
                    }
                }
            }
            row.push(hit);
        }
        next.push(row);
    }
    next
}

/// The number of path counts: each cell of height `level` gets the sum of
/// the counts of its neighbours of height `level - 1`.
fn step_up(g: &Grid, ways: &Vec<Vec<u64>>, rows: usize, w: usize, level: u32) -> (next: Option<Vec<Vec<u64>>>)
    requires
        shaped(g@, rows, w),
        shaped(ways@, rows, w),
        level >= 1,
    ensures
        next matches Some(n) ==> shaped(n@, rows, w),
{
    let mut next: Vec<Vec<u64>> = Vec::new();
    for r in 0..rows
        invariant
            shaped(g@, rows, w),
            shaped(ways@, rows, w),
            level >= 1,
            next.len() == r,
            forall|k: int| 0 <= k < r ==> (#[trigger] next@[k]).len() == w,
    {
        let mut row: Vec<u64> = Vec::new();
        for c in 0..w
            invariant
                shaped(g@, rows, w),
                shaped(ways@, rows, w),
                level >= 1,
                r < rows,
                row.len() == c,
        {
            let mut sum: u64 = 0;
            if g[r][c] == level {
                for d in 0..4u8
                    invariant
                        shaped(g@, rows, w),
                        shaped(ways@, rows, w),
                        level >= 1,
                        r < rows,
                        c < w,
                {
                    match neighbour(rows, w, r, c, d) {
                        Some((a, b)) => {
                            if g[a][b] == level - 1 {
                                if ways[a][b] > u64::MAX - sum {
                                    return None;
                                }
                                sum = sum + ways[a][b];
                            }
                        },
                        None => {},
                    }
                }
            }
            row.push(sum);
        }
        next.push(row);
    }
    Some(next)
}

/// The sum over trailheads (height 0) of the number of height-9 cells each
/// reaches by steps that climb by one. No result where the map is not
/// rectangular or the sum does not fit.
pub fn handle_puzzle1(input: &str) -> (r: Option<u64>) {
    let (g, w) = match parse(input) {
        Some(p) => p,
        None => {
            return None;
        },
    };
    let rows = g.len();
    let mut total: u64 = 0;
    for tr in 0..rows
        invariant
            shaped(g@, rows, w),
    {
        for tc in 0..w
            invariant
                shaped(g@, rows, w),
                tr < rows,
        {
            if g[tr][tc] == 9 {
                let mut reach = start_grid(rows, w, tr, tc);
                let mut level: u32 = 9;
                while level > 0
                    invariant
                        shaped(g@, rows, w),
                        shaped(reach@, rows, w),
                    decreases level,
                {
                    reach = step_down(&g, &reach, rows, w, level);
                    level = level - 1;
                }
                for r in 0..rows
                    invariant
                        shaped(reach@, rows, w),
                {
                    for c in 0..w
                        invariant
                            shaped(reach@, rows, w),
                            r < rows,
                    {
                        if reach[r][c] {
                            if total == u64::MAX {
                                return None;
                            }
                            total = total + 1;
                        }
                    }
                }
            }
        }
    }
    Some(total)
}

/// The number of distinct paths from a trailhead (height 0) to a height-9
/// cell by steps that climb by one. No result where the map is not
/// rectangular or the count does not fit.
pub fn handle_puzzle2(input: &str) -> (r: Option<u64>) {
    let (g, w) = match parse(input) {
        Some(p) => p,
        None => {
            return None;
        },
    };
    let rows = g.len();
    let mut ways: Vec<Vec<u64>> = Vec::new();
    for r in 0..rows
        invariant
            shaped(g@, rows, w),
            ways.len() == r,
            forall|k: int| 0 <= k < r ==> (#[trigger] ways@[k]).len() == w,
    {
        let mut row: Vec<u64> = Vec::new();
        for c in 0..w
            invariant
                shaped(g@, rows, w),
                r < rows,
                row.len() == c,
        {
            row.push(if g[r][c] == 0 {
                1
            } else {
                0
            });
        }
        ways.push(row);
    }
    for level in 1..10u32
        invariant
            shaped(g@, rows, w),
            shaped(ways@, rows, w),
    {
        ways = match step_up(&g, &ways, rows, w, level) {
            Some(n) => n,
            None => {
                return None;
            },
        };
    }
    let mut total: u64 = 0;
    for r in 0..rows
        invariant
            shaped(g@, rows, w),
            shaped(ways@, rows, w),
    {
        for c in 0..w
            invariant
                shaped(g@, rows, w),
                shaped(ways@, rows, w),
                r < rows,
        {
            if g[r][c] == 9 {
                if ways[r][c] > u64::MAX - total {
                    return None;
                }
                total = total + ways[r][c];
            }
        }
    }
    Some(total)
}

} // verus!
