use vstd::prelude::*;

verus! {

/// Every row of the garden has `w` plots.
pub open spec fn shaped(g: Seq<Vec<u8>>, w: usize) -> bool {
    forall|r: int| 0 <= r < g.len() ==> (#[trigger] g[r]).len() == w
}

/// Reads the garden map. No result where the lines differ in length.
pub fn parse(input: &str) -> (r: Option<(Vec<Vec<u8>>, usize)>)
    ensures
        r matches Some((g, w)) ==> shaped(g@, w),
{
    let t = input.as_bytes();
    let mut grid: Vec<Vec<u8>> = Vec::new();
    let mut line: Vec<u8> = Vec::new();
    let mut width: usize = 0;
    for i in 0..t.len()
        invariant
            shaped(grid@, width),
    {
        if t[i] == 10 {
            if grid.len() == 0 {
                width = line.len();
            } else if line.len() != width {
                return None;
            }
            if line.len() > 0 {
                grid.push(line);
            }
            line = Vec::new();
        } else {
            line.push(t[i]);
        }
    }
    if line.len() > 0 {
        if grid.len() == 0 {
            width = line.len();
        } else if line.len() != width {
            return None;
        }
        grid.push(line);
    }
    Some((grid, width))
}

/// The plot at `(r + dr, c + dc)` exists and grows plant `p`.
fn same_plant(g: &Vec<Vec<u8>>, w: usize, r: usize, c: usize, dr: u8, dc: u8, p: u8) -> (b: bool)
    requires
        shaped(g@, w),
{
    let rr = if dr == 0 {
        if r == 0 {
            return false;
        }
        r - 1
    } else if dr == 1 {
        r
    } else {
        if r >= g.len() || r + 1 >= g.len() {
            return false;
        }
        r + 1
    };
    let cc = if dc == 0 {
        if c == 0 {
            return false;
        }
        c - 1
    } else if dc == 1 {
        c
    } else {
        if c >= w || c + 1 >= w {
            return false;
        }
        c + 1
    };
    if rr >= g.len() || cc >= w {
        return false;
    }
    g[rr][cc] == p
}

/// The number of corners of the region at plot `(r, c)`: each convex or
/// concave corner starts a side.
fn corners(g: &Vec<Vec<u8>>, w: usize, r: usize, c: usize, p: u8) -> (n: u64)
    requires
        shaped(g@, w),
    ensures
        n <= 4,
{
    let mut n: u64 = 0;
    for k in 0..4u8
        invariant
            shaped(g@, w),
            n <= k,
    {
        let dr: u8 = if k < 2 { 0 } else { 2 };
        let dc: u8 = if k % 2 == 0 { 0 } else { 2 };
        let a = same_plant(g, w, r, c, dr, 1, p);
        let b = same_plant(g, w, r, c, 1, dc, p);
        let d = same_plant(g, w, r, c, dr, dc, p);
        if (!a && !b) || (a && b && !d) {
            n = n + 1;
        }
    }
    n
}

/// The position of plot `(r, c)` in a row-major grid of width `w`.
fn idx(r: usize, c: usize, w: usize, h: usize) -> (i: usize)
    requires
        r < h,
        c < w,
        w * h <= usize::MAX,
    ensures
        i < w * h,
{
    assert(r * w + c < w * h && r * w + c <= usize::MAX) by (nonlinear_arith)
        requires
            r < h,
            c < w,
            w * h <= usize::MAX,
    ;
    r * w + c
}

/// The price of fencing every region: the sum of area times perimeter, or,
/// with `by_sides`, of area times number of sides. No result where the map
/// does not parse or the price does not fit.
fn price(input: &str, by_sides: bool) -> (r: Option<u64>) {
    let (g, w) = match parse(input) {
        Some(p) => p,
        None => {
            return None;
        },
    };
    let h = g.len();
    if w == 0 || h == 0 {
        return Some(0);
    }
    if w > usize::MAX / h {
        return None;
    }
    assert(w * h <= usize::MAX) by (nonlinear_arith)
        requires
            w <= usize::MAX / h,
            h > 0,
    ;
    let n = w * h;
    let mut seen: Vec<bool> = Vec::new();
    for k in 0..n
        invariant
            seen.len() == k,
    {
        seen.push(false);
    }
    let mut total: u64 = 0;
    for r0 in 0..h
        invariant
            shaped(g@, w),
            h == g.len(),
            n == w * h,
            w * h <= usize::MAX,
            seen.len() == n,
    {
        for c0 in 0..w
            invariant
                shaped(g@, w),
                h == g.len(),
                n == w * h,
                w * h <= usize::MAX,
                seen.len() == n,
                r0 < h,
        {
            if !seen[idx(r0, c0, w, h)] {
                let p = g[r0][c0];
                let mut area: u64 = 0;
                let mut fence: u64 = 0;
                let mut stack: Vec<(usize, usize)> = vec![(r0, c0)];
                let s0 = idx(r0, c0, w, h);
                seen.set(s0, true);
                let mut budget: usize = n;
                while stack.len() > 0 && budget > 0
                    invariant
                        shaped(g@, w),
                        h == g.len(),
                        n == w * h,
                        w * h <= usize::MAX,
                        seen.len() == n,
                        forall|q: int| 0 <= q < stack.len() ==> (#[trigger] stack@[q]).0 < h && stack@[q].1 < w,
                    decreases budget,
                {
                    budget = budget - 1;
                    let (r, c) = stack.pop().unwrap();
                    if area == u64::MAX {
                        return None;
                    }
                    area = area + 1;
                    let add = if by_sides {
                        corners(&g, w, r, c, p)
                    } else {
                        let mut edges: u64 = 0;
                        for k in 0..4u8
                            invariant
                                shaped(g@, w),
                                edges <= k,
                        {
                            let (dr, dc): (u8, u8) = if k == 0 {
                                (0, 1)
                            } else if k == 1 {
                                (2, 1)
                            } else if k == 2 {
                                (1, 0)
                            } else {
                                (1, 2)
                            };
                            if !same_plant(&g, w, r, c, dr, dc, p) {
                                edges = edges + 1;
                            }
                        }
                        edges
                    };
                    if add > u64::MAX - fence {
                        return None;
                    }
                    fence = fence + add;
                    for k in 0..4u8
                        invariant
                            shaped(g@, w),
                            h == g.len(),
                            n == w * h,
                            w * h <= usize::MAX,
                            seen.len() == n,
                            r < h,
                            c < w,
                            forall|q: int| 0 <= q < stack.len() ==> (#[trigger] stack@[q]).0 < h && stack@[q].1 < w,
                    {
                        let next = if k == 0 && r > 0 {
                            Some((r - 1, c))
                        } else if k == 1 && r + 1 < h {
                            Some((r + 1, c))
                        } else if k == 2 && c > 0 {
                            Some((r, c - 1))
                        } else if k == 3 && c + 1 < w {
                            Some((r, c + 1))
                        } else {
                            None
                        };
                        match next {
                            Some((a, b)) => {
                                let q = idx(a, b, w, h);
                                if !seen[q] && g[a][b] == p {
                                    seen.set(q, true);
                                    stack.push((a, b));
                                }
                            },
                            None => {},
                        }
                    }
                }
                let area_wide = area as u128;
                let fence_wide = fence as u128;
                assert(area_wide * fence_wide <= u128::MAX) by (nonlinear_arith)
                    requires
                        area_wide <= u64::MAX,
                        fence_wide <= u64::MAX,
                ;
                let cost = area_wide * fence_wide;
                if cost > (u64::MAX - total) as u128 {
                    return None;
                }
                total = total + cost as u64;
            }
        }
    }
    Some(total)
}

/// The fence price by area times perimeter.
pub fn handle_puzzle1(input: &str) -> (r: Option<u64>) {
    price(input, false)
}

/// The fence price by area times number of sides.
pub fn handle_puzzle2(input: &str) -> (r: Option<u64>) {
    price(input, true)
}

pub open spec fn has_point(points: Seq<(i64, i64)>, x: int, y: int) -> bool {
    exists|k: int| 0 <= k < points.len() && points[k].0 == x && points[k].1 == y
}

/// The point `(x, y)` starts a side in the diagonal direction `(dx, dy)`:
/// a convex corner (neither neighbour towards it is in the region) or a
/// concave one (both are, the diagonal neighbour is not).
pub open spec fn corner(points: Seq<(i64, i64)>, x: int, y: int, dx: int, dy: int) -> bool {
    let a = has_point(points, x + dx, y);
    let b = has_point(points, x, y + dy);
    let d = has_point(points, x + dx, y + dy);
    (!a && !b) || (a && b && !d)
}

pub open spec fn corners_at(points: Seq<(i64, i64)>, x: int, y: int) -> nat {
    (if corner(points, x, y, -1, -1) { 1nat } else { 0nat }) + (if corner(points, x, y, -1, 1) {
        1nat
    } else {
        0nat
    }) + (if corner(points, x, y, 1, -1) { 1nat } else { 0nat }) + (if corner(points, x, y, 1, 1) {
        1nat
    } else {
        0nat
    })
}

/// The corners of the first `n` points, counted.
pub open spec fn side_count(points: Seq<(i64, i64)>, n: int) -> nat
    decreases n,
{
    if n <= 0 {
        0
    } else {
        side_count(points, n - 1) + corners_at(points, points[n - 1].0 as int, points[n - 1].1 as int)
    }
}

fn contains_point(points: &Vec<(i64, i64)>, x: i64, y: i64) -> (r: bool)
    ensures
        r == has_point(points@, x as int, y as int),
{
    for k in 0..points.len()
        invariant
            forall|q: int| 0 <= q < k ==> !(points@[q].0 == x && points@[q].1 == y),
    {
        if points[k].0 == x && points[k].1 == y {
            return true;
        }
    }
    false
}

/// The number of sides of a region given as its set of points: one per
/// convex or concave corner.
pub fn get_num_sides(points: &Vec<(i64, i64)>) -> (r: Option<u64>)
    requires
        forall|k: int|
            0 <= k < points.len() ==> i64::MIN < (#[trigger] points@[k]).0 < i64::MAX && i64::MIN
                < points@[k].1 < i64::MAX,
    ensures
        r matches Some(n) ==> n == side_count(points@, points@.len() as int),
        points.len() <= u64::MAX / 4 ==> r == Some(side_count(points@, points@.len() as int) as u64),
{
    let mut sides: u64 = 0;
    for k in 0..points.len()
        invariant
            forall|q: int|
                0 <= q < points.len() ==> i64::MIN < (#[trigger] points@[q]).0 < i64::MAX && i64::MIN
                    < points@[q].1 < i64::MAX,
            sides == side_count(points@, k as int),
            sides <= 4 * k,
    {
        let (x, y) = points[k];
        let mut here: u64 = 0;
        for d in 0..4u8
            invariant
                i64::MIN < x < i64::MAX,
                i64::MIN < y < i64::MAX,
                here <= d,
                here == (if d > 0 && corner(points@, x as int, y as int, -1, -1) { 1int } else { 0int })
                    + (if d > 1 && corner(points@, x as int, y as int, -1, 1) { 1int } else { 0int })
                    + (if d > 2 && corner(points@, x as int, y as int, 1, -1) { 1int } else { 0int })
                    + (if d > 3 && corner(points@, x as int, y as int, 1, 1) { 1int } else { 0int }),
        {
            let dx: i64 = if d < 2 { -1 } else { 1 };
            let dy: i64 = if d % 2 == 0 { -1 } else { 1 };
            let a = contains_point(points, x + dx, y);
            let b = contains_point(points, x, y + dy);
            let diag = contains_point(points, x + dx, y + dy);
            assert(((!a && !b) || (a && b && !diag)) == corner(points@, x as int, y as int, dx as int, dy as int));
            if (!a && !b) || (a && b && !diag) {
                here = here + 1;
            }
        }
        assert(here == corners_at(points@, x as int, y as int));
        assert(here <= 4);
        if here > u64::MAX - sides {
            assert(points.len() > u64::MAX / 4);
            return None;
        }
        sides = sides + here;
    }
    Some(sides)
}

} // verus!
