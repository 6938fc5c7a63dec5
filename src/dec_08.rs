use vstd::prelude::*;

verus! {

/// The point `(x, y)` lies on a grid of the given width and height.
pub fn within_boundary(p: (i32, i32), width: i32, height: i32) -> (r: bool)
    ensures
        r == (0 <= p.0 < width && 0 <= p.1 < height),
{
    let (x, y) = p;
    x >= 0 && x < width && y >= 0 && y < height
}

/// An antenna: its frequency byte and its column and row.
pub type Antenna = (u8, i64, i64);

/// The antennas of the map, and its width and height. No result where a
/// line's length differs from the first one's, or the map is too large.
pub fn load_input(input: &str) -> (r: Option<(Vec<Antenna>, i64, i64)>)
    ensures
        r matches Some((ants, w, h)) ==> 0 <= w <= i32::MAX && 0 <= h <= i32::MAX && forall|k: int|
            0 <= k < ants.len() ==> 0 <= (#[trigger] ants@[k]).1 < w && 0 <= ants@[k].2 < h,
{
    let t = input.as_bytes();
    if t.len() > i32::MAX as usize {
        return None;
    }
    let mut ants: Vec<Antenna> = Vec::new();
    let mut width: i64 = -1;
    let mut row: i64 = 0;
    let mut col: i64 = 0;
    for i in 0..t.len()
        invariant
            t.len() <= i32::MAX,
            0 <= row <= i,
            0 <= col <= i,
            row + col <= i,
            -1 <= width <= i,
    {
        let b = t[i];
        if b == 10 {
            if width < 0 {
                width = col;
            } else if col != width {
                return None;
            }
            row = row + 1;
            col = 0;
        } else {
            if width >= 0 && col >= width {
                return None;
            }
            if b != 46 {
                ants.push((b, col, row));
            }
            col = col + 1;
        }
    }
    if width < 0 {
        width = col;
    } else if col != 0 && col != width {
        return None;
    }
    let height = if col == 0 {
        row
    } else {
        row + 1
    };
    assert(0 <= width <= i32::MAX && 0 <= height <= i32::MAX);
    for k in 0..ants.len()
        invariant
            0 <= width <= i32::MAX,
            0 <= height <= i32::MAX,
            forall|j: int| 0 <= j < k ==> 0 <= (#[trigger] ants@[j]).1 < width && 0 <= ants@[j].2 < height,
    {
        let (_, x, y) = ants[k];
        if !(0 <= x && x < width && 0 <= y && y < height) {
            return None;
        }
    }
    Some((ants, width, height))
}

fn inside(x: i64, y: i64, w: i64, h: i64) -> (r: bool)
    requires
        0 <= w <= i32::MAX,
        0 <= h <= i32::MAX,
    ensures
        r == (0 <= x < w && 0 <= y < h),
{
    if x < 0 || x > i32::MAX as i64 || y < 0 || y > i32::MAX as i64 {
        return false;
    }
    within_boundary((x as i32, y as i32), w as i32, h as i32)
}

fn add_point(points: &mut Vec<(i64, i64)>, p: (i64, i64))
    ensures
        final(points)@.contains(p),
        forall|q: (i64, i64)| old(points)@.contains(q) ==> final(points)@.contains(q),
        forall|q: (i64, i64)| #[trigger] final(points)@.contains(q) ==> old(points)@.contains(q) || q == p,
{
    for k in 0..points.len()
        invariant
            forall|j: int| 0 <= j < k ==> points@[j] != p,
    {
        if points[k].0 == p.0 && points[k].1 == p.1 {
            return;
        }
    }
    let ghost before = points@;
    points.push(p);
    proof {
        assert(points@[points.len() - 1] == p);
        assert forall|q: (i64, i64)| before.contains(q) implies points@.contains(q) by {
            let j = choose|j: int| 0 <= j < before.len() && before[j] == q;
            assert(points@[j] == q);
        }
        assert forall|q: (i64, i64)| #[trigger] points@.contains(q) implies before.contains(q) || q == p by {
            let j = choose|j: int| 0 <= j < points.len() && points@[j] == q;
            if j < before.len() {
                assert(before[j] == q);
            }
        }
    }
}

/// The antinodes of the map: for each pair of antennas of one frequency,
/// the points one step beyond each of them along their line. With
/// `harmonics`, every point beyond them along the line, and every antenna
/// of a frequency that has more than two.
fn antinodes(input: &str, harmonics: bool) -> (r: Option<u32>) {
    let (ants, w, h) = match load_input(input) {
        Some(x) => x,
        None => {
            return None;
        },
    };
    let n = ants.len();
    let mut points: Vec<(i64, i64)> = Vec::new();
    for i in 0..n
        invariant
            n == ants.len(),
            0 <= w <= i32::MAX,
            0 <= h <= i32::MAX,
            forall|k: int| 0 <= k < ants.len() ==> 0 <= (#[trigger] ants@[k]).1 < w && 0 <= ants@[k].2 < h,
    {
        let (f, x1, y1) = ants[i];
        if harmonics {
            let mut same: usize = 0;
            for j in 0..n
                invariant
                    n == ants.len(),
                    same <= j,
            {
                if ants[j].0 == f {
                    same = same + 1;
                }
            }
            if same > 2 {
                add_point(&mut points, (x1, y1));
            }
        }
        for j in i + 1..n
            invariant
                n == ants.len(),
                i < n,
                0 <= w <= i32::MAX,
                0 <= h <= i32::MAX,
                0 <= x1 < w,
                0 <= y1 < h,
                forall|k: int| 0 <= k < ants.len() ==> 0 <= (#[trigger] ants@[k]).1 < w && 0 <= ants@[k].2 < h,
        {
            let (g, x2, y2) = ants[j];
            if g == f {
                let mx = x2 - x1;
                let my = y2 - y1;
                if !harmonics {
                    if inside(x2 + mx, y2 + my, w, h) {
                        add_point(&mut points, (x2 + mx, y2 + my));
                    }
                    if inside(x1 - mx, y1 - my, w, h) {
                        add_point(&mut points, (x1 - mx, y1 - my));
                    }
                } else {
                    let mut px = x2;
                    let mut py = y2;
                    let bound = w + h;
                    let mut steps: i64 = 0;
                    while steps < bound && inside(px + mx, py + my, w, h)
                        invariant
                            0 <= w <= i32::MAX,
                            0 <= h <= i32::MAX,
                            0 <= px < w,
                            0 <= py < h,
                            -w < mx < w,
                            -h < my < h,
                            0 <= steps <= bound,
                            bound == w + h,
                        decreases bound - steps,
                    {
                        px = px + mx;
                        py = py + my;
                        add_point(&mut points, (px, py));
                        steps = steps + 1;
                    }
                    px = x1;
                    py = y1;
                    steps = 0;
                    while steps < bound && inside(px - mx, py - my, w, h)
                        invariant
                            0 <= w <= i32::MAX,
                            0 <= h <= i32::MAX,
                            0 <= px < w,
                            0 <= py < h,
                            -w < mx < w,
                            -h < my < h,
                            0 <= steps <= bound,
                            bound == w + h,
                        decreases bound - steps,
                    {
                        px = px - mx;
                        py = py - my;
                        add_point(&mut points, (px, py));
                        steps = steps + 1;
                    }
                }
            }
        }
    }
    if points.len() > u32::MAX as usize {
        return None;
    }
    Some(points.len() as u32)
}

/// The number of distinct antinodes on the map. No result where the map is
/// malformed.
pub fn handle_puzzle1(input: &str) -> (r: Option<u32>) {
    antinodes(input, false)
}

/// The number of distinct antinodes, harmonics included.
pub fn handle_puzzle2(input: &str) -> (r: Option<u32>) {
    antinodes(input, true)
}

} // verus!
