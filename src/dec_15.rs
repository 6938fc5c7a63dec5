use vstd::prelude::*;
use vstd::string::{StrSliceExecFns, StringExecFns, StringSliceAdditionalSpecFns};

verus! {

/// A warehouse map, row by row, and the robot's moves.
pub struct Warehouse {
    pub map: Vec<Vec<u8>>,
    pub moves: Vec<u8>,
    pub robot: (usize, usize),
}

/// Every row of the map has `w` cells.
pub open spec fn shaped(g: Seq<Vec<u8>>, w: usize) -> bool {
    forall|r: int| 0 <= r < g.len() ==> (#[trigger] g[r]).len() == w
}

/// Reads the map (up to the first empty line), then the moves (`<>^v`,
/// whitespace skipped). No result where a row's length differs, the robot
/// `@` is missing, or a move is another byte.
pub fn parse(input: &str) -> (r: Option<(Warehouse, usize)>)
    ensures
        r matches Some((wh, w)) ==> shaped(wh.map@, w) && wh.robot.0 < wh.map.len() && wh.robot.1 < w,
{
    let t = input.as_bytes();
    let mut map: Vec<Vec<u8>> = Vec::new();
    let mut line: Vec<u8> = Vec::new();
    let mut width: usize = 0;
    let mut robot: Option<(usize, usize)> = None;
    let mut i: usize = 0;
    while i < t.len()
        invariant
            i <= t.len(),
            shaped(map@, width),
            robot matches Some((r, c)) ==> r < map.len() && c < width,
        decreases t.len() - i,
    {
        let b = t[i];
        i = i + 1;
        if b == 10 {
            if line.len() == 0 {
                break;
            }
            if map.len() == 0 {
                width = line.len();
            } else if line.len() != width {
                return None;
            }
            let mut at: Option<usize> = None;
            for c in 0..line.len()
                invariant
                    at matches Some(a) ==> a < line.len(),
            {
                if line[c] == 64 {
                    at = Some(c);
                }
            }
            match at {
                Some(c) => {
                    robot = Some((map.len(), c));
                },
                None => {},
            }
            map.push(line);
            line = Vec::new();
        } else {
            line.push(b);
        }
    }
    let mut moves: Vec<u8> = Vec::new();
    while i < t.len()
        invariant
            i <= t.len(),
        decreases t.len() - i,
    {
        let b = t[i];
        if b == 60 || b == 62 || b == 94 || b == 118 {
            moves.push(b);
        } else if b != 10 && b != 32 && b != 13 && b != 9 {
            return None;
        }
        i = i + 1;
    }
    match robot {
        Some(r) => Some((Warehouse { map, moves, robot: r }, width)),
        None => None,
    }
}

/// Sets cell `(r, c)` to `v`.
fn put(g: &mut Vec<Vec<u8>>, w: usize, r: usize, c: usize, v: u8)
    requires
        shaped(old(g)@, w),
        r < old(g).len(),
        c < w,
    ensures
        shaped(final(g)@, w),
        final(g).len() == old(g).len(),
        final(g)@[r as int]@[c as int] == v,
{
    let mut row = g[r].clone();
    row.set(c, v);
    g.set(r, row);
}

/// The cell one step from `(r, c)` in the direction of move `m`, if it is
/// on the map.
fn ahead(h: usize, w: usize, r: usize, c: usize, m: u8) -> (n: Option<(usize, usize)>)
    requires
        r < h,
        c < w,
    ensures
        n matches Some((a, b)) ==> a < h && b < w,
{
    if m == 94 {
        if r > 0 {
            Some((r - 1, c))
        } else {
            None
        }
    } else if m == 118 {
        if r + 1 < h {
            Some((r + 1, c))
        } else {
            None
        }
    } else if m == 60 {
        if c > 0 {
            Some((r, c - 1))
        } else {
            None
        }
    } else {
        if c + 1 < w {
            Some((r, c + 1))
        } else {
            None
        }
    }
}

/// The GPS coordinates of the cells among the first `j` of row `i` that hold `c`, summed.
pub open spec fn gps_row(row: Seq<u8>, c: u8, i: int, j: int) -> nat
    decreases j,
{
    if j <= 0 {
        0
    } else {
        gps_row(row, c, i, j - 1) + if row[j - 1] == c {
            (100 * i + j - 1) as nat
        } else {
            0
        }
    }
}

/// The GPS coordinates of the cells of the first `i` rows that hold `c`, summed.
pub open spec fn gps_sum(map: Seq<Vec<u8>>, c: u8, i: int) -> nat
    decreases i,
{
    if i <= 0 {
        0
    } else {
        gps_sum(map, c, i - 1) + gps_row(map[i - 1]@, c, i - 1, map[i - 1]@.len() as int)
    }
}

/// The sum of the GPS coordinates (100 times the row plus the column) of
/// the cells holding `c`. No result where it does not fit.
pub fn gpsm(map: &Vec<Vec<u8>>, c: u8) -> (r: Option<u64>)
    ensures
        r matches Some(s) ==> s == gps_sum(map@, c, map@.len() as int),
{
    let mut sum: u64 = 0;
    for i in 0..map.len()
        invariant
            sum == gps_sum(map@, c, i as int),
    {
        let row = &map[i];
        for j in 0..row.len()
            invariant
                row == &map@[i as int],
                0 <= i < map.len(),
                sum == gps_sum(map@, c, i as int) + gps_row(row@, c, i as int, j as int),
        {
            if row[j] == c {
                let v = (i as u128) * 100 + j as u128;
                if v > (u64::MAX - sum) as u128 {
                    return None;
                }
                sum = sum + v as u64;
            }
        }
    }
    Some(sum)
}

/// Moves the robot through the warehouse, pushing rows of boxes `O` ahead
/// of it unless a wall stops them; then the sum of the boxes' GPS coordinates.
pub fn handle_puzzle1(input: &str) -> (r: Option<u64>) {
    let (wh, w) = match parse(input) {
        Some(p) => p,
        None => {
            return None;
        },
    };
    let mut map = wh.map;
    let h = map.len();
    let (mut i, mut j) = wh.robot;
    for k in 0..wh.moves.len()
        invariant
            shaped(map@, w),
            map.len() == h,
            i < h,
            j < w,
    {
        let m = wh.moves[k];
        if let Some(first) = ahead(h, w, i, j, m) {
        let mut end = first;
        let mut steps: usize = 0;
        let mut blocked = false;
        let span = if h > w {
            h
        } else {
            w
        };
        while map[end.0][end.1] == 79 && steps < span
            invariant
                shaped(map@, w),
                map.len() == h,
                end.0 < h,
                end.1 < w,
            decreases span - steps,
        {
            match ahead(h, w, end.0, end.1, m) {
                Some(p) => {
                    end = p;
                },
                None => {
                    blocked = true;
                    break;
                },
            }
            steps = steps + 1;
        }
        if !blocked && map[end.0][end.1] == 46 {
            if end.0 != first.0 || end.1 != first.1 {
                put(&mut map, w, end.0, end.1, 79);
            }
            put(&mut map, w, i, j, 46);
            put(&mut map, w, first.0, first.1, 64);
            i = first.0;
            j = first.1;
        }
        }
    }
    gpsm(&map, 79)
}

/// The map doubled in width: `O` becomes `[]`, `.` becomes `..`, `@`
/// becomes `@.` and `#` becomes `##`; the moves are kept. No result where
/// the text is not ASCII or the map holds another byte.
pub fn transform(input: &str) -> (r: Option<String>) {
    if !input.is_ascii() {
        return None;
    }
    proof {
        vstd::string::is_ascii_spec_bytes(input);
    }
    let t = input.as_bytes();
    let mut out = String::new();
    let mut i: usize = 0;
    while i < t.len()
        invariant
            i <= t.len(),
            t@ == input.spec_bytes(),
            input.is_ascii(),
        decreases t.len() - i,
    {
        let b = t[i];
        if b == 10 && i + 1 < t.len() && t[i + 1] == 10 {
            out.append("\n\n");
            out.append(input.substring_ascii(i + 2, t.len()));
            return Some(out);
        }
        if b == 79 {
            out.append("[]");
        } else if b == 46 {
            out.append("..");
        } else if b == 64 {
            out.append("@.");
        } else if b == 35 {
            out.append("##");
        } else if b == 10 {
            out.append("\n");
        } else {
            return None;
        }
        i = i + 1;
    }
    Some(out)
}

fn contains_box(boxes: &Vec<(usize, usize)>, b: (usize, usize)) -> (r: bool) {
    for k in 0..boxes.len() {
        if boxes[k].0 == b.0 && boxes[k].1 == b.1 {
            return true;
        }
    }
    false
}

/// Moves the robot through the doubled warehouse, where boxes `[]` are two
/// cells wide and a push up or down may move a whole tree of boxes; then the
/// sum of the boxes' GPS coordinates (at their left halves).
pub fn handle_puzzle2(input: &str) -> (r: Option<u64>) {
    let (wh, w) = match parse(input) {
        Some(p) => p,
        None => {
            return None;
        },
    };
    let mut map = wh.map;
    let h = map.len();
    let (mut i, mut j) = wh.robot;
    for k in 0..wh.moves.len()
        invariant
            shaped(map@, w),
            map.len() == h,
            i < h,
            j < w,
    {
        let m = wh.moves[k];
        if let Some(first) = ahead(h, w, i, j, m) {
            if m == 60 || m == 62 {
                // a row of box halves, shifted one cell along the row
                let mut end = first;
                let mut steps: usize = 0;
                let mut blocked = false;
                while (map[end.0][end.1] == 91 || map[end.0][end.1] == 93) && steps < w
                    invariant
                        shaped(map@, w),
                        map.len() == h,
                        end.0 < h,
                        end.1 < w,
                    decreases w - steps,
                {
                    match ahead(h, w, end.0, end.1, m) {
                        Some(p) => {
                            end = p;
                        },
                        None => {
                            blocked = true;
                            break;
                        },
                    }
                    steps = steps + 1;
                }
                if !blocked && map[end.0][end.1] == 46 {
                    let mut c = end.1;
                    while c != first.1
                        invariant
                            shaped(map@, w),
                            map.len() == h,
                            i < h,
                            c < w,
                            first.1 < w,
                        decreases (if c >= first.1 { c - first.1 } else { first.1 - c }),
                    {
                        let prev = if c > first.1 {
                            c - 1
                        } else {
                            c + 1
                        };
                        let v = map[i][prev];
                        put(&mut map, w, i, c, v);
                        c = prev;
                    }
                    put(&mut map, w, i, j, 46);
                    put(&mut map, w, first.0, first.1, 64);
                    i = first.0;
                    j = first.1;
                }
            } else {
                // the boxes to move, by left half, found row by row
                let mut boxes: Vec<(usize, usize)> = Vec::new();
                let mut blocked = false;
                let ahead_cell = map[first.0][first.1];
                if ahead_cell == 35 {
                    blocked = true;
                } else if ahead_cell == 91 && first.1 + 1 < w {
                    boxes.push((first.0, first.1));
                } else if ahead_cell == 93 && first.1 > 0 {
                    boxes.push((first.0, first.1 - 1));
                }
                let mut q: usize = 0;
                let mut budget: usize = usize::MAX;
                while q < boxes.len() && !blocked && budget > 0
                    invariant
                        shaped(map@, w),
                        map.len() == h,
                        forall|x: int| 0 <= x < boxes.len() ==> (#[trigger] boxes@[x]).0 < h && boxes@[x].1 + 1 < w,
                    decreases budget,
                {
                    budget = budget - 1;
                    let (br, bc) = boxes[q];
                    q = q + 1;
                    match (ahead(h, w, br, bc, m), ahead(h, w, br, bc + 1, m)) {
                        (Some((nr, nc)), Some((_, nc2))) => {
                            let left = map[nr][nc];
                            let right = map[nr][nc2];
                            if left == 35 || right == 35 {
                                blocked = true;
                            } else {
                                if left == 91 && nc + 1 < w && !contains_box(&boxes, (nr, nc)) {
                                    boxes.push((nr, nc));
                                }
                                if left == 93 && nc > 0 && !contains_box(&boxes, (nr, nc - 1)) {
                                    boxes.push((nr, nc - 1));
                                }
                                if right == 91 && nc2 + 1 < w && !contains_box(&boxes, (nr, nc2)) {
                                    boxes.push((nr, nc2));
                                }
                            }
                        },
                        _ => {
                            blocked = true;
                        },
                    }
                }
                if !blocked {
                    for x in 0..boxes.len()
                        invariant
                            shaped(map@, w),
                            map.len() == h,
                            forall|y: int| 0 <= y < boxes.len() ==> (#[trigger] boxes@[y]).0 < h && boxes@[y].1 + 1 < w,
                    {
                        let (br, bc) = boxes[x];
                        put(&mut map, w, br, bc, 46);
                        put(&mut map, w, br, bc + 1, 46);
                    }
                    for x in 0..boxes.len()
                        invariant
                            shaped(map@, w),
                            map.len() == h,
                            forall|y: int| 0 <= y < boxes.len() ==> (#[trigger] boxes@[y]).0 < h && boxes@[y].1 + 1 < w,
                    {
                        let (br, bc) = boxes[x];
                        if let (Some((nr, nc)), Some((_, nc2))) = (ahead(h, w, br, bc, m), ahead(h, w, br, bc + 1, m)) {
                            put(&mut map, w, nr, nc, 91);
                            put(&mut map, w, nr, nc2, 93);
                        }
                    }
                    put(&mut map, w, i, j, 46);
                    put(&mut map, w, first.0, first.1, 64);
                    i = first.0;
                    j = first.1;
                }
            }
        }
    }
    gpsm(&map, 91)
}

} // verus!
