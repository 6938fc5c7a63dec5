use vstd::prelude::*;

verus! {

/// A compass heading on the maze grid.
#[derive(Clone, Copy, Debug, PartialEq, Eq, Structural)]
pub enum Dir {
    N,
    E,
    S,
    W,
}

/// Headings numbered clockwise from north.
pub open spec fn dir_index(d: Dir) -> int {
    match d {
        Dir::N => 0,
        Dir::E => 1,
        Dir::S => 2,
        Dir::W => 3,
    }
}

pub open spec fn dir_of(i: int) -> Dir {
    if i == 0 {
        Dir::N
    } else if i == 1 {
        Dir::E
    } else if i == 2 {
        Dir::S
    } else {
        Dir::W
    }
}

impl Dir {
    /// Turns `direction` quarter turns clockwise (counter-clockwise when negative).
    pub fn turn(&self, direction: i8) -> (r: Dir)
        ensures
            r == dir_of((dir_index(*self) + direction) % 4),
    {
        let current: u16 = match *self {
            Dir::N => 0,
            Dir::E => 1,
            Dir::S => 2,
            Dir::W => 3,
        };
        let v = ((current as i16 + direction as i16 + 512) as u16) % 4;
        assert(v as int == (dir_index(*self) + direction) % 4) by (nonlinear_arith)
            requires
                v == ((current as int + direction as int + 512) % 4),
                current as int == dir_index(*self),
        ;
        if v == 0 {
            Dir::N
        } else if v == 1 {
            Dir::E
        } else if v == 2 {
            Dir::S
        } else {
            Dir::W
        }
    }
}

/// A position on the grid, `(row, column)`, with a heading.
#[derive(Clone, Copy, Debug)]
pub struct Point {
    pub pt: (usize, usize),
    pub dir: Dir,
}

/// The cell one step from `pt` in heading `d`.
pub open spec fn step(pt: (usize, usize), d: Dir) -> (int, int) {
    match d {
        Dir::N => (pt.0 - 1, pt.1 as int),
        Dir::S => (pt.0 + 1, pt.1 as int),
        Dir::E => (pt.0 as int, pt.1 + 1),
        Dir::W => (pt.0 as int, pt.1 - 1),
    }
}

/// The step stays on the `usize` grid.
pub open spec fn step_in_range(pt: (usize, usize), d: Dir) -> bool {
    let s = step(pt, d);
    0 <= s.0 <= usize::MAX && 0 <= s.1 <= usize::MAX
}

impl Point {
    pub fn new(coord: (usize, usize), dir: Dir) -> (r: Point)
        ensures
            r.pt == coord,
            r.dir == dir,
    {
        Point { pt: coord, dir }
    }

    /// Turns by `x` quarter turns, then steps one cell in the new heading.
    pub fn move_turn(&self, x: i8) -> (r: Point)
        requires
            step_in_range(self.pt, dir_of((dir_index(self.dir) + x) % 4)),
        ensures
            r.dir == dir_of((dir_index(self.dir) + x) % 4),
            r.pt.0 == step(self.pt, r.dir).0,
            r.pt.1 == step(self.pt, r.dir).1,
    {
        let (i, j) = self.pt;
        let dir = self.dir.turn(x);
        let pt = match dir {
            Dir::N => (i - 1, j),
            Dir::S => (i + 1, j),
            Dir::E => (i, j + 1),
            Dir::W => (i, j - 1),
        };
        Point::new(pt, dir)
    }

    /// Turns in place by `x` quarter turns.
    pub fn turn(&self, x: i8) -> (r: Point)
        ensures
            r.pt == self.pt,
            r.dir == dir_of((dir_index(self.dir) + x) % 4),
    {
        let dir = self.dir.turn(x);
        Point::new(self.pt, dir)
    }
}

} // verus!

verus! {

/// The maze: which cells are open, its width and height, and the start and
/// end cells as positions in the row-major grid.
pub struct Maze {
    pub open: Vec<bool>,
    pub width: usize,
    pub height: usize,
    pub start: usize,
    pub end: usize,
}

impl Maze {
    pub open spec fn wf(&self) -> bool {
        &&& self.open.len() == self.width * self.height
        &&& self.width * self.height * 4 < usize::MAX
        &&& self.start < self.open.len()
        &&& self.end < self.open.len()
    }
}

/// Reads the maze: `#` is wall, `S` the start, `E` the end. No result where
/// the lines differ in length or a start or end is missing.
pub fn parse(input: &str) -> (r: Option<Maze>)
    ensures
        r matches Some(m) ==> m.wf(),
{
    let t = input.as_bytes();
    let mut open: Vec<bool> = Vec::new();
    let mut width: usize = 0;
    let mut height: usize = 0;
    let mut col: usize = 0;
    let mut start: Option<usize> = None;
    let mut end: Option<usize> = None;
    for i in 0..t.len()
        invariant
            height == 0 ==> open.len() == col,
            height > 0 ==> open.len() == height * width + col,
            height > 0 ==> col <= width,
            col <= i,
            height + col <= i,
            start matches Some(s) ==> s < open.len(),
            end matches Some(e) ==> e < open.len(),
    {
        let b = t[i];
        if b == 10 {
            if height == 0 {
                width = col;
            } else if col != width {
                return None;
            }
            if col > 0 {
                assert(height * width + width == (height + 1) * width) by (nonlinear_arith);
                height = height + 1;
            }
            col = 0;
        } else {
            if height > 0 && col >= width {
                return None;
            }
            if b == 83 {
                start = Some(open.len());
            } else if b == 69 {
                end = Some(open.len());
            }
            open.push(b != 35);
            col = col + 1;
        }
    }
    if col > 0 {
        if height == 0 {
            width = col;
        } else if col != width {
            return None;
        }
        assert(height * width + width == (height + 1) * width) by (nonlinear_arith);
        height = height + 1;
    }
    assert(open.len() == width * height) by (nonlinear_arith)
        requires
            height == 0 ==> open.len() == col,
            height > 0 ==> open.len() == height * width,
            height == 0 ==> col == 0,
    ;
    let (s, e) = match (start, end) {
        (Some(s), Some(e)) => (s, e),
        _ => {
            return None;
        },
    };
    if open.len() >= usize::MAX / 4 {
        return None;
    }
    Some(Maze { open, width, height, start: s, end: e })
}

/// The cell one step from `p` in direction `d` (north, east, south, west),
/// if it is on the grid.
fn step_from(m: &Maze, p: usize, d: usize) -> (r: Option<usize>)
    requires
        m.wf(),
        p < m.open.len(),
    ensures
        r matches Some(q) ==> q < m.open.len(),
{
    let w = m.width;
    let n = m.open.len();
    if d == 0 {
        if p >= w {
            Some(p - w)
        } else {
            None
        }
    } else if d == 1 {
        if w > 0 && p + 1 < n && (p + 1) % w != 0 {
            Some(p + 1)
        } else {
            None
        }
    } else if d == 2 {
        if w <= n - p - 1 && p + w < n {
            Some(p + w)
        } else {
            None
        }
    } else {
        if w > 0 && p > 0 && p % w != 0 {
            Some(p - 1)
        } else {
            None
        }
    }
}

/// The cheapest cost of reaching every state (cell times four headings)
/// from `sources` (at cost 0): a step forward costs 1, a quarter turn 1000.
/// With `backward`, steps run against the heading, which gives the cost of
/// reaching the sources from each state.
fn cheapest(m: &Maze, sources: &Vec<usize>, backward: bool) -> (dist: Vec<u64>)
    requires
        m.wf(),
    ensures
        dist.len() == m.open.len() * 4,
{
    let n = m.open.len() * 4;
    let mut dist: Vec<u64> = Vec::new();
    let mut done: Vec<bool> = Vec::new();
    for k in 0..n
        invariant
            dist.len() == k,
            done.len() == k,
    {
        dist.push(u64::MAX);
        done.push(false);
    }
    for k in 0..sources.len()
        invariant
            dist.len() == n,
    {
        let s = sources[k];
        if s < n {
            dist.set(s, 0);
        }
    }
    for round in 0..n
        invariant
            m.wf(),
            n == m.open.len() * 4,
            dist.len() == n,
            done.len() == n,
    {
        let mut best: u64 = u64::MAX;
        let mut at: usize = n;
        for k in 0..n
            invariant
                dist.len() == n,
                done.len() == n,
                at == n || at < n,
        {
            if !done[k] && dist[k] < best {
                best = dist[k];
                at = k;
            }
        }
        if at == n {
            break;
        }
        done.set(at, true);
        let cell = at / 4;
        let d = at % 4;
        assert(cell < m.open.len());
        let turn_cost = if best <= u64::MAX - 1000 {
            best + 1000
        } else {
            u64::MAX
        };
        let left = cell * 4 + (d + 3) % 4;
        let right = cell * 4 + (d + 1) % 4;
        if turn_cost < dist[left] {
            dist.set(left, turn_cost);
        }
        if turn_cost < dist[right] {
            dist.set(right, turn_cost);
        }
        let dir = if backward {
            (d + 2) % 4
        } else {
            d
        };
        match step_from(m, cell, dir) {
            Some(next) => {
                if m.open[next] && best < u64::MAX {
                    let s = next * 4 + d;
                    if best + 1 < dist[s] {
                        dist.set(s, best + 1);
                    }
                }
            },
            None => {},
        }
    }
    dist
}

/// The lowest score from the start, facing east, to the end. No result
/// where the maze does not parse or the end cannot be reached.
pub fn handle_puzzle1(input: &str) -> (r: Option<u64>) {
    let m = match parse(input) {
        Some(m) => m,
        None => {
            return None;
        },
    };
    let sources: Vec<usize> = vec![m.start * 4 + 1];
    let dist = cheapest(&m, &sources, false);
    let mut best: u64 = u64::MAX;
    for d in 0..4usize
        invariant
            m.wf(),
            dist.len() == m.open.len() * 4,
    {
        let v = dist[m.end * 4 + d];
        if v < best {
            best = v;
        }
    }
    if best == u64::MAX {
        None
    } else {
        Some(best)
    }
}

/// The number of cells on at least one path of the lowest score.
pub fn handle_puzzle2(input: &str) -> (r: Option<u64>) {
    let m = match parse(input) {
        Some(m) => m,
        None => {
            return None;
        },
    };
    let sources: Vec<usize> = vec![m.start * 4 + 1];
    let from_start = cheapest(&m, &sources, false);
    let ends: Vec<usize> = vec![m.end * 4, m.end * 4 + 1, m.end * 4 + 2, m.end * 4 + 3];
    let to_end = cheapest(&m, &ends, true);
    let mut best: u64 = u64::MAX;
    for d in 0..4usize
        invariant
            m.wf(),
            from_start.len() == m.open.len() * 4,
    {
        let v = from_start[m.end * 4 + d];
        if v < best {
            best = v;
        }
    }
    if best == u64::MAX {
        return None;
    }
    let mut count: u64 = 0;
    for cell in 0..m.open.len()
        invariant
            m.wf(),
            from_start.len() == m.open.len() * 4,
            to_end.len() == m.open.len() * 4,
            count <= cell,
    {
        let mut on_path = false;
        for d in 0..4usize
            invariant
                m.wf(),
                from_start.len() == m.open.len() * 4,
                to_end.len() == m.open.len() * 4,
                cell < m.open.len(),
        {
            let a = from_start[cell * 4 + d];
            let b = to_end[cell * 4 + d];
            if a < u64::MAX && b < u64::MAX && a <= u64::MAX - b && a + b == best {
                on_path = true;
            }
        }
        if on_path {
            count = count + 1;
        }
    }
    Some(count)
}

} // verus!
