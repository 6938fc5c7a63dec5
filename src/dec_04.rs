use vstd::prelude::*;
use vstd::string::StringSliceAdditionalSpecFns;

verus! {

/// The rows of the text, split at each `\n`.
pub fn rows_of(input: &str) -> (r: Vec<Vec<u8>>) {
    let t = input.as_bytes();
    let mut rows: Vec<Vec<u8>> = Vec::new();
    let mut line: Vec<u8> = Vec::new();
    for i in 0..t.len() {
        if t[i] == 10 {
            rows.push(line);
            line = Vec::new();
        } else {
            line.push(t[i]);
        }
    }
    rows.push(line);
    rows
}

/// Every row has `w` bytes.
pub open spec fn rectangular(g: Seq<Vec<u8>>, w: int) -> bool {
    forall|r: int| 0 <= r < g.len() ==> (#[trigger] g[r]).len() == w
}

fn is_rectangular(g: &Vec<Vec<u8>>, w: usize) -> (r: bool)
    ensures
        r == rectangular(g@, w as int),
{
    for k in 0..g.len()
        invariant
            forall|j: int| 0 <= j < k ==> (#[trigger] g@[j]).len() == w,
    {
        if g[k].len() != w {
            return false;
        }
    }
    true
}

/// `x` moved `k` steps in direction `d` (`0`: stay, `1`: up, `2`: down),
/// if it stays below `bound`.
fn offset(x: usize, d: u8, k: usize, bound: usize) -> (r: Option<usize>)
    requires
        x < bound,
    ensures
        r matches Some(y) ==> y < bound,
{
    if d == 0 {
        Some(x)
    } else if d == 1 {
        if k < bound - x {
            Some(x + k)
        } else {
            None
        }
    } else {
        if x >= k {
            Some(x - k)
        } else {
            None
        }
    }
}

/// The number of directions in which `XMAS` reads from the `X` at `(v, h)`.
pub fn get_xmases(input: &Vec<Vec<u8>>, v: usize, h: usize) -> (r: u32)
    requires
        input.len() > 0,
        rectangular(input@, input@[0].len() as int),
        v < input.len(),
        h < input@[0].len(),
    ensures
        r <= 8,
{
    let w = input[0].len();
    if input[v][h] != 88 {
        return 0;
    }
    let xmas: Vec<u8> = vec![88, 77, 65, 83];
    let mut count: u32 = 0;
    for dir in 0..9u8
        invariant
            count <= dir,
            dir > 0 ==> count < dir,
            w == input@[0].len(),
            rectangular(input@, w as int),
            v < input.len(),
            h < w,
            xmas.len() == 4,
    {
        let dv = dir / 3;
        let dh = dir % 3;
        if dir != 0 {
            let mut all = true;
            for i in 1..4usize
                invariant
                    w == input@[0].len(),
                    rectangular(input@, w as int),
                    v < input.len(),
                    h < w,
                    xmas.len() == 4,
            {
                match (offset(v, dv, i, input.len()), offset(h, dh, i, w)) {
                    (Some(pv), Some(ph)) => {
                        assert(input@[pv as int].len() == w);
                        if input[pv][ph] != xmas[i] {
                            all = false;
                        }
                    },
                    _ => {
                        all = false;
                    },
                }
            }
            if all {
                count = count + 1;
            }
        }
    }
    count
}

/// The number of times `XMAS` appears in the grid, in any of the eight
/// directions. No result where the rows differ in length.
pub fn handle_puzzle1(input: String) -> (r: Option<u32>) {
    let grid = rows_of(input.as_str());
    if grid.len() == 0 {
        return Some(0);
    }
    let w = grid[0].len();
    if !is_rectangular(&grid, w) {
        return None;
    }
    let mut count: u32 = 0;
    for v in 0..grid.len()
        invariant
            grid.len() > 0,
            w == grid@[0].len(),
            rectangular(grid@, w as int),
    {
        for h in 0..w
            invariant
                grid.len() > 0,
                w == grid@[0].len(),
                rectangular(grid@, w as int),
                v < grid.len(),
        {
            let c = get_xmases(&grid, v, h);
            if c > u32::MAX - count {
                return None;
            }
            count = count + c;
        }
    }
    Some(count)
}

/// The 3 by 3 windows of a grid, row by row.
pub struct WindowIterator {
    pub matrix: Vec<Vec<u8>>,
    pub i: usize,
    pub j: usize,
    pub rows: usize,
    pub cols: usize,
}

impl WindowIterator {
    pub fn new(matrix: &Vec<Vec<u8>>) -> (r: WindowIterator)
        ensures
            r.i == 0 && r.j == 0 && r.rows == 3 && r.cols == 3,
    {
        let mut copy: Vec<Vec<u8>> = Vec::new();
        for k in 0..matrix.len() {
            copy.push(matrix[k].clone());
        }
        WindowIterator { matrix: copy, i: 0, j: 0, rows: 3, cols: 3 }
    }

    /// The next window, left to right and then top to bottom; `None` once
    /// the windows run out.
    pub fn next(&mut self) -> (r: Option<Vec<Vec<u8>>>)
        ensures
            r matches Some(w) ==> w.len() == old(self).rows,
    {
        let n = self.matrix.len();
        if n == 0 || self.i > n || self.rows > n - self.i {
            return None;
        }
        let w = self.matrix[0].len();
        if self.j > w || self.cols > w - self.j {
            return None;
        }
        let mut window: Vec<Vec<u8>> = Vec::new();
        for r in 0..self.rows
            invariant
                window.len() == r,
                self.i + self.rows <= n,
                n == self.matrix.len(),
        {
            let row = &self.matrix[self.i + r];
            let mut part: Vec<u8> = Vec::new();
            for c in 0..self.cols {
                if self.j < row.len() && c < row.len() - self.j {
                    part.push(row[self.j + c]);
                }
            }
            window.push(part);
        }
        if self.cols < w - self.j {
            self.j = self.j + 1;
        } else if self.i < n {
            self.j = 0;
            self.i = self.i + 1;
        }
        Some(window)
    }
}

/// A 3 by 3 window holds an X of two `MAS`: `A` in the middle, and `M` and
/// `S` at opposite ends of each diagonal.
pub open spec fn x_mas(w: Seq<Vec<u8>>) -> bool {
    &&& w.len() == 3
    &&& w[0]@.len() == 3 && w[1]@.len() == 3 && w[2]@.len() == 3
    &&& w[1]@[1] == 65
    &&& ((w[0]@[0] == 77 && w[2]@[2] == 83) || (w[0]@[0] == 83 && w[2]@[2] == 77))
    &&& ((w[0]@[2] == 77 && w[2]@[0] == 83) || (w[0]@[2] == 83 && w[2]@[0] == 77))
}

/// The window holds an X of two `MAS`: `A` in the middle and `M` and `S` at
/// opposite ends of both diagonals.
pub fn is_super_xmas(window: &Vec<Vec<u8>>) -> (r: bool)
    ensures
        r == x_mas(window@),
{
    if window.len() != 3 || window[0].len() != 3 || window[1].len() != 3 || window[2].len() != 3 {
        return false;
    }
    let (a, b, c, d, e) = (window[0][0], window[0][2], window[1][1], window[2][0], window[2][2]);
    let m: u8 = 77;
    let s: u8 = 83;
    c == 65 && ((a == m && b == s && d == m && e == s) || (a == m && b == m && d == s && e == s) || (
    a == s && b == m && d == s && e == m) || (a == s && b == s && d == m && e == m))
}

/// The number of X-shaped `MAS` pairs in the grid.
pub fn handle_puzzle2(input: String) -> (r: Option<u32>) {
    let grid = rows_of(input.as_str());
    let mut it = WindowIterator::new(&grid);
    let mut count: u32 = 0;
    let mut guard: usize = 0;
    while guard < usize::MAX
        decreases usize::MAX - guard,
    {
        match it.next() {
            Some(window) => {
                if is_super_xmas(&window) {
                    if count == u32::MAX {
                        return None;
                    }
                    count = count + 1;
                }
            },
            None => {
                return Some(count);
            },
        }
        guard = guard + 1;
    }
    None
}

} // verus!
