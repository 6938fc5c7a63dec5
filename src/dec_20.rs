use vstd::prelude::*;

verus! {

/// The race track as the cells of its single path from `S` to `E`, in
/// order: the cell at position `k` is reached after `k` picoseconds. No
/// result where the map has no start, or the path forks or breaks off
/// before the end.
pub fn parse(input: &str) -> (r: Option<Vec<(usize, usize)>>) {
    let t = input.as_bytes();
    let mut grid: Vec<Vec<u8>> = Vec::new();
    let mut line: Vec<u8> = Vec::new();
    for i in 0..t.len() {
        if t[i] == 10 {
            grid.push(line);
            line = Vec::new();
        } else {
            line.push(t[i]);
        }
    }
    if line.len() > 0 {
        grid.push(line);
    }
    let mut start: Option<(usize, usize)> = None;
    let mut cells: usize = 0;
    for r in 0..grid.len() {
        let row = &grid[r];
        for c in 0..row.len() {
            let b = row[c];
            if b == 83 {
                start = Some((r, c));
            }
            if b == 83 || b == 69 || b == 46 {
                if cells < usize::MAX {
                    cells = cells + 1;
                }
            }
        }
    }
    let (sr, sc) = match start {
        Some(s) => s,
        None => {
            return None;
        },
    };
    let mut path: Vec<(usize, usize)> = vec![(sr, sc)];
    let mut prev: Option<(usize, usize)> = None;
    let mut cur = (sr, sc);
    let mut steps: usize = 0;
    while steps < cells
        decreases cells - steps,
    {
        steps = steps + 1;
        let (r, c) = cur;
        if r < grid.len() && c < grid[r].len() && grid[r][c] == 69 {
            return Some(path);
        }
        let mut next: Option<(usize, usize)> = None;
        for d in 0..4u8 {
            let cand = if d == 0 && r > 0 {
                Some((r - 1, c))
            } else if d == 1 && c < usize::MAX {
                Some((r, c + 1))
            } else if d == 2 && r < usize::MAX {
                Some((r + 1, c))
            } else if d == 3 && c > 0 {
                Some((r, c - 1))
            } else {
                None
            };
            match cand {
                Some((a, b)) => {
                    let back = match prev {
                        Some((pa, pb)) => pa == a && pb == b,
                        None => false,
                    };
                    if !back && a < grid.len() && b < grid[a].len() {
                        let x = grid[a][b];
                        if x == 46 || x == 69 {
                            next = Some((a, b));
                        }
                    }
                },
                None => {},
            }
        }
        match next {
            Some(n) => {
                path.push(n);
                prev = Some(cur);
                cur = n;
            },
            None => {
                return None;
            },
        }
    }
    let (r, c) = cur;
    if r < grid.len() && c < grid[r].len() && grid[r][c] == 69 {
        Some(path)
    } else {
        None
    }
}

fn distance(p: (usize, usize), q: (usize, usize)) -> (d: u128)
    ensures
        d <= 2 * usize::MAX,
{
    let dr = if p.0 >= q.0 {
        p.0 - q.0
    } else {
        q.0 - p.0
    };
    let dc = if p.1 >= q.1 {
        p.1 - q.1
    } else {
        q.1 - p.1
    };
    dr as u128 + dc as u128
}

/// For each saving `s`, at `counts[s]`, the number of cheats of at most
/// `max_len` picoseconds through walls that save `s` picoseconds: a cheat
/// runs from an earlier cell of the path to a later one whose distance is
/// at most `max_len`, and saves their gap along the path less that distance.
pub fn cheats(path: &Vec<(usize, usize)>, max_len: u128) -> (counts: Vec<usize>)
    ensures
        counts.len() == path.len() + 1 || path.len() == usize::MAX,
{
    let n = path.len();
    let mut counts: Vec<usize> = Vec::new();
    if n == usize::MAX {
        return counts;
    }
    for k in 0..n + 1
        invariant
            counts.len() == k,
    {
        counts.push(0);
    }
    for i in 0..n
        invariant
            n == path.len(),
            n < usize::MAX,
            counts.len() == n + 1,
    {
        for j in i + 1..n
            invariant
                n == path.len(),
                n < usize::MAX,
                counts.len() == n + 1,
                i < n,
        {
            let d = distance(path[i], path[j]);
            let gap = (j - i) as u128;
            if d <= max_len && gap > d {
                let s = (gap - d) as usize;
                let c = counts[s];
                if c < usize::MAX {
                    counts.set(s, c + 1);
                }
            }
        }
    }
    counts
}

/// The savings of the two-picosecond cheats, by saving.
pub fn handle_puzzle1(input: &str) -> (r: Option<Vec<usize>>) {
    match parse(input) {
        Some(path) => Some(cheats(&path, 2)),
        None => None,
    }
}

/// The savings of the cheats of up to twenty picoseconds, by saving.
pub fn handle_puzzle2(input: &str) -> (r: Option<Vec<usize>>) {
    match parse(input) {
        Some(path) => Some(cheats(&path, 20)),
        None => None,
    }
}

} // verus!
