use vstd::prelude::*;

verus! {

/// The falling bytes as `(row, column)`; each line of the text is `x,y`.
pub fn parse(input: &str) -> (r: Option<Vec<(usize, usize)>>) {
    let t = input.as_bytes();
    let mut out: Vec<(usize, usize)> = Vec::new();
    let mut i: usize = 0;
    while i < t.len()
        invariant
            i <= t.len(),
        decreases t.len() - i,
    {
        if t[i] == 10 {
            i = i + 1;
        } else {
            let (x, e) = match number(t, i) {
                Some(p) => p,
                None => {
                    return None;
                },
            };
            if e >= t.len() || t[e] != 44 {
                return None;
            }
            let (y, e2) = match number(t, e + 1) {
                Some(p) => p,
                None => {
                    return None;
                },
            };
            out.push((y, x));
            i = e2;
        }
    }
    Some(out)
}

/// The decimal number at `i`, and where its digits end.
fn number(t: &[u8], i: usize) -> (r: Option<(usize, usize)>)
    requires
        i <= t.len(),
    ensures
        r matches Some((_, e)) ==> i < e <= t.len(),
{
    let mut v: usize = 0;
    let mut j = i;
    while j < t.len() && 48 <= t[j] && t[j] <= 57
        invariant
            i <= j <= t.len(),
        decreases t.len() - j,
    {
        let d = (t[j] - 48) as usize;
        if v > (usize::MAX - d) / 10 {
            return None;
        }
        v = v * 10 + d;
        j = j + 1;
    }
    if j == i {
        None
    } else {
        Some((v, j))
    }
}

/// The position of cell `(r, c)` in a row-major grid of width `w`.
fn idx(r: usize, c: usize, w: usize, h: usize) -> (i: usize)
    requires
        r < h,
        c < w,
        w * h <= usize::MAX,
    ensures
        i < w * h,
{
    assert(r * w + c < w * h && r * w + c <= usize::MAX) by (nonlinear_arith)
        requires
            r < h,
            c < w,
            w * h <= usize::MAX,
    ;
    r * w + c
}

/// The number of steps on the shortest path from the top-left to the
/// bottom-right corner of a `w` by `h` grid, moving up, down, left and
/// right around the first `take` fallen bytes; no result where there is no
/// path.
pub fn shortest_path(obs: &Vec<(usize, usize)>, take: usize, w: usize, h: usize) -> (r: Option<usize>)
    requires
        w * h < usize::MAX,
{
    if w == 0 || h == 0 {
        return None;
    }
    let n = w * h;
    let mut blocked: Vec<bool> = Vec::new();
    let mut seen: Vec<bool> = Vec::new();
    for k in 0..n
        invariant
            blocked.len() == k,
            seen.len() == k,
    {
        blocked.push(false);
        seen.push(false);
    }
    for k in 0..obs.len()
        invariant
            blocked.len() == n,
            n == w * h,
            w * h < usize::MAX,
    {
        if k < take {
            let (r, c) = obs[k];
            if r < h && c < w {
                let p = idx(r, c, w, h);
                blocked.set(p, true);
            }
        }
    }
    let start = idx(0, 0, w, h);
    seen.set(start, true);
    let mut frontier: Vec<(usize, usize)> = Vec::new();
    frontier.push((0, 0));
    let mut dist: usize = 0;
    while dist <= n && frontier.len() > 0
        invariant
            blocked.len() == n,
            seen.len() == n,
            n == w * h,
            w * h < usize::MAX,
            w > 0,
            h > 0,
            forall|k: int| 0 <= k < frontier.len() ==> (#[trigger] frontier@[k]).0 < h && frontier@[k].1 < w,
        decreases n + 1 - dist,
    {
        let mut next: Vec<(usize, usize)> = Vec::new();
        for k in 0..frontier.len()
            invariant
                blocked.len() == n,
                seen.len() == n,
                n == w * h,
                w * h < usize::MAX,
                w > 0,
                h > 0,
                forall|q: int| 0 <= q < frontier.len() ==> (#[trigger] frontier@[q]).0 < h && frontier@[q].1 < w,
                forall|q: int| 0 <= q < next.len() ==> (#[trigger] next@[q]).0 < h && next@[q].1 < w,
        {
            let (i, j) = frontier[k];
            if !blocked[idx(i, j, w, h)] {
                if i == h - 1 && j == w - 1 {
                    return Some(dist);
                }
                for d in 0..4u8
                    invariant
                        blocked.len() == n,
                        seen.len() == n,
                        n == w * h,
                        w * h < usize::MAX,
                        i < h,
                        j < w,
                        forall|q: int| 0 <= q < next.len() ==> (#[trigger] next@[q]).0 < h && next@[q].1 < w,
                {
                    let cand = if d == 0 && i > 0 {
                        Some((i - 1, j))
                    } else if d == 1 && j > 0 {
                        Some((i, j - 1))
                    } else if d == 2 && i + 1 < h {
                        Some((i + 1, j))
                    } else if d == 3 && j + 1 < w {
                        Some((i, j + 1))
                    } else {
                        None
                    };
                    match cand {
                        Some((a, b)) => {
                            let p = idx(a, b, w, h);
                            if !seen[p] && !blocked[p] {
                                seen.set(p, true);
                                next.push((a, b));
                            }
                        },
                        None => {},
                    }
                }
            }
        }
        frontier = next;
        dist = dist + 1;
    }
    None
}

/// The length of the shortest path once the first `take` bytes have fallen.
pub fn handle_puzzle1(input: &str, take: usize, w: usize, h: usize) -> (r: Option<usize>)
    requires
        w * h < usize::MAX,
{
    match parse(input) {
        Some(obs) => shortest_path(&obs, take, w, h),
        None => None,
    }
}

/// The position `(x, y)` of the first byte whose fall cuts every path.
pub fn handle_puzzle2(input: &str, w: usize, h: usize) -> (r: Option<(usize, usize)>)
    requires
        w * h < usize::MAX,
{
    let obs = match parse(input) {
        Some(o) => o,
        None => {
            return None;
        },
    };
    let mut i: usize = 1;
    while i < obs.len()
        invariant
            w * h < usize::MAX,
            i >= 1,
        decreases obs.len() - i,
    {
        if shortest_path(&obs, i, w, h).is_none() {
            let (y, x) = obs[i - 1];
            return Some((x, y));
        }
        i = i + 1;
    }
    None
}

} // verus!
