use vstd::prelude::*;

verus! {

/// For each ordered pair of keys of a keypad, every shortest route between
/// them that avoids the gap, as the button presses on the directional pad
/// that drives it (`^`, `v`, `<`, `>`, then `A`).
pub struct ClickMatrixv2 {
    pub matrix: Vec<Vec<Vec<Vec<u8>>>>,
    pub key: Vec<(u8, usize, usize)>,
    pub gap: (usize, usize),
}

pub open spec fn manhattan(p: (usize, usize), q: (usize, usize)) -> nat {
    (if p.0 <= q.0 { q.0 - p.0 } else { p.0 - q.0 }) as nat + (if p.1 <= q.1 { q.1 - p.1 } else { p.1 - q.1 }) as nat
}

pub open spec fn key_cell(k: (u8, usize, usize)) -> (usize, usize) {
    (k.1, k.2)
}

/// Every route between two keys is as long as their distance, plus the
/// final `A`, and ends in `A`; from a key to itself (off the gap) the one
/// route is `A`.
pub open spec fn routes_wf(m: ClickMatrixv2) -> bool {
    &&& m.matrix.len() == m.key.len()
    &&& forall|a: int| 0 <= a < m.matrix.len() ==> (#[trigger] m.matrix@[a]).len() == m.key.len()
    &&& forall|a: int, b: int, r: int|
        0 <= a < m.key.len() && 0 <= b < m.key.len() && 0 <= r < m.matrix@[a]@[b].len() ==> {
            let route = (#[trigger] m.matrix@[a]@[b]@[r])@;
            &&& route.len() == manhattan(key_cell(m.key@[a]), key_cell(m.key@[b])) + 1
            &&& route.last() == 65
        }
    &&& forall|a: int|
        0 <= a < m.key.len() && key_cell(m.key@[a]) != m.gap ==> (#[trigger] m.matrix@[a]@[a])@.len() == 1
            && m.matrix@[a]@[a]@[0]@ == seq![65u8]
    &&& forall|a: int, b: int|
        0 <= a < m.key.len() && 0 <= b < m.key.len() ==> exact_routes(
            #[trigger] m.matrix@[a]@[b]@,
            monotone_routes(key_cell(m.key@[a]), key_cell(m.key@[b]), m.gap),
        )
}

/// The stored routes are exactly `routes`, in order.
pub open spec fn exact_routes(stored: Seq<Vec<u8>>, routes: Seq<Seq<u8>>) -> bool {
    stored.len() == routes.len() && forall|r: int| 0 <= r < routes.len() ==> #[trigger] stored[r]@ == routes[r]
}

/// Every route from `curs` to `dest` that moves toward `dest` at each step
/// and never enters `gap`, each once, as moves followed by `A`: those that
/// start with a row move (`v` or `^`), then those that start with a column
/// move (`>` or `<`).
pub open spec fn monotone_routes(curs: (usize, usize), dest: (usize, usize), gap: (usize, usize)) -> Seq<Seq<u8>>
    decreases manhattan(curs, dest),
{
    if curs == gap {
        Seq::empty()
    } else if curs == dest {
        seq![seq![65u8]]
    } else {
        let vertical = if curs.0 < dest.0 {
            monotone_routes(((curs.0 + 1) as usize, curs.1), dest, gap).map_values(|r: Seq<u8>| seq![118u8] + r)
        } else if curs.0 > dest.0 {
            monotone_routes(((curs.0 - 1) as usize, curs.1), dest, gap).map_values(|r: Seq<u8>| seq![94u8] + r)
        } else {
            Seq::empty()
        };
        let horizontal = if curs.1 < dest.1 {
            monotone_routes((curs.0, (curs.1 + 1) as usize), dest, gap).map_values(|r: Seq<u8>| seq![62u8] + r)
        } else if curs.1 > dest.1 {
            monotone_routes((curs.0, (curs.1 - 1) as usize), dest, gap).map_values(|r: Seq<u8>| seq![60u8] + r)
        } else {
            Seq::empty()
        };
        vertical + horizontal
    }
}

/// Every route from `curs` to `dest` that moves toward `dest` at each step,
/// row moves before column moves at each branch, never entering `gap`; each
/// route is the presses so far in `s`, then its moves, then `A`.
fn generate(
    curs: (usize, usize),
    dest: (usize, usize),
    s: &mut Vec<u8>,
    l: &mut Vec<Vec<u8>>,
    gap: (usize, usize),
)
    ensures
        final(s)@ == old(s)@,
        final(l).len() >= old(l).len(),
        forall|k: int| 0 <= k < old(l).len() ==> #[trigger] final(l)@[k] == old(l)@[k],
        forall|k: int|
            old(l).len() <= k < final(l).len() ==> (#[trigger] final(l)@[k])@.len() == old(s)@.len()
                + manhattan(curs, dest) + 1 && final(l)@[k]@.last() == 65,
        curs == dest && curs != gap ==> final(l).len() == old(l).len() + 1 && final(l)@[old(
            l,
        ).len() as int]@ == old(s)@.push(65),
        final(l).len() == old(l).len() + monotone_routes(curs, dest, gap).len(),
        forall|k: int|
            0 <= k < monotone_routes(curs, dest, gap).len() ==> #[trigger] final(l)@[old(l).len() + k]@
                == old(s)@ + monotone_routes(curs, dest, gap)[k],
    decreases
        (if curs.0 <= dest.0 { dest.0 - curs.0 } else { curs.0 - dest.0 }) + (if curs.1 <= dest.1 {
            dest.1 - curs.1
        } else {
            curs.1 - dest.1
        }),
{
    if curs.0 == gap.0 && curs.1 == gap.1 {
        return;
    }
    if curs.0 == dest.0 && curs.1 == dest.1 {
        let mut route: Vec<u8> = Vec::new();
        for k in 0..s.len()
            invariant
                route@ == s@.subrange(0, k as int),
        {
            route.push(s[k]);
            assert(route@ =~= s@.subrange(0, k + 1));
        }
        assert(route@ =~= s@);
        route.push(65);
        l.push(route);
        return;
    }
    let ghost s0 = s@;
    let ghost l0 = l@;
    if curs.0 < dest.0 {
        s.push(118);
        generate((curs.0 + 1, curs.1), dest, s, l, gap);
        s.pop();
        assert(s@ =~= s0);
    } else if curs.0 > dest.0 {
        s.push(94);
        generate((curs.0 - 1, curs.1), dest, s, l, gap);
        s.pop();
        assert(s@ =~= s0);
    }
    let ghost l1 = l@;
    let ghost vertical = if curs.0 < dest.0 {
        monotone_routes(((curs.0 + 1) as usize, curs.1), dest, gap).map_values(|r: Seq<u8>| seq![118u8] + r)
    } else if curs.0 > dest.0 {
        monotone_routes(((curs.0 - 1) as usize, curs.1), dest, gap).map_values(|r: Seq<u8>| seq![94u8] + r)
    } else {
        Seq::empty()
    };
    proof {
        assert(l1.len() == l0.len() + vertical.len());
        assert forall|k: int| 0 <= k < vertical.len() implies #[trigger] l1[l0.len() + k]@ == s0 + vertical[k] by {
            if curs.0 < dest.0 {
                let inner = monotone_routes(((curs.0 + 1) as usize, curs.1), dest, gap);
                assert(l1[l0.len() + k]@ == s0.push(118u8) + inner[k]);
                assert(s0.push(118u8) + inner[k] =~= s0 + (seq![118u8] + inner[k]));
            } else {
                let inner = monotone_routes(((curs.0 - 1) as usize, curs.1), dest, gap);
                assert(l1[l0.len() + k]@ == s0.push(94u8) + inner[k]);
                assert(s0.push(94u8) + inner[k] =~= s0 + (seq![94u8] + inner[k]));
            }
        }
    }
    if curs.1 < dest.1 {
        s.push(62);
        generate((curs.0, curs.1 + 1), dest, s, l, gap);
        s.pop();
        assert(s@ =~= s0);
    } else if curs.1 > dest.1 {
        s.push(60);
        generate((curs.0, curs.1 - 1), dest, s, l, gap);
        s.pop();
        assert(s@ =~= s0);
    }
    proof {
        let l2 = l@;
        let horizontal = if curs.1 < dest.1 {
            monotone_routes((curs.0, (curs.1 + 1) as usize), dest, gap).map_values(|r: Seq<u8>| seq![62u8] + r)
        } else if curs.1 > dest.1 {
            monotone_routes((curs.0, (curs.1 - 1) as usize), dest, gap).map_values(|r: Seq<u8>| seq![60u8] + r)
        } else {
            Seq::empty()
        };
        assert(l2.len() == l1.len() + horizontal.len());
        assert forall|k: int| 0 <= k < horizontal.len() implies #[trigger] l2[l1.len() + k]@ == s0 + horizontal[k] by {
            if curs.1 < dest.1 {
                let inner = monotone_routes((curs.0, (curs.1 + 1) as usize), dest, gap);
                assert(l2[l1.len() + k]@ == s0.push(62u8) + inner[k]);
                assert(s0.push(62u8) + inner[k] =~= s0 + (seq![62u8] + inner[k]));
            } else {
                let inner = monotone_routes((curs.0, (curs.1 - 1) as usize), dest, gap);
                assert(l2[l1.len() + k]@ == s0.push(60u8) + inner[k]);
                assert(s0.push(60u8) + inner[k] =~= s0 + (seq![60u8] + inner[k]));
            }
        }
        let all = monotone_routes(curs, dest, gap);
        assert(all == vertical + horizontal);
        assert forall|k: int| 0 <= k < all.len() implies #[trigger] l2[l0.len() + k]@ == s0 + all[k] by {
            if k < vertical.len() {
                assert(l2[l0.len() + k] == l1[l0.len() + k]);
            } else {
                assert(l2[l1.len() + (k - vertical.len())]@ == s0 + horizontal[k - vertical.len()]);
            }
        }
    }
}

impl ClickMatrixv2 {
    /// The routes between all pairs of keys of a keypad laid out as `base`
    /// (a space marks no key), whose gap is at `gap`.
    pub fn from(base: &Vec<Vec<u8>>, gap: (usize, usize)) -> (r: ClickMatrixv2)
        ensures
            routes_wf(r),
            r.gap == gap,
    {
        let mut key: Vec<(u8, usize, usize)> = Vec::new();
        for i in 0..base.len() {
            let row = &base[i];
            for j in 0..row.len() {
                if row[j] != 32 {
                    key.push((row[j], i, j));
                }
            }
        }
        let n = key.len();
        let mut matrix: Vec<Vec<Vec<Vec<u8>>>> = Vec::new();
        for a in 0..n
            invariant
                n == key.len(),
                matrix.len() == a,
                forall|k: int| 0 <= k < a ==> (#[trigger] matrix@[k]).len() == n,
                forall|x: int, b: int, r: int|
                    0 <= x < a && 0 <= b < n && 0 <= r < matrix@[x]@[b].len() ==> {
                        let route = (#[trigger] matrix@[x]@[b]@[r])@;
                        &&& route.len() == manhattan(key_cell(key@[x]), key_cell(key@[b])) + 1
                        &&& route.last() == 65
                    },
                forall|x: int|
                    0 <= x < a && key_cell(key@[x]) != gap ==> (#[trigger] matrix@[x]@[x])@.len() == 1
                        && matrix@[x]@[x]@[0]@ == seq![65u8],
                forall|x: int, b: int|
                    0 <= x < a && 0 <= b < n ==> exact_routes(
                        #[trigger] matrix@[x]@[b]@,
                        monotone_routes(key_cell(key@[x]), key_cell(key@[b]), gap),
                    ),
        {
            let mut row: Vec<Vec<Vec<u8>>> = Vec::new();
            for b in 0..n
                invariant
                    n == key.len(),
                    a < n,
                    row.len() == b,
                    forall|y: int, r: int|
                        0 <= y < b && 0 <= r < row@[y].len() ==> {
                            let route = (#[trigger] row@[y]@[r])@;
                            &&& route.len() == manhattan(key_cell(key@[a as int]), key_cell(key@[y])) + 1
                            &&& route.last() == 65
                        },
                    a < b && key_cell(key@[a as int]) != gap ==> row@[a as int]@.len() == 1
                        && row@[a as int]@[0]@ == seq![65u8],
                    forall|y: int|
                        0 <= y < b ==> exact_routes(
                            #[trigger] row@[y]@,
                            monotone_routes(key_cell(key@[a as int]), key_cell(key@[y]), gap),
                        ),
            {
                let (_, i1, j1) = key[a];
                let (_, i2, j2) = key[b];
                let mut list: Vec<Vec<u8>> = Vec::new();
                let mut s: Vec<u8> = Vec::new();
                generate((i1, j1), (i2, j2), &mut s, &mut list, gap);
                proof {
                    if a == b && key_cell(key@[a as int]) != gap {
                        assert(list@[0]@ =~= seq![65u8]);
                    }
                    let rs = monotone_routes((i1, j1), (i2, j2), gap);
                    assert forall|r: int| 0 <= r < rs.len() implies #[trigger] list@[r]@ == rs[r] by {
                        assert(list@[0 + r]@ == Seq::<u8>::empty() + rs[r]);
                        assert(Seq::<u8>::empty() + rs[r] =~= rs[r]);
                    }
                }
                row.push(list);
            }
            matrix.push(row);
        }
        ClickMatrixv2 { matrix, key, gap }
    }

    /// The numeric keypad.
    pub fn numpad() -> (r: ClickMatrixv2)
        ensures
            routes_wf(r),
    {
        let base: Vec<Vec<u8>> = vec![vec![55, 56, 57], vec![52, 53, 54], vec![49, 50, 51], vec![32, 48, 65]];
        ClickMatrixv2::from(&base, (3, 0))
    }

    /// The directional keypad.
    pub fn dpad() -> (r: ClickMatrixv2)
        ensures
            routes_wf(r),
    {
        let base: Vec<Vec<u8>> = vec![vec![32, 94, 65], vec![60, 118, 62]];
        ClickMatrixv2::from(&base, (0, 0))
    }

    fn index_of(&self, c: u8) -> (r: Option<usize>)
        ensures
            r matches Some(k) ==> k < self.key.len() && self.key@[k as int].0 == c && forall|q: int|
                0 <= q < k ==> self.key@[q].0 != c,
            r is None ==> forall|k: int| 0 <= k < self.key.len() ==> self.key@[k].0 != c,
            r matches Some(k) ==> k as int == key_index(self.key@, c, 0),
            r is None ==> key_index(self.key@, c, 0) == -1,
    {
        for k in 0..self.key.len()
            invariant
                forall|q: int| 0 <= q < k ==> self.key@[q].0 != c,
                key_index(self.key@, c, 0) == key_index(self.key@, c, k as int),
        {
            if self.key[k].0 == c {
                return Some(k);
            }
        }
        None
    }

    /// The routes from key `src` to key `dest`; `None` where either is not a key.
    #[verifier::rlimit(40)]
    pub fn get(&self, src: u8, dest: u8) -> (r: Option<&Vec<Vec<u8>>>)
        requires
            routes_wf(*self),
        ensures
            r matches Some(routes) ==> exists|a: int, b: int|
                0 <= a < self.key.len() && 0 <= b < self.key.len() && self.key@[a].0 == src
                    && self.key@[b].0 == dest && routes == &self.matrix@[a]@[b],
            r matches Some(routes) ==> routes_between(*self, src, dest) == Some(routes@),
            r matches Some(routes) ==> exists|a: int, b: int|
                0 <= a < self.key.len() && 0 <= b < self.key.len() && self.key@[a].0 == src
                    && self.key@[b].0 == dest && exact_routes(
                    routes@,
                    monotone_routes(key_cell(self.key@[a]), key_cell(self.key@[b]), self.gap),
                ),
            r is None ==> routes_between(*self, src, dest) is None,
            r matches Some(routes) ==> forall|k: int|
                0 <= k < routes.len() ==> (#[trigger] routes@[k])@.last() == 65 && routes@[k]@.len()
                    == manhattan(
                    key_cell(self.key@[key_index(self.key@, src, 0)]),
                    key_cell(self.key@[key_index(self.key@, dest, 0)]),
                ) + 1,
            r matches Some(routes) ==> (src == dest ==> exists|a: int|
                0 <= a < self.key.len() && self.key@[a].0 == src && (key_cell(self.key@[a]) != self.gap
                    ==> routes@.len() == 1 && routes@[0]@ == seq![65u8])),
            r is None ==> forall|k: int|
                0 <= k < self.key.len() ==> self.key@[k].0 != src || forall|q: int|
                    0 <= q < self.key.len() ==> self.key@[q].0 != dest,
    {
        match (self.index_of(src), self.index_of(dest)) {
            (Some(a), Some(b)) => {
                let routes = &self.matrix[a][b];
                proof {
                    if src == dest {
                        assert(a == b);
                    }
                    assert forall|k: int| 0 <= k < routes.len() implies (#[trigger] routes@[k])@.last() == 65
                        && routes@[k]@.len() == manhattan(
                        key_cell(self.key@[key_index(self.key@, src, 0)]),
                        key_cell(self.key@[key_index(self.key@, dest, 0)]),
                    ) + 1 by {
                        assert(self.matrix@[a as int]@[b as int]@[k] == routes@[k]);
                        let route = self.matrix@[a as int]@[b as int]@[k]@;
                        assert(route.len() == manhattan(key_cell(self.key@[a as int]), key_cell(self.key@[b as int])) + 1);
                        assert(route.last() == 65);
                    }
                    assert(exact_routes(
                        self.matrix@[a as int]@[b as int]@,
                        monotone_routes(key_cell(self.key@[a as int]), key_cell(self.key@[b as int]), self.gap),
                    ));
                }
                Some(routes)
            },
            _ => None,
        }
    }
}

pub open spec fn matrix_wf(m: ClickMatrixv2) -> bool {
    routes_wf(m)
}

/// A daisy chain of keypads: the first is typed on by a robot driven from
/// the second, and so on.
pub struct ClickChain {
    pub steps: Vec<ClickMatrixv2>,
}

/// The position of the first key `c` at or after `i`, or `-1`.
pub open spec fn key_index(keys: Seq<(u8, usize, usize)>, c: u8, i: int) -> int
    decreases keys.len() - i,
{
    if i < 0 || i >= keys.len() {
        -1
    } else if keys[i].0 == c {
        i
    } else {
        key_index(keys, c, i + 1)
    }
}

/// The routes from key `from` to key `to` of a keypad, if both are keys.
pub open spec fn routes_between(m: ClickMatrixv2, from: u8, to: u8) -> Option<Seq<Vec<u8>>> {
    let a = key_index(m.key@, from, 0);
    let b = key_index(m.key@, to, 0);
    if a >= 0 && b >= 0 {
        Some(m.matrix@[a]@[b]@)
    } else {
        None
    }
}

/// `x`, or `u64::MAX` where it is larger.
pub open spec fn cap(x: nat) -> nat {
    if x > u64::MAX {
        u64::MAX as nat
    } else {
        x
    }
}

/// The presses on the keypad after `depth` that type `input` on keypad
/// `depth`, the fewest (past the last keypad, the input itself); capped at
/// `u64::MAX`, which also stands for a key that cannot be typed.
pub open spec fn press_cost(steps: Seq<ClickMatrixv2>, depth: int, input: Seq<u8>) -> nat
    decreases steps.len() - depth, 3nat, 0int,
{
    if depth < 0 || depth >= steps.len() {
        cap(input.len())
    } else {
        typing_cost(steps, depth, input, input.len() as int)
    }
}

/// The presses for the first `k` keys of `input` on keypad `depth`, the arm
/// starting on `A`: for each key, the fewest over the routes to it.
pub open spec fn typing_cost(steps: Seq<ClickMatrixv2>, depth: int, input: Seq<u8>, k: int) -> nat
    decreases steps.len() - depth, 2nat, k,
{
    if depth < 0 || depth >= steps.len() || k <= 0 {
        0
    } else {
        let from: u8 = if k == 1 {
            65
        } else {
            input[k - 2]
        };
        let step = match routes_between(steps[depth], from, input[k - 1]) {
            Some(rs) => best_route(steps, depth, rs, rs.len() as int),
            None => u64::MAX as nat,
        };
        cap(typing_cost(steps, depth, input, k - 1) + step)
    }
}

/// The fewest presses, over the first `n` routes, on the keypad after `depth`.
pub open spec fn best_route(steps: Seq<ClickMatrixv2>, depth: int, rs: Seq<Vec<u8>>, n: int) -> nat
    decreases steps.len() - depth, 1nat, n,
{
    if depth < 0 || depth >= steps.len() || n <= 0 {
        u64::MAX as nat
    } else {
        let rest = best_route(steps, depth, rs, n - 1);
        let here = press_cost(steps, depth + 1, rs[n - 1]@);
        if here < rest {
            here
        } else {
            rest
        }
    }
}

impl ClickChain {
    pub open spec fn wf(&self) -> bool {
        forall|k: int| 0 <= k < self.steps.len() ==> matrix_wf(#[trigger] self.steps@[k])
    }

    pub fn from(steps: Vec<ClickMatrixv2>) -> (r: ClickChain)
        ensures
            r.steps@ == steps@,
    {
        ClickChain { steps }
    }

    /// The fewest presses on the last keypad that type `input` on the first.
    pub fn find_shortest_len(&self, input: &Vec<u8>) -> (r: u64)
        requires
            self.wf(),
        ensures
            r == press_cost(self.steps@, 0, input@),
    {
        self.find_shortest_len_inner(input, 0)
    }

    /// The fewest presses on the keypad after `depth` that type `input` on
    /// keypad `depth`.
    fn find_shortest_len_inner(&self, input: &Vec<u8>, depth: usize) -> (r: u64)
        requires
            self.wf(),
        ensures
            r == press_cost(self.steps@, depth as int, input@),
        decreases self.steps.len() - depth,
    {
        if depth >= self.steps.len() {
            return if input.len() as u128 > u64::MAX as u128 {
                u64::MAX
            } else {
                input.len() as u64
            };
        }
        let pad = &self.steps[depth];
        let mut from: u8 = 65;
        let mut best: u64 = 0;
        for k in 0..input.len()
            invariant
                self.wf(),
                depth < self.steps.len(),
                pad == &self.steps@[depth as int],
                best == typing_cost(self.steps@, depth as int, input@, k as int),
                from == (if k == 0 { 65u8 } else { input@[k - 1] }),
        {
            let to = input[k];
            let mut shortest: u64 = u64::MAX;
            match pad.get(from, to) {
                Some(paths) => {
                    for p in 0..paths.len()
                        invariant
                            self.wf(),
                            depth < self.steps.len(),
                            shortest == best_route(self.steps@, depth as int, paths@, p as int),
                    {
                        let len = self.find_shortest_len_inner(&paths[p], depth + 1);
                        if len < shortest {
                            shortest = len;
                        }
                    }
                },
                None => {},
            }
            best = if shortest > u64::MAX - best {
                u64::MAX
            } else {
                best + shortest
            };
            from = to;
        }
        best
    }
}

/// The sum over the door codes of the code's number times the fewest
/// presses that type it through a numeric keypad and two directional ones.
/// No result where the sum does not fit.
pub fn handle_puzzle1(input: &str) -> (r: Option<u64>) {
    let t = input.as_bytes();
    let chain = ClickChain::from(vec![ClickMatrixv2::numpad(), ClickMatrixv2::dpad(), ClickMatrixv2::dpad()]);
    let mut total: u64 = 0;
    let mut i: usize = 0;
    while i < t.len()
        invariant
            i <= t.len(),
            chain.wf(),
        decreases t.len() - i,
    {
        let mut line: Vec<u8> = Vec::new();
        let mut code: u64 = 0;
        let ghost start = i;
        while i < t.len() && t[i] != 10
            invariant
                start <= i <= t.len(),
            decreases t.len() - i,
        {
            let b = t[i];
            line.push(b);
            if 48 <= b && b <= 57 {
                let d = (b - 48) as u64;
                if code > (u64::MAX - d) / 10 {
                    return None;
                }
                code = code * 10 + d;
            }
            i = i + 1;
        }
        if line.len() > 0 {
            let presses = chain.find_shortest_len(&line);
            let c = code as u128;
            let p = presses as u128;
            assert(c * p <= u128::MAX) by (nonlinear_arith)
                requires
                    c <= u64::MAX,
                    p <= u64::MAX,
            ;
            let value = c * p;
            if value > (u64::MAX - total) as u128 {
                return None;
            }
            total = total + value as u64;
        }
        if i < t.len() {
            i = i + 1;
        }
    }
    Some(total)
}

} // verus!
