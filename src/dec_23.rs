use crate::dec_01::sorted;
use vstd::prelude::*;
use vstd::string::{is_ascii_spec_bytes, StrSliceExecFns, StringExecFns, StringSliceAdditionalSpecFns};

verus! {

/// Computers are named by two bytes, packed as `b0 * 256 + b1`.
pub open spec fn adjacent(edges: Seq<(u16, u16)>, a: u16, b: u16) -> bool {
    exists|k: int| 0 <= k < edges.len() && (edges[k] == (a, b) || edges[k] == (b, a))
}

fn is_adjacent(edges: &Vec<(u16, u16)>, a: u16, b: u16) -> (r: bool)
    ensures
        r == adjacent(edges@, a, b),
{
    for k in 0..edges.len()
        invariant
            forall|j: int| 0 <= j < k ==> edges@[j] != (a, b) && edges@[j] != (b, a),
    {
        let (x, y) = edges[k];
        if (x == a && y == b) || (x == b && y == a) {
            return true;
        }
    }
    false
}

fn contains(v: &Vec<u16>, x: u16) -> (r: bool)
    ensures
        r == v@.contains(x),
{
    for k in 0..v.len()
        invariant
            forall|j: int| 0 <= j < k ==> v@[j] != x,
    {
        if v[k] == x {
            return true;
        }
    }
    false
}

/// `a` and `n` are linked by one of the first `k` links.
pub open spec fn linked_upto(edges: Seq<(u16, u16)>, a: u16, n: u16, k: int) -> bool {
    exists|j: int| 0 <= j < k && (edges[j] == (a, n) || edges[j] == (n, a))
}

/// The neighbours of `a`, each once.
pub fn neighbours(edges: &Vec<(u16, u16)>, a: u16) -> (r: Vec<u16>)
    ensures
        forall|k: int| 0 <= k < r.len() ==> adjacent(edges@, a, #[trigger] r@[k]),
        forall|n: u16| #[trigger] adjacent(edges@, a, n) ==> r@.contains(n),
        r@.no_duplicates(),
{
    let mut r: Vec<u16> = Vec::new();
    let mut k: usize = 0;
    while k < edges.len()
        invariant
            k <= edges.len(),
            forall|j: int| 0 <= j < r.len() ==> adjacent(edges@, a, #[trigger] r@[j]),
            forall|n: u16| #[trigger] linked_upto(edges@, a, n, k as int) ==> r@.contains(n),
            r@.no_duplicates(),
        decreases edges.len() - k,
    {
        let (x, y) = edges[k];
        let other = if x == a {
            Some(y)
        } else if y == a {
            Some(x)
        } else {
            None
        };
        let ghost before = r@;
        match other {
            Some(n) => {
                if !contains(&r, n) {
                    assert(adjacent(edges@, a, n)) by {
                        assert(edges@[k as int] == (a, n) || edges@[k as int] == (n, a));
                    }
                    r.push(n);
                    assert(r@[r.len() - 1] == n);
                }
            },
            None => {},
        }
        proof {
            assert forall|n: u16| #[trigger] linked_upto(edges@, a, n, k + 1) implies r@.contains(n) by {
                if linked_upto(edges@, a, n, k as int) {
                    assert(before.contains(n));
                    let q = choose|q: int| 0 <= q < before.len() && before[q] == n;
                    assert(r@[q] == n);
                } else {
                    assert(edges@[k as int] == (a, n) || edges@[k as int] == (n, a));
                    assert(other == Some(n));
                    if before.contains(n) {
                        let q = choose|q: int| 0 <= q < before.len() && before[q] == n;
                        assert(r@[q] == n);
                    }
                }
            }
        }
        k = k + 1;
    }
    proof {
        assert forall|n: u16| #[trigger] adjacent(edges@, a, n) implies r@.contains(n) by {
            assert(linked_upto(edges@, a, n, edges.len() as int));
        }
    }
    r
}

/// Computer `n` has a neighbour outside the clique.
pub open spec fn escapes(graph: Seq<(u16, u16)>, clique: Seq<u16>, n: u16) -> bool {
    exists|m: u16| adjacent(graph, n, m) && !clique.contains(m)
}

/// The search would grow the clique: some neighbour of a member lies
/// outside it and has all its own neighbours inside it.
pub open spec fn extendable(graph: Seq<(u16, u16)>, clique: Seq<u16>) -> bool {
    exists|e: u16, n: u16|
        #![trigger adjacent(graph, e, n)]
        clique.contains(e) && adjacent(graph, e, n) && !clique.contains(n) && !escapes(graph, clique, n)
}

/// Whether the clique cannot be grown the way the search grows cliques.
pub fn is_maximal_clique(graph: &Vec<(u16, u16)>, clique: &Vec<u16>) -> (r: bool)
    ensures
        r == !extendable(graph@, clique@),
{
    for i in 0..clique.len()
        invariant
            forall|i2: int, n: u16|
                0 <= i2 < i && #[trigger] adjacent(graph@, clique@[i2], n) && !clique@.contains(n) ==> escapes(
                    graph@,
                    clique@,
                    n,
                ),
    {
        let e = clique[i];
        let ns = neighbours(graph, e);
        for k in 0..ns.len()
            invariant
                0 <= i < clique.len(),
                e == clique@[i as int],
                forall|j: int| 0 <= j < ns.len() ==> adjacent(graph@, e, #[trigger] ns@[j]),
                forall|j: int| 0 <= j < k && !clique@.contains(#[trigger] ns@[j]) ==> escapes(graph@, clique@, ns@[j]),
                forall|i2: int, n: u16|
                    0 <= i2 < i && #[trigger] adjacent(graph@, clique@[i2], n) && !clique@.contains(n) ==> escapes(
                        graph@,
                        clique@,
                        n,
                    ),
        {
            let n = ns[k];
            if !contains(clique, n) {
                let nn = neighbours(graph, n);
                let mut all_in = true;
                for j in 0..nn.len()
                    invariant
                        forall|m: u16| #[trigger] adjacent(graph@, n, m) ==> nn@.contains(m),
                        forall|q: int| 0 <= q < nn.len() ==> adjacent(graph@, n, #[trigger] nn@[q]),
                        all_in ==> forall|q: int| 0 <= q < j ==> clique@.contains(#[trigger] nn@[q]),
                        !all_in ==> escapes(graph@, clique@, n),
                {
                    if !contains(clique, nn[j]) {
                        assert(adjacent(graph@, n, nn@[j as int]));
                        all_in = false;
                    }
                }
                if all_in {
                    proof {
                        assert(clique@[i as int] == e);
                        assert(clique@.contains(e));
                        assert(adjacent(graph@, e, n));
                        assert(!escapes(graph@, clique@, n)) by {
                            assert forall|m: u16| adjacent(graph@, n, m) implies clique@.contains(m) by {
                                assert(nn@.contains(m));
                                let q = choose|q: int| 0 <= q < nn.len() && nn@[q] == m;
                                assert(clique@.contains(nn@[q]));
                            }
                        }
                    }
                    return false;
                }
            }
        }
        proof {
            assert forall|i2: int, n: u16|
                0 <= i2 < i + 1 && #[trigger] adjacent(graph@, clique@[i2], n) && !clique@.contains(n) implies escapes(
                    graph@,
                    clique@,
                    n,
                ) by {
                if i2 == i {
                    assert(ns@.contains(n));
                    let q = choose|q: int| 0 <= q < ns.len() && ns@[q] == n;
                    assert(!clique@.contains(ns@[q]));
                }
            }
        }
    }
    proof {
        if extendable(graph@, clique@) {
            let (e, n) = choose|e: u16, n: u16|
                #![trigger adjacent(graph@, e, n)]
                clique@.contains(e) && adjacent(graph@, e, n) && !clique@.contains(n) && !escapes(
                    graph@,
                    clique@,
                    n,
                );
            let i2 = choose|i2: int| 0 <= i2 < clique.len() && clique@[i2] == e;
            assert(adjacent(graph@, clique@[i2], n));
        }
    }
    true
}

/// `clique` with `n` put in its place, keeping the names in ascending order.
fn insert_sorted(clique: &Vec<u16>, n: u16) -> (r: Vec<u16>)
    ensures
        r.len() == clique.len() + 1,
        forall|y: u16| #[trigger] r@.contains(y) <==> clique@.contains(y) || y == n,
{
    let mut wide: Vec<u32> = Vec::new();
    for i in 0..clique.len()
        invariant
            wide.len() == i,
            forall|k: int| 0 <= k < i ==> #[trigger] wide@[k] == clique@[k] as u32,
    {
        wide.push(clique[i] as u32);
    }
    wide.push(n as u32);
    let ghost w = wide@;
    let ordered = sorted(wide);
    proof {
        ordered@.to_multiset_ensures();
        w.to_multiset_ensures();
        assert forall|z: u32| ordered@.contains(z) <==> w.contains(z) by {
            vstd::seq_lib::to_multiset_contains(ordered@, z);
            vstd::seq_lib::to_multiset_contains(w, z);
        }
    }
    let mut r: Vec<u16> = Vec::new();
    for i in 0..ordered.len()
        invariant
            r.len() == i,
            i <= ordered.len(),
            forall|k: int| 0 <= k < i ==> #[trigger] r@[k] as u32 == ordered@[k],
            forall|z: u32| ordered@.contains(z) <==> w.contains(z),
            w.len() == clique.len() + 1,
            forall|k: int| 0 <= k < clique.len() ==> #[trigger] w[k] == clique@[k] as u32,
            w[clique.len() as int] == n as u32,
    {
        let z = ordered[i];
        proof {
            assert(ordered@.contains(z));
            assert(w.contains(z));
            let k = choose|k: int| 0 <= k < w.len() && w[k] == z;
            if k < clique.len() {
                assert(w[k] == clique@[k] as u32);
            }
        }
        r.push(z as u16);
    }
    proof {
        assert forall|y: u16| #[trigger] r@.contains(y) <==> clique@.contains(y) || y == n by {
            if r@.contains(y) {
                let k = choose|k: int| 0 <= k < r.len() && r@[k] == y;
                assert(r@[k] as u32 == ordered@[k]);
                assert(ordered@[k] == y as u32);
                assert(ordered@.contains(y as u32));
                assert(w.contains(y as u32));
                let j = choose|j: int| 0 <= j < w.len() && w[j] == y as u32;
                if j < clique.len() {
                    assert(clique@[j] == y);
                }
            }
            if clique@.contains(y) || y == n {
                let j = if y == n {
                    clique.len() as int
                } else {
                    choose|j: int| 0 <= j < clique.len() && clique@[j] == y
                };
                assert(w[j] == y as u32);
                assert(w.contains(y as u32));
                assert(ordered@.contains(y as u32));
                let k = choose|k: int| 0 <= k < ordered.len() && ordered@[k] == y as u32;
                assert(r@[k] as u32 == y as u32);
            }
        }
    }
    r
}

fn same(a: &Vec<u16>, b: &Vec<u16>) -> (r: bool)
    ensures
        r == (a@ == b@),
{
    if a.len() != b.len() {
        return false;
    }
    for i in 0..a.len()
        invariant
            a.len() == b.len(),
            forall|k: int| 0 <= k < i ==> a@[k] == b@[k],
    {
        if a[i] != b[i] {
            return false;
        }
    }
    assert(a@ =~= b@);
    true
}

/// Every clique grown by one computer that is linked to all its members,
/// each grown clique once (names in ascending order).
/// `x` is one of `cliques` grown by a computer `n` outside it that is
/// linked to every member: its computers are exactly the clique's and `n`.
pub open spec fn grown_from(graph: Seq<(u16, u16)>, cliques: Seq<Vec<u16>>, x: Seq<u16>) -> bool {
    exists|c: int, n: u16|
        #![trigger cliques[c], x.contains(n)]
        0 <= c < cliques.len() && !cliques[c]@.contains(n) && x.len() == cliques[c]@.len() + 1
            && (forall|m: u16| cliques[c]@.contains(m) ==> adjacent(graph, n, m))
            && (forall|y: u16| x.contains(y) <==> cliques[c]@.contains(y) || y == n)
}

pub fn extend_cliques(graph: &Vec<(u16, u16)>, cliques: &Vec<Vec<u16>>) -> (r: Vec<Vec<u16>>)
    ensures
        forall|k: int| 0 <= k < r.len() ==> grown_from(graph@, cliques@, #[trigger] r@[k]@),
        forall|k1: int, k2: int| 0 <= k1 < k2 < r.len() ==> r@[k1]@ != r@[k2]@,
{
    let mut out: Vec<Vec<u16>> = Vec::new();
    for c in 0..cliques.len()
        invariant
            forall|k: int| 0 <= k < out.len() ==> grown_from(graph@, cliques@, #[trigger] out@[k]@),
            forall|k1: int, k2: int| 0 <= k1 < k2 < out.len() ==> out@[k1]@ != out@[k2]@,
    {
        let clique = &cliques[c];
        for i in 0..clique.len()
            invariant
                0 <= c < cliques.len(),
                clique == &cliques@[c as int],
                forall|k: int| 0 <= k < out.len() ==> grown_from(graph@, cliques@, #[trigger] out@[k]@),
                forall|k1: int, k2: int| 0 <= k1 < k2 < out.len() ==> out@[k1]@ != out@[k2]@,
        {
            let ns = neighbours(graph, clique[i]);
            for j in 0..ns.len()
                invariant
                    0 <= c < cliques.len(),
                    clique == &cliques@[c as int],
                    forall|k: int| 0 <= k < out.len() ==> grown_from(graph@, cliques@, #[trigger] out@[k]@),
                    forall|k1: int, k2: int| 0 <= k1 < k2 < out.len() ==> out@[k1]@ != out@[k2]@,
            {
                let n = ns[j];
                if !contains(clique, n) {
                    let mut linked = true;
                    for q in 0..clique.len()
                        invariant
                            linked ==> forall|q2: int| 0 <= q2 < q ==> adjacent(graph@, n, #[trigger] clique@[q2]),
                    {
                        if !is_adjacent(graph, n, clique[q]) {
                            linked = false;
                        }
                    }
                    if linked {
                        let grown = insert_sorted(clique, n);
                        let mut seen = false;
                        for q in 0..out.len()
                            invariant
                                !seen ==> forall|k: int| 0 <= k < q ==> out@[k]@ != grown@,
                        {
                            if same(&out[q], &grown) {
                                seen = true;
                            }
                        }
                        if !seen {
                            proof {
                                assert forall|m: u16| clique@.contains(m) implies adjacent(graph@, n, m) by {
                                    let q2 = choose|q2: int| 0 <= q2 < clique.len() && clique@[q2] == m;
                                    assert(adjacent(graph@, n, clique@[q2]));
                                }
                                assert(grown@.contains(n));
                                assert(cliques@[c as int]@ == clique@);
                            }
                            assert(grown_from(graph@, cliques@, grown@));
                            let ghost before = out@;
                            out.push(grown);
                            proof {
                                assert forall|k: int| 0 <= k < out.len() implies grown_from(graph@, cliques@, #[trigger] out@[k]@) by {
                                    if k < before.len() {
                                        assert(out@[k] == before[k]);
                                    }
                                }
                                assert forall|k1: int, k2: int| 0 <= k1 < k2 < out.len() implies out@[k1]@ != out@[k2]@ by {
                                    assert(out@[k1] == before[k1]);
                                    if k2 < before.len() {
                                        assert(out@[k2] == before[k2]);
                                    }
                                }
                            }
                        }
                    }
                }
            }
        }
    }
    out
}

/// The computers and links of the network map: one `aa-bb` per line, each
/// name two bytes. No result where a line has another shape.
pub fn parse(input: &str) -> (r: Option<(Vec<(u16, u16)>, Vec<(u16, usize)>)>)
    ensures
        r matches Some((edges, names)) ==> forall|k: int|
            0 <= k < names.len() ==> names@[k].1 + 2 <= input.spec_bytes().len(),
{
    let t = input.as_bytes();
    let mut edges: Vec<(u16, u16)> = Vec::new();
    let mut names: Vec<(u16, usize)> = Vec::new();
    let mut i: usize = 0;
    while i < t.len()
        invariant
            t@ == input.spec_bytes(),
            i <= t.len(),
            forall|k: int| 0 <= k < names.len() ==> names@[k].1 + 2 <= t.len(),
        decreases t.len() - i,
    {
        if t[i] == 10 {
            i = i + 1;
        } else {
            if t.len() - i < 5 || t[i + 2] != 45 {
                return None;
            }
            if t.len() - i > 5 && t[i + 5] != 10 {
                return None;
            }
            let a = t[i] as u16 * 256 + t[i + 1] as u16;
            let b = t[i + 3] as u16 * 256 + t[i + 4] as u16;
            edges.push((a, b));
            let mut has_a = false;
            let mut has_b = false;
            for k in 0..names.len() {
                if names[k].0 == a {
                    has_a = true;
                }
                if names[k].0 == b {
                    has_b = true;
                }
            }
            if !has_a {
                names.push((a, i));
            }
            if !has_b && a != b {
                names.push((b, i + 3));
            }
            i = i + 5;
        }
    }
    Some((edges, names))
}

/// The number of sets of three mutually linked computers of which at least
/// one has a name that starts with `t`. No result where the text is not a
/// network map.
pub fn handle_puzzle1(input: &str) -> (r: Option<usize>) {
    let (edges, names) = match parse(input) {
        Some(p) => p,
        None => {
            return None;
        },
    };
    let n = names.len();
    let mut count: usize = 0;
    for i in 0..n
        invariant
            n == names.len(),
    {
        for j in i + 1..n
            invariant
                n == names.len(),
                i < n,
        {
            for k in j + 1..n
                invariant
                    n == names.len(),
                    i < j < n,
            {
                let (a, b, c) = (names[i].0, names[j].0, names[k].0);
                let t = a / 256 == 116 || b / 256 == 116 || c / 256 == 116;
                if t && is_adjacent(&edges, a, b) && is_adjacent(&edges, b, c) && is_adjacent(
                    &edges,
                    a,
                    c,
                ) {
                    if count == usize::MAX {
                        return None;
                    }
                    count = count + 1;
                }
            }
        }
    }
    Some(count)
}

/// The names of a largest clique grown from the triangles of the network,
/// in ascending order and run together. Empty where the text is not an
/// ASCII network map or has no triangle.
pub fn handle_puzzle2(input: &str) -> (r: String) {
    if !input.is_ascii() {
        return String::new();
    }
    proof {
        is_ascii_spec_bytes(input);
    }
    let (edges, names) = match parse(input) {
        Some(p) => p,
        None => {
            return String::new();
        },
    };
    let n = names.len();
    let mut cliques: Vec<Vec<u16>> = Vec::new();
    for i in 0..n
        invariant
            n == names.len(),
            input.is_ascii(),
            input.spec_bytes().len() == input@.len(),
            forall|q: int| 0 <= q < names.len() ==> names@[q].1 + 2 <= input.spec_bytes().len(),
    {
        for j in i + 1..n
            invariant
                n == names.len(),
                i < n,
                input.is_ascii(),
                input.spec_bytes().len() == input@.len(),
                forall|q: int| 0 <= q < names.len() ==> names@[q].1 + 2 <= input.spec_bytes().len(),
        {
            for k in j + 1..n
                invariant
                    n == names.len(),
                    i < j < n,
                    input.is_ascii(),
                    input.spec_bytes().len() == input@.len(),
                    forall|q: int| 0 <= q < names.len() ==> names@[q].1 + 2 <= input.spec_bytes().len(),
            {
                let (a, b, c) = (names[i].0, names[j].0, names[k].0);
                if is_adjacent(&edges, a, b) && is_adjacent(&edges, b, c) && is_adjacent(&edges, a, c) {
                    let t1 = insert_sorted(&Vec::new(), a);
                    let t2 = insert_sorted(&t1, b);
                    cliques.push(insert_sorted(&t2, c));
                }
            }
        }
    }
    for round in 0..n
        invariant
            input.is_ascii(),
            input.spec_bytes().len() == input@.len(),
            forall|q: int| 0 <= q < names.len() ==> names@[q].1 + 2 <= input.spec_bytes().len(),
    {
        let next = extend_cliques(&edges, &cliques);
        if next.len() == 0 {
            break;
        }
        cliques = next;
    }
    let mut out = String::new();
    if cliques.len() == 0 {
        return out;
    }
    let best = &cliques[0];
    for m in 0..best.len()
        invariant
            input.is_ascii(),
            input.spec_bytes().len() == input@.len(),
            forall|q: int| 0 <= q < names.len() ==> names@[q].1 + 2 <= input.spec_bytes().len(),
    {
        let code = best[m];
        for k in 0..names.len()
            invariant
                input.is_ascii(),
                input.spec_bytes().len() == input@.len(),
                forall|q: int| 0 <= q < names.len() ==> names@[q].1 + 2 <= input.spec_bytes().len(),
        {
            if names[k].0 == code {
                let p = names[k].1;
                if p <= usize::MAX - 2 {
                    out.append(input.substring_ascii(p, p + 2));
                }
            }
        }
    }
    out
}

} // verus!
