use vstd::prelude::*;
use vstd::string::StringSliceAdditionalSpecFns;

verus! {

/// The position of the first `x` in `s`, or `-1`.
pub open spec fn index_of(s: Seq<u8>, x: u8) -> int {
    index_from(s, x, 0)
}

pub open spec fn index_from(s: Seq<u8>, x: u8, i: int) -> int
    decreases s.len() - i,
{
    if i < 0 || i >= s.len() {
        -1
    } else if s[i] == x {
        i
    } else {
        index_from(s, x, i + 1)
    }
}

/// An update breaks the rule `(a, b)` when both pages are in it and `b` comes first.
pub open spec fn breaks(update: Seq<u8>, rule: (u8, u8)) -> bool {
    index_of(update, rule.0) >= 0 && index_of(update, rule.1) >= 0 && index_of(update, rule.0)
        >= index_of(update, rule.1)
}

pub open spec fn update_correct(rules: Seq<(u8, u8)>, update: Seq<u8>) -> bool {
    forall|k: int| 0 <= k < rules.len() ==> !#[trigger] breaks(update, rules[k])
}

/// The rules say that page `a` must precede page `b`.
pub open spec fn must_precede(edges: Seq<(u8, u8)>, a: u8, b: u8) -> bool {
    exists|k: int| 0 <= k < edges.len() && edges[k] == (a, b)
}

/// Some page of `out[from..]` other than the one at `q` must precede `out[q]`.
pub open spec fn has_pred(edges: Seq<(u8, u8)>, out: Seq<u8>, from: int, q: int) -> bool {
    exists|m: int| from <= m < out.len() && m != q && #[trigger] must_precede(edges, out[m], out[q])
}

/// No page after one of the first `k` pages of `r` must precede it, and
/// every page at `k` up to `c` has a page from `k` on that must precede it
/// (so those pages hold a cycle of rules; with no cycle, `k` is `c`).
pub open spec fn ordered_until(edges: Seq<(u8, u8)>, r: Seq<u8>, k: int, c: int) -> bool {
    &&& forall|p: int, q: int| 0 <= p < k && p < q < r.len() ==> !must_precede(edges, r[q], r[p])
    &&& forall|q: int| k <= q < c ==> has_pred(edges, r, k, q)
}

/// Page `x` appears in some rule.
pub open spec fn in_rules(edges: Seq<(u8, u8)>, x: u8) -> bool {
    exists|k: int| 0 <= k < edges.len() && (edges[k].0 == x || edges[k].1 == x)
}

/// The pages among the first `n` of `list` that appear in some rule, in order.
pub open spec fn ruled_pages(edges: Seq<(u8, u8)>, list: Seq<u8>, n: int) -> Seq<u8>
    decreases n,
{
    if n <= 0 {
        Seq::empty()
    } else if in_rules(edges, list[n - 1]) {
        ruled_pages(edges, list, n - 1).push(list[n - 1])
    } else {
        ruled_pages(edges, list, n - 1)
    }
}

/// The pages among the first `n` of `list` that appear in no rule, in order.
pub open spec fn free_pages(edges: Seq<(u8, u8)>, list: Seq<u8>, n: int) -> Seq<u8>
    decreases n,
{
    if n <= 0 {
        Seq::empty()
    } else if in_rules(edges, list[n - 1]) {
        free_pages(edges, list, n - 1)
    } else {
        free_pages(edges, list, n - 1).push(list[n - 1])
    }
}

/// `r` orders `list`: it is a rearrangement whose first `c` pages are those
/// under some rule, ordered up to `k` (a cycle of rules from `k` on), and
/// whose other pages are those under no rule, last and in `list`'s order.
pub open spec fn sorted_as(edges: Seq<(u8, u8)>, list: Seq<u8>, r: Seq<u8>, k: int, c: int) -> bool {
    &&& 0 <= k <= c <= r.len()
    &&& r.to_multiset() == list.to_multiset()
    &&& ordered_until(edges, r, k, c)
    &&& forall|q: int| 0 <= q < c ==> in_rules(edges, #[trigger] r[q])
    &&& r.subrange(c, r.len() as int) == free_pages(edges, list, list.len() as int)
}

proof fn lemma_split_pages(edges: Seq<(u8, u8)>, list: Seq<u8>, n: int)
    requires
        0 <= n <= list.len(),
    ensures
        (ruled_pages(edges, list, n) + free_pages(edges, list, n)).to_multiset() == list.subrange(0, n).to_multiset(),
        forall|q: int| 0 <= q < ruled_pages(edges, list, n).len() ==> in_rules(edges, #[trigger] ruled_pages(edges, list, n)[q]),
        forall|q: int| 0 <= q < free_pages(edges, list, n).len() ==> !in_rules(edges, #[trigger] free_pages(edges, list, n)[q]),
    decreases n,
{
    broadcast use vstd::seq_lib::lemma_multiset_commutative;
    broadcast use vstd::multiset::group_multiset_axioms;

    if n > 0 {
        lemma_split_pages(edges, list, n - 1);
        let a = ruled_pages(edges, list, n - 1);
        let b = free_pages(edges, list, n - 1);
        let x = list[n - 1];
        assert(list.subrange(0, n) =~= list.subrange(0, n - 1).push(x));
        list.subrange(0, n - 1).to_multiset_ensures();
        a.to_multiset_ensures();
        b.to_multiset_ensures();
        let m = list.subrange(0, n - 1).to_multiset();
        assert(list.subrange(0, n).to_multiset() == m.insert(x));
        assert((a + b).to_multiset() =~= a.to_multiset().add(b.to_multiset()));
        if in_rules(edges, x) {
            assert(ruled_pages(edges, list, n) == a.push(x));
            assert(free_pages(edges, list, n) == b);
            assert((a.push(x) + b).to_multiset() =~= a.push(x).to_multiset().add(b.to_multiset()));
            assert(a.push(x).to_multiset() == a.to_multiset().insert(x));
            assert(a.to_multiset().insert(x).add(b.to_multiset()) =~= a.to_multiset().add(b.to_multiset()).insert(x));
        } else {
            assert(ruled_pages(edges, list, n) == a);
            assert(free_pages(edges, list, n) == b.push(x));
            assert(a + b.push(x) =~= (a + b).push(x));
            (a + b).to_multiset_ensures();
            assert((a + b).push(x).to_multiset() == (a + b).to_multiset().insert(x));
        }
    } else {
        assert(list.subrange(0, 0) =~= Seq::<u8>::empty());
        assert(ruled_pages(edges, list, 0) + free_pages(edges, list, 0) =~= Seq::<u8>::empty());
    }
}

/// The ordering rules as a graph on pages: `(a, b)` is an edge from `a` to `b`.
pub struct TopologicalSort {
    pub edges: Vec<(u8, u8)>,
}

/// A set of page-ordering rules: page `a` must come before page `b`.
pub struct Constraints {
    pub top: TopologicalSort,
    pub constraints: Vec<(u8, u8)>,
}

fn position(update: &Vec<u8>, x: u8) -> (r: Option<usize>)
    ensures
        r matches Some(k) ==> k as int == index_of(update@, x),
        r is None ==> index_of(update@, x) == -1,
{
    for i in 0..update.len()
        invariant
            index_of(update@, x) == index_from(update@, x, i as int),
    {
        if update[i] == x {
            return Some(i);
        }
    }
    None
}

fn copy_rules(v: &Vec<(u8, u8)>) -> (r: Vec<(u8, u8)>)
    ensures
        r@ == v@,
{
    let mut r: Vec<(u8, u8)> = Vec::new();
    for i in 0..v.len()
        invariant
            r@ == v@.subrange(0, i as int),
    {
        r.push(v[i]);
        assert(r@ =~= v@.subrange(0, i + 1));
    }
    assert(r@ =~= v@);
    r
}

impl TopologicalSort {
    pub fn from_constraints(constraints: Vec<(u8, u8)>) -> (r: TopologicalSort)
        ensures
            r.edges@ == constraints@,
    {
        TopologicalSort { edges: constraints }
    }

    /// No page of `out[from..]` other than the one at `q` must precede `out[q]`.
    fn ready(&self, out: &Vec<u8>, from: usize, q: usize) -> (r: bool)
        requires
            from <= q < out.len(),
        ensures
            r == !has_pred(self.edges@, out@, from as int, q as int),
    {
        let x = out[q];
        for k in 0..self.edges.len()
            invariant
                from <= q < out.len(),
                x == out@[q as int],
                forall|k2: int, m: int|
                    0 <= k2 < k && from <= m < out.len() && m != q ==> self.edges@[k2] != (out@[m], x),
        {
            let (a, b) = self.edges[k];
            if b == x {
                for m in from..out.len()
                    invariant
                        from <= q < out.len(),
                        x == out@[q as int],
                        b == x,
                        k < self.edges.len(),
                        self.edges@[k as int] == (a, b),
                        forall|m2: int| from <= m2 < m && m2 != q ==> out@[m2] != a,
                {
                    if m != q && out[m] == a {
                        assert(self.edges@[k as int] == (out@[m as int], out@[q as int]));
                        assert(must_precede(self.edges@, out@[m as int], out@[q as int]));
                        return false;
                    }
                }
            }
        }
        true
    }

    /// Orders the pages of `list` so that each comes after the pages that
    /// must precede it: at each position, the first remaining page that no
    /// remaining page must precede is moved there. Where every remaining page
    /// has such a page (they hold a cycle of rules), the rest stays as it is.
    pub fn sort(&self, list: &Vec<u8>) -> (r: Vec<u8>)
        ensures
            r.len() == list.len(),
            exists|k: int, c: int| #[trigger] sorted_as(self.edges@, list@, r@, k, c),
    {
        let n = list.len();
        let mut ruled: Vec<u8> = Vec::new();
        let mut free: Vec<u8> = Vec::new();
        for i in 0..n
            invariant
                n == list.len(),
                ruled@ == ruled_pages(self.edges@, list@, i as int),
                free@ == free_pages(self.edges@, list@, i as int),
        {
            if self.in_any_rule(list[i]) {
                ruled.push(list[i]);
            } else {
                free.push(list[i]);
            }
        }
        proof {
            lemma_split_pages(self.edges@, list@, n as int);
            assert(list@.subrange(0, n as int) =~= list@);
        }
        let c = ruled.len();
        let mut out: Vec<u8> = ruled;
        let ghost ruled_v = out@;
        for j in 0..free.len()
            invariant
                out@ == ruled_v + free@.subrange(0, j as int),
        {
            out.push(free[j]);
            assert(out@ =~= ruled_v + free@.subrange(0, j + 1));
        }
        assert(out@ =~= ruled_v + free@);
        proof {
            out@.to_multiset_ensures();
            list@.to_multiset_ensures();
        }
        assert(out.len() == n);
        assert(out@.subrange(c as int, out.len() as int) =~= free@);
        let mut p: usize = 0;
        while p < c
            invariant
                n == list.len(),
                out.len() == n,
                c <= n,
                p <= c,
                out@.to_multiset() == list@.to_multiset(),
                forall|p2: int, q: int|
                    0 <= p2 < p && p2 < q < n ==> !must_precede(self.edges@, out@[q], out@[p2]),
                forall|q: int| 0 <= q < c ==> in_rules(self.edges@, #[trigger] out@[q]),
                out@.subrange(c as int, n as int) == free_pages(self.edges@, list@, n as int),
            decreases c - p,
        {
            let mut found: Option<usize> = None;
            let mut q: usize = p;
            while q < c && found.is_none()
                invariant
                    out.len() == n,
                    c <= n,
                    p <= q <= c,
                    found matches Some(f) ==> p <= f < c && !has_pred(self.edges@, out@, p as int, f as int),
                    found is None ==> forall|q2: int| p <= q2 < q ==> has_pred(self.edges@, out@, p as int, q2),
                decreases c - q,
            {
                if self.ready(&out, p, q) {
                    found = Some(q);
                }
                q = q + 1;
            }
            match found {
                Some(f) => {
                    let a = out[p];
                    let b = out[f];
                    let ghost before = out@;
                    out.set(p, b);
                    out.set(f, a);
                    proof {
                        let mid = before.update(p as int, b);
                        vstd::seq_lib::to_multiset_update(before, p as int, b);
                        vstd::seq_lib::to_multiset_update(mid, f as int, a);
                        assert(out@ == mid.update(f as int, a));
                        assert(before.contains(a));
                        vstd::seq_lib::to_multiset_contains(before, a);
                        vstd::seq_lib::to_multiset_contains(before, b);
                        let ms = before.to_multiset();
                        assert(mid[f as int] == b || f == p);
                        if f == p {
                            assert(out@ =~= before);
                        } else {
                            assert(mid[f as int] == b);
                            assert(ms.insert(b).remove(a).insert(a).remove(b) =~= ms) by {
                                broadcast use vstd::multiset::group_multiset_axioms;
                            }
                        }
                        assert(out@.to_multiset() =~= before.to_multiset());
                        assert(out@.subrange(c as int, n as int) =~= before.subrange(c as int, n as int));
                        assert forall|q2: int| 0 <= q2 < c implies in_rules(self.edges@, #[trigger] out@[q2]) by {
                            if q2 == p {
                                assert(in_rules(self.edges@, before[f as int]));
                            } else if q2 == f {
                                assert(in_rules(self.edges@, before[p as int]));
                            } else {
                                assert(in_rules(self.edges@, before[q2]));
                            }
                        }
                        assert forall|p2: int, q2: int|
                            0 <= p2 < p + 1 && p2 < q2 < n implies !must_precede(self.edges@, out@[q2], out@[p2]) by {
                            if p2 < p {
                                assert(out@[p2] == before[p2]);
                                if q2 == p {
                                    assert(out@[q2] == before[f as int]);
                                } else if q2 == f {
                                    assert(out@[q2] == before[p as int]);
                                } else {
                                    assert(out@[q2] == before[q2]);
                                }
                            } else {
                                assert(out@[p2] == before[f as int]);
                                if q2 == f {
                                    assert(out@[q2] == before[p as int]);
                                    if must_precede(self.edges@, before[p as int], before[f as int]) {
                                        assert(has_pred(self.edges@, before, p as int, f as int));
                                    }
                                } else {
                                    assert(out@[q2] == before[q2]);
                                    if must_precede(self.edges@, before[q2], before[f as int]) {
                                        assert(has_pred(self.edges@, before, p as int, f as int));
                                    }
                                }
                            }
                        }
                    }
                    p = p + 1;
                },
                None => {
                    assert(sorted_as(self.edges@, list@, out@, p as int, c as int));
                    return out;
                },
            }
        }
        assert(sorted_as(self.edges@, list@, out@, c as int, c as int));
        out
    }

    /// Whether page `x` appears in some rule.
    fn in_any_rule(&self, x: u8) -> (r: bool)
        ensures
            r == in_rules(self.edges@, x),
    {
        for k in 0..self.edges.len()
            invariant
                forall|j: int| 0 <= j < k ==> !(self.edges@[j].0 == x || self.edges@[j].1 == x),
        {
            if self.edges[k].0 == x || self.edges[k].1 == x {
                return true;
            }
        }
        false
    }
}

proof fn lemma_index_from(s: Seq<u8>, x: u8, i: int)
    requires
        0 <= i,
    ensures
        index_from(s, x, i) == -1 || (i <= index_from(s, x, i) < s.len() && s[index_from(s, x, i)] == x),
    decreases s.len() - i,
{
    if i < s.len() && s[i] != x {
        lemma_index_from(s, x, i + 1);
    }
}

/// An order in which no page must precede an earlier one breaks no rule
/// that relates two different pages.
pub proof fn lemma_ordered_is_correct(rules: Seq<(u8, u8)>, list: Seq<u8>, r: Seq<u8>, c: int)
    requires
        sorted_as(rules, list, r, c, c),
        forall|k: int| 0 <= k < rules.len() ==> (#[trigger] rules[k]).0 != rules[k].1,
    ensures
        update_correct(rules, r),
{
    assert forall|k: int| 0 <= k < rules.len() implies !#[trigger] breaks(r, rules[k]) by {
        let (a, b) = rules[k];
        lemma_index_from(r, a, 0);
        lemma_index_from(r, b, 0);
        if breaks(r, rules[k]) {
            let i = index_of(r, a);
            let j = index_of(r, b);
            assert(rules[k] == (a, b));
            if j < c {
                assert(must_precede(rules, r[i], r[j]));
            } else {
                lemma_split_pages(rules, list, list.len() as int);
                assert(r.subrange(c, r.len() as int)[j - c] == r[j]);
                assert(in_rules(rules, b));
            }
        }
    }
}

impl Constraints {
    /// The sorter orders by the same rules that `is_correct` checks.
    pub open spec fn wf(&self) -> bool {
        self.top.edges@ == self.constraints@
    }

    pub fn new(constraints: Vec<(u8, u8)>) -> (r: Constraints)
        ensures
            r.constraints@ == constraints@,
            r.top.edges@ == constraints@,
            r.wf(),
    {
        let top = TopologicalSort::from_constraints(copy_rules(&constraints));
        Constraints { top, constraints }
    }

    /// No rule is broken by the update.
    pub fn is_correct(&self, update: &Vec<u8>) -> (r: bool)
        ensures
            r == update_correct(self.constraints@, update@),
    {
        for k in 0..self.constraints.len()
            invariant
                forall|j: int| 0 <= j < k ==> !#[trigger] breaks(update@, self.constraints@[j]),
        {
            let (prior, posterior) = self.constraints[k];
            let pa = position(update, prior);
            let pb = position(update, posterior);
            match (pa, pb) {
                (Some(a), Some(b)) => {
                    if a >= b {
                        assert(breaks(update@, self.constraints@[k as int]));
                        return false;
                    }
                },
                _ => {},
            }
            assert(!breaks(update@, self.constraints@[k as int]));
        }
        true
    }

    /// The update put in an order that the rules allow, as `sort` orders it.
    pub fn reorder(&self, update: &mut Vec<u8>) -> (r: Vec<u8>)
        requires
            self.wf(),
        ensures
            *final(update) == *old(update),
            r.len() == old(update).len(),
            exists|k: int, c: int| #[trigger] sorted_as(self.constraints@, old(update)@, r@, k, c),
            forall|c: int|
                #[trigger] sorted_as(self.constraints@, old(update)@, r@, c, c) && (forall|k: int|
                    0 <= k < self.constraints.len() ==> (#[trigger] self.constraints@[k]).0
                        != self.constraints@[k].1) ==> self.is_correct_spec(r@),
    {
        let r = self.top.sort(update);
        proof {
            assert forall|c: int|
                #[trigger] sorted_as(self.constraints@, update@, r@, c, c) && (forall|k: int|
                    0 <= k < self.constraints.len() ==> (#[trigger] self.constraints@[k]).0
                        != self.constraints@[k].1) implies self.is_correct_spec(r@) by {
                lemma_ordered_is_correct(self.constraints@, update@, r@, c);
            }
        }
        r
    }

    /// What `is_correct` answers.
    pub open spec fn is_correct_spec(&self, update: Seq<u8>) -> bool {
        update_correct(self.constraints@, update)
    }
}

/// The number that the digits `t[s..e]` spell, if it fits in a `u8`.
fn read_u8(t: &[u8], s: usize, e: usize) -> (r: Option<u8>)
    requires
        s <= e <= t.len(),
{
    if s == e {
        return None;
    }
    let mut v: u32 = 0;
    let mut i = s;
    while i < e
        invariant
            s <= i <= e <= t.len(),
            v <= 255,
        decreases e - i,
    {
        let b = t[i];
        if b < 48 || b > 57 {
            return None;
        }
        v = v * 10 + (b - 48) as u32;
        if v > 255 {
            return None;
        }
        i = i + 1;
    }
    Some(v as u8)
}

/// The end of the line that starts at `i`.
fn line_end(t: &[u8], i: usize) -> (r: usize)
    requires
        i <= t.len(),
    ensures
        i <= r <= t.len(),
{
    let mut e = i;
    while e < t.len() && t[e] != 10
        invariant
            i <= e <= t.len(),
        decreases t.len() - e,
    {
        e = e + 1;
    }
    e
}

/// Reads the rules `a|b`, an empty line, then the updates `p,q,...`. No
/// result where a line has another shape.
pub fn load_puzzle(input: &str) -> (r: Option<(Vec<Vec<u8>>, Constraints)>) {
    let t = input.as_bytes();
    let mut rules: Vec<(u8, u8)> = Vec::new();
    let mut updates: Vec<Vec<u8>> = Vec::new();
    let mut in_rules = true;
    let mut i: usize = 0;
    while i < t.len()
        invariant
            i <= t.len(),
        decreases t.len() - i,
    {
        let e = line_end(t, i);
        if e == i {
            in_rules = false;
        } else if in_rules {
            let mut bar = i;
            while bar < e && t[bar] != 124
                invariant
                    i <= bar <= e,
                    e <= t.len(),
                decreases e - bar,
            {
                bar = bar + 1;
            }
            if bar >= e {
                return None;
            }
            match (read_u8(t, i, bar), read_u8(t, bar + 1, e)) {
                (Some(a), Some(b)) => rules.push((a, b)),
                _ => {
                    return None;
                },
            }
        } else {
            let mut update: Vec<u8> = Vec::new();
            let mut s = i;
            loop
                invariant
                    i <= s <= e,
                    e <= t.len(),
                decreases e - s,
            {
                let mut c = s;
                while c < e && t[c] != 44
                    invariant
                        s <= c <= e,
                        e <= t.len(),
                    decreases e - c,
                {
                    c = c + 1;
                }
                match read_u8(t, s, c) {
                    Some(v) => update.push(v),
                    None => {
                        return None;
                    },
                }
                if c >= e {
                    break;
                }
                s = c + 1;
            }
            updates.push(update);
        }
        if e >= t.len() {
            break;
        }
        i = e + 1;
    }
    Some((updates, Constraints::new(rules)))
}

/// The sum of the middle pages of the updates that break no rule. No result
/// where the text does not parse or an update has an even number of pages.
pub fn handle_puzzle1(input: &str) -> (r: Option<u32>) {
    let (updates, constraints) = match load_puzzle(input) {
        Some(p) => p,
        None => {
            return None;
        },
    };
    let mut sum: u32 = 0;
    for k in 0..updates.len() {
        let update = &updates[k];
        if update.len() % 2 == 0 {
            return None;
        }
        if constraints.is_correct(update) {
            if sum > u32::MAX - 255 {
                return None;
            }
            sum = sum + update[update.len() / 2] as u32;
        }
    }
    Some(sum)
}

/// The sum of the middle pages of the updates that break a rule, once put
/// in order.
pub fn handle_puzzle2(input: &str) -> (r: Option<u32>) {
    let (mut updates, constraints) = match load_puzzle(input) {
        Some(p) => p,
        None => {
            return None;
        },
    };
    let mut sum: u32 = 0;
    for k in 0..updates.len() {
        let update = &updates[k];
        if update.len() % 2 == 0 {
            return None;
        }
        if !constraints.is_correct(update) {
            let ordered = constraints.top.sort(update);
            if sum > u32::MAX - 255 {
                return None;
            }
            sum = sum + ordered[ordered.len() / 2] as u32;
        }
    }
    Some(sum)
}

} // verus!
