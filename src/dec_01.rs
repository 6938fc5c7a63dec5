use vstd::prelude::*;

verus! {

/// `s` is sorted in ascending order.
pub open spec fn ascending(s: Seq<u32>) -> bool {
    forall|i: int, j: int| 0 <= i <= j < s.len() ==> s[i] <= s[j]
}

/// Relies on `slice::sort`: the result holds the same values, in ascending order.
#[verifier::external_body]
pub(crate) fn sorted(v: Vec<u32>) -> (r: Vec<u32>)
    ensures
        r@.to_multiset() == v@.to_multiset(),
        ascending(r@),
{
    let mut v = v;
    v.sort();
    v
}

pub open spec fn abs_diff(a: u32, b: u32) -> nat {
    if a >= b {
        (a - b) as nat
    } else {
        (b - a) as nat
    }
}

/// The sum of the distances between the first `n` pairs of `l` and `r`.
pub open spec fn distance(l: Seq<u32>, r: Seq<u32>, n: int) -> nat
    decreases n,
{
    if n <= 0 {
        0
    } else {
        distance(l, r, n - 1) + abs_diff(l[n - 1], r[n - 1])
    }
}

pub open spec fn min_len(a: Seq<u32>, b: Seq<u32>) -> int {
    if a.len() <= b.len() {
        a.len() as int
    } else {
        b.len() as int
    }
}

/// The total distance between the two lists: both are sorted and paired up
/// in order. No result when the total does not fit in a `u32`.
pub fn puzzle1(left: Vec<u32>, right: Vec<u32>) -> (r: Option<u32>)
    ensures
        exists|ls: Seq<u32>, rs: Seq<u32>|
            {
                &&& ls.to_multiset() == left@.to_multiset()
                &&& rs.to_multiset() == right@.to_multiset()
                &&& ascending(ls)
                &&& ascending(rs)
                &&& #[trigger] distance(ls, rs, min_len(ls, rs)) <= u32::MAX ==> r == Some(
                    distance(ls, rs, min_len(ls, rs)) as u32,
                )
                &&& distance(ls, rs, min_len(ls, rs)) > u32::MAX ==> r is None
            },
{
    let left = sorted(left);
    let right = sorted(right);
    let r = paired_distance(&left, &right);
    assert(distance(left@, right@, min_len(left@, right@)) == distance(left@, right@, min_len(left@, right@)));
    r
}

/// The sum of the distances between the pairs of `left` and `right` taken in
/// order. No result when it does not fit in a `u32`.
pub fn paired_distance(left: &Vec<u32>, right: &Vec<u32>) -> (r: Option<u32>)
    ensures
        distance(left@, right@, min_len(left@, right@)) <= u32::MAX ==> r == Some(
            distance(left@, right@, min_len(left@, right@)) as u32,
        ),
        distance(left@, right@, min_len(left@, right@)) > u32::MAX ==> r is None,
{
    let n = if left.len() <= right.len() {
        left.len()
    } else {
        right.len()
    };
    let mut total: u32 = 0;
    let mut i: usize = 0;
    while i < n
        invariant
            n == min_len(left@, right@),
            i <= n,
            total == distance(left@, right@, i as int),
        decreases n - i,
    {
        let d = if left[i] >= right[i] {
            left[i] - right[i]
        } else {
            right[i] - left[i]
        };
        if d > u32::MAX - total {
            proof {
                lemma_distance_grows(left@, right@, i as int + 1, n as int);
            }
            return None;
        }
        total = total + d;
        i = i + 1;
    }
    Some(total)
}

proof fn lemma_distance_grows(l: Seq<u32>, r: Seq<u32>, i: int, n: int)
    requires
        0 <= i <= n,
    ensures
        distance(l, r, i) <= distance(l, r, n),
    decreases n - i,
{
    if i < n {
        lemma_distance_grows(l, r, i, n - 1);
    }
}

/// How many times `x` occurs among the first `n` values of `s`.
pub open spec fn occurrences(s: Seq<u32>, x: u32, n: int) -> nat
    decreases n,
{
    if n <= 0 {
        0
    } else {
        occurrences(s, x, n - 1) + if s[n - 1] == x {
            1nat
        } else {
            0nat
        }
    }
}

/// The similarity of the first `n` values of `l` to `r`: each value times
/// the number of times it occurs in `r`.
pub open spec fn similarity(l: Seq<u32>, r: Seq<u32>, n: int) -> nat
    decreases n,
{
    if n <= 0 {
        0
    } else {
        similarity(l, r, n - 1) + (l[n - 1] as nat) * occurrences(r, l[n - 1], r.len() as int)
    }
}

proof fn lemma_similarity_grows(l: Seq<u32>, r: Seq<u32>, i: int, n: int)
    requires
        0 <= i <= n,
    ensures
        similarity(l, r, i) <= similarity(l, r, n),
    decreases n - i,
{
    if i < n {
        lemma_similarity_grows(l, r, i, n - 1);
    }
}

fn count_of(r: &Vec<u32>, x: u32) -> (c: usize)
    ensures
        c == occurrences(r@, x, r@.len() as int),
{
    let mut c: usize = 0;
    for i in 0..r.len()
        invariant
            c == occurrences(r@, x, i as int),
            c <= i,
    {
        if r[i] == x {
            c = c + 1;
        }
    }
    c
}

/// The similarity score of the left list to the right one. No result when
/// it does not fit in a `u32`.
pub fn puzzle2(left: Vec<u32>, right: Vec<u32>) -> (r: Option<u32>)
    ensures
        similarity(left@, right@, left@.len() as int) <= u32::MAX ==> r == Some(
            similarity(left@, right@, left@.len() as int) as u32,
        ),
        similarity(left@, right@, left@.len() as int) > u32::MAX ==> r is None,
{
    let mut score: u32 = 0;
    for i in 0..left.len()
        invariant
            score == similarity(left@, right@, i as int),
    {
        let c = count_of(&right, left[i]);
        let a = left[i] as u128;
        let b = c as u128;
        assert(a * b <= u128::MAX) by (nonlinear_arith)
            requires
                a <= u32::MAX,
                b <= u64::MAX,
        ;
        let term = a * b;
        if term > (u32::MAX - score) as u128 {
            proof {
                lemma_similarity_grows(left@, right@, i + 1, left@.len() as int);
            }
            return None;
        }
        score = score + term as u32;
    }
    Some(score)
}

} // verus!
