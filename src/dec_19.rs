use vstd::prelude::*;

verus! {

/// The towel patterns (each once, none empty) and the designs, as bytes.
pub fn parse(input: &str) -> (r: Option<(Vec<Vec<u8>>, Vec<Vec<u8>>)>)
    ensures
        r matches Some((pats, _)) ==> forall|k: int| 0 <= k < pats.len() ==> (#[trigger] pats@[k]).len() > 0,
{
    let t = input.as_bytes();
    let mut pats: Vec<Vec<u8>> = Vec::new();
    let mut cur: Vec<u8> = Vec::new();
    let mut i: usize = 0;
    while i < t.len() && t[i] != 10
        invariant
            i <= t.len(),
            forall|k: int| 0 <= k < pats.len() ==> (#[trigger] pats@[k]).len() > 0,
        decreases t.len() - i,
    {
        let b = t[i];
        if b == 44 {
            if cur.len() == 0 {
                return None;
            }
            if !contains_pattern(&pats, &cur) {
                pats.push(cur);
            }
            cur = Vec::new();
        } else if b != 32 {
            cur.push(b);
        }
        i = i + 1;
    }
    if cur.len() == 0 {
        return None;
    }
    if !contains_pattern(&pats, &cur) {
        pats.push(cur);
    }
    let mut designs: Vec<Vec<u8>> = Vec::new();
    let mut line: Vec<u8> = Vec::new();
    while i < t.len()
        invariant
            i <= t.len(),
        decreases t.len() - i,
    {
        let b = t[i];
        if b == 10 {
            if line.len() > 0 {
                designs.push(line);
            }
            line = Vec::new();
        } else {
            line.push(b);
        }
        i = i + 1;
    }
    if line.len() > 0 {
        designs.push(line);
    }
    Some((pats, designs))
}

fn same_bytes(a: &Vec<u8>, b: &Vec<u8>) -> (r: bool)
    ensures
        r == (a@ == b@),
{
    if a.len() != b.len() {
        return false;
    }
    for i in 0..a.len()
        invariant
            a.len() == b.len(),
            forall|k: int| 0 <= k < i ==> a@[k] == b@[k],
    {
        if a[i] != b[i] {
            return false;
        }
    }
    assert(a@ =~= b@);
    true
}

fn contains_pattern(pats: &Vec<Vec<u8>>, p: &Vec<u8>) -> (r: bool) {
    for k in 0..pats.len() {
        if same_bytes(&pats[k], p) {
            return true;
        }
    }
    false
}

/// The pattern `p` ends the first `k` bytes of `design`.
pub open spec fn ends_with(design: Seq<u8>, k: int, p: Seq<u8>) -> bool {
    p.len() <= k <= design.len() && design.subrange(k - p.len(), k) == p
}

fn ends_with_exec(design: &Vec<u8>, k: usize, p: &Vec<u8>) -> (r: bool)
    requires
        k <= design.len(),
    ensures
        r == ends_with(design@, k as int, p@),
{
    if p.len() > k {
        return false;
    }
    let s = k - p.len();
    for j in 0..p.len()
        invariant
            s + p.len() == k,
            k <= design.len(),
            forall|m: int| 0 <= m < j ==> design@[s + m] == p@[m],
    {
        if design[s + j] != p[j] {
            assert(design@.subrange(s as int, k as int)[j as int] != p@[j as int]);
            return false;
        }
    }
    assert(design@.subrange(s as int, k as int) =~= p@);
    true
}

/// The number of ways the first `k` bytes of `design` split into patterns,
/// summed over the first `n` patterns for the last piece.
pub open spec fn arrangements(pats: Seq<Vec<u8>>, design: Seq<u8>, k: int, n: int) -> nat
    decreases k, n,
{
    if k <= 0 {
        1
    } else if n <= 0 {
        0
    } else {
        arrangements(pats, design, k, n - 1) + if ends_with(design, k, pats[n - 1]@) && pats[n
            - 1]@.len() > 0 {
            arrangements(pats, design, k - pats[n - 1]@.len(), pats.len() as int)
        } else {
            0
        }
    }
}

/// The number of ways a design splits into patterns. No result where it
/// does not fit in a `u64`.
pub fn ways(pats: &Vec<Vec<u8>>, design: &Vec<u8>) -> (r: Option<u64>)
    ensures
        r matches Some(w) ==> w == arrangements(pats@, design@, design@.len() as int, pats@.len() as int),
{
    let n = design.len();
    let mut table: Vec<u64> = Vec::new();
    table.push(1);
    for m in 0..n
        invariant
            n == design.len(),
            table.len() == m + 1,
            forall|j: int| 0 <= j <= m ==> #[trigger] table@[j] == arrangements(pats@, design@, j, pats@.len() as int),
    {
        let k = m + 1;
        let mut sum: u64 = 0;
        for q in 0..pats.len()
            invariant
                n == design.len(),
                1 <= k <= n,
                table.len() == k,
                forall|j: int| 0 <= j < k ==> #[trigger] table@[j] == arrangements(pats@, design@, j, pats@.len() as int),
                sum == arrangements(pats@, design@, k as int, q as int),
        {
            let p = &pats[q];
            if p.len() > 0 && ends_with_exec(design, k, p) {
                let prev = table[k - p.len()];
                if prev > u64::MAX - sum {
                    return None;
                }
                sum = sum + prev;
            }
        }
        table.push(sum);
    }
    Some(table[n])
}

/// How many designs can be made from the patterns. No result where the
/// text does not parse.
pub fn handle_puzzle1(input: &str) -> (r: Option<u64>) {
    let (pats, designs) = match parse(input) {
        Some(p) => p,
        None => {
            return None;
        },
    };
    let mut count: u64 = 0;
    for k in 0..designs.len()
        invariant
            count <= k,
    {
        match ways(&pats, &designs[k]) {
            Some(w) => {
                if w > 0 {
                    count = count + 1;
                }
            },
            None => {
                count = count + 1;
            },
        }
    }
    Some(count)
}

/// The total number of ways to make each design. No result where the text
/// does not parse or the total does not fit.
pub fn handle_puzzle2(input: &str) -> (r: Option<u64>) {
    let (pats, designs) = match parse(input) {
        Some(p) => p,
        None => {
            return None;
        },
    };
    let mut total: u64 = 0;
    for k in 0..designs.len() {
        match ways(&pats, &designs[k]) {
            Some(w) => {
                if w > u64::MAX - total {
                    return None;
                }
                total = total + w;
            },
            None => {
                return None;
            },
        }
    }
    Some(total)
}

} // verus!
