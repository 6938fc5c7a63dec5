use vstd::prelude::*;

verus! {

/// Pin heights of a key or a lock, one per column.
pub type KL = (u8, u8, u8, u8, u8);

/// A key fits a lock when no column overlaps: the heights add up to less than six.
pub open spec fn fits_spec(key: KL, lock: KL) -> bool {
    key.0 + lock.0 < 6 && key.1 + lock.1 < 6 && key.2 + lock.2 < 6 && key.3 + lock.3 < 6 && key.4
        + lock.4 < 6
}

pub fn fits(key: &KL, lock: &KL) -> (r: bool)
    ensures
        r == fits_spec(*key, *lock),
{
    (key.0 as u16 + lock.0 as u16) < 6 && (key.1 as u16 + lock.1 as u16) < 6 && (key.2 as u16
        + lock.2 as u16) < 6 && (key.3 as u16 + lock.3 as u16) < 6 && (key.4 as u16 + lock.4 as u16)
        < 6
}

/// How many pairs of the first `nk` keys and all locks fit.
pub open spec fn fitting_pairs(keys: Seq<KL>, locks: Seq<KL>, nk: int, nl: int) -> nat
    decreases nk, nl,
{
    if nk <= 0 {
        0
    } else if nl <= 0 {
        fitting_pairs(keys, locks, nk - 1, locks.len() as int)
    } else {
        fitting_pairs(keys, locks, nk, nl - 1) + if fits_spec(keys[nk - 1], locks[nl - 1]) {
            1nat
        } else {
            0nat
        }
    }
}

proof fn lemma_pairs_bounded(keys: Seq<KL>, locks: Seq<KL>, nk: int, nl: int)
    requires
        0 <= nk <= keys.len(),
        0 <= nl <= locks.len(),
    ensures
        nk >= 1 ==> fitting_pairs(keys, locks, nk, nl) <= (nk - 1) * locks.len() + nl,
        nk == 0 ==> fitting_pairs(keys, locks, nk, nl) == 0,
    decreases nk, nl,
{
    if nk > 0 {
        if nl <= 0 {
            lemma_pairs_bounded(keys, locks, nk - 1, locks.len() as int);
            if nk >= 2 {
                assert((nk - 2) * locks.len() + locks.len() == (nk - 1) * locks.len())
                    by (nonlinear_arith);
            }
            assert(0 <= (nk - 1) * locks.len()) by (nonlinear_arith)
                requires
                    nk >= 1,
            ;
        } else {
            lemma_pairs_bounded(keys, locks, nk, nl - 1);
        }
    }
}

/// The pin heights of one schematic of seven lines of five: a key when its
/// top line is empty, a lock otherwise. Each column's height is the number
/// of `#` rows between the base line and the far end.
fn schematic(t: &[u8], s: usize) -> (r: Option<(bool, KL)>)
    requires
        s <= t.len(),
    ensures
        r is Some ==> s + 41 <= t.len(),
{
    if t.len() - s < 41 {
        return None;
    }
    let is_key = t[s] == 46;
    let mut h: [u8; 5] = [0, 0, 0, 0, 0];
    for c in 0..5usize
        invariant
            s + 41 <= t.len(),
    {
        let mut count: u8 = 0;
        for row in 1..6usize
            invariant
                count <= row - 1,
                s + 41 <= t.len(),
                c < 5,
        {
            if t[s + row * 6 + c] == 35 {
                count = count + 1;
            }
        }
        h.set(c, count);
    }
    Some((is_key, (h[0], h[1], h[2], h[3], h[4])))
}

/// Reads the schematics, separated by empty lines, into keys and locks.
pub fn parse(input: &str) -> (r: Option<(Vec<KL>, Vec<KL>)>) {
    let t = input.as_bytes();
    let mut keys: Vec<KL> = Vec::new();
    let mut locks: Vec<KL> = Vec::new();
    let mut s: usize = 0;
    while s < t.len()
        invariant
            s <= t.len(),
        decreases t.len() - s,
    {
        if t[s] == 10 {
            s = s + 1;
        } else {
            match schematic(t, s) {
                Some((is_key, kl)) => {
                    if is_key {
                        keys.push(kl);
                    } else {
                        locks.push(kl);
                    }
                },
                None => {
                    return None;
                },
            }
            s = s + 41;
        }
    }
    Some((keys, locks))
}

/// How many key and lock pairs fit together.
pub fn count_fits(keys: &Vec<KL>, locks: &Vec<KL>) -> (r: u64)
    requires
        keys.len() * locks.len() <= u64::MAX,
    ensures
        r == fitting_pairs(keys@, locks@, keys@.len() as int, locks@.len() as int),
{
    let mut count: u64 = 0;
    for i in 0..keys.len()
        invariant
            keys.len() * locks.len() <= u64::MAX,
            count == fitting_pairs(keys@, locks@, i as int, locks@.len() as int),
    {
        for j in 0..locks.len()
            invariant
                0 <= i < keys.len(),
                keys.len() * locks.len() <= u64::MAX,
                count == fitting_pairs(keys@, locks@, i + 1, j as int),
        {
            proof {
                lemma_pairs_bounded(keys@, locks@, i + 1, j as int);
                assert(i * locks.len() + j < keys.len() * locks.len()) by (nonlinear_arith)
                    requires
                        i + 1 <= keys.len(),
                        j < locks.len(),
                ;
            }
            if fits(&keys[i], &locks[j]) {
                count = count + 1;
            }
        }
        assert(fitting_pairs(keys@, locks@, i + 1, 0) == fitting_pairs(keys@, locks@, i as int, locks@.len() as int));
    }
    count
}

/// How many key and lock pairs of the schematics fit together. No result
/// where the text is not a list of schematics.
pub fn handle_puzzle1(input: &str) -> (r: Option<u64>) {
    let (keys, locks) = match parse(input) {
        Some(p) => p,
        None => {
            return None;
        },
    };
    let nk = keys.len() as u128;
    let nl = locks.len() as u128;
    assert(nk * nl <= u128::MAX) by (nonlinear_arith)
        requires
            nk <= u64::MAX,
            nl <= u64::MAX,
    ;
    if nk * nl > u64::MAX as u128 {
        return None;
    }
    Some(count_fits(&keys, &locks))
}

} // verus!
