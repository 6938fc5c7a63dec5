use vstd::prelude::*;

verus! {

pub const PRUNE: u64 = 16777216;

/// One step of a buyer's secret number: mix in the number times 64, prune,
/// mix in the number divided by 32, prune, mix in the number times 2048,
/// prune. Mixing is exclusive or; pruning keeps the value modulo 2^24.
pub open spec fn secret_step(s: u64) -> u64 {
    let a = ((s ^ ((s * 64) as u64)) % PRUNE) as u64;
    let b = ((a ^ (a / 32)) % PRUNE) as u64;
    ((b ^ ((b * 2048) as u64)) % PRUNE) as u64
}

/// The secret after `k` steps.
pub open spec fn secret_after(s: u64, k: nat) -> u64
    decreases k,
{
    if k == 0 {
        s
    } else {
        secret_step(secret_after(s, (k - 1) as nat))
    }
}

/// A buyer's pseudo-random secret number.
pub struct Monke {
    pub seed: u64,
}

impl Monke {
    /// Advances the secret by one step and returns it.
    pub fn next(&mut self) -> (r: Option<u64>)
        requires
            old(self).seed < 0x400_0000_0000_0000,
        ensures
            final(self).seed == secret_step(old(self).seed),
            r == Some(final(self).seed),
            final(self).seed < PRUNE,
    {
        let s = self.seed;
        let a = (s ^ (s * 64)) % PRUNE;
        assert(a < PRUNE);
        let b = (a ^ (a / 32)) % PRUNE;
        let c = (b ^ (b * 2048)) % PRUNE;
        self.seed = c;
        Some(c)
    }
}

/// The sum over buyers of each one's 2000th secret. No result where a line
/// is not a number, a starting secret is too large, or the sum does not fit.
pub fn handle_puzzle1(input: &str) -> (r: Option<u64>) {
    let t = input.as_bytes();
    let mut total: u64 = 0;
    let mut i: usize = 0;
    while i < t.len()
        invariant
            i <= t.len(),
        decreases t.len() - i,
    {
        if t[i] == 10 {
            i = i + 1;
        } else {
            let mut v: u64 = 0;
            let mut j = i;
            while j < t.len() && t[j] != 10
                invariant
                    i <= j <= t.len(),
                decreases t.len() - j,
            {
                let b = t[j];
                if b < 48 || b > 57 {
                    return None;
                }
                let d = (b - 48) as u64;
                if v > (u64::MAX - d) / 10 {
                    return None;
                }
                v = v * 10 + d;
                j = j + 1;
            }
            if v >= 0x400_0000_0000_0000 {
                return None;
            }
            let mut m = Monke { seed: v };
            for k in 0..2000usize
                invariant
                    m.seed < 0x400_0000_0000_0000,
            {
                m.next();
            }
            if m.seed > u64::MAX - total {
                return None;
            }
            total = total + m.seed;
            i = j;
        }
    }
    Some(total)
}

} // verus!
