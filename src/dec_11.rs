use vstd::prelude::*;

verus! {

pub open spec fn pow10(k: nat) -> nat
    decreases k,
{
    if k == 0 {
        1
    } else {
        10 * pow10((k - 1) as nat)
    }
}

/// The number of decimal digits of `n`.
pub open spec fn num_digits(n: nat) -> nat
    decreases n,
{
    if n < 10 {
        1
    } else {
        1 + num_digits(n / 10)
    }
}

/// What one blink does to a stone engraved `n`: 0 becomes 1; a number with
/// an even count of digits splits into its left and right halves; any other
/// number is multiplied by 2024.
pub open spec fn blink(n: nat) -> (nat, Option<nat>) {
    if n == 0 {
        (1, None)
    } else if num_digits(n) % 2 == 0 {
        let p = pow10(num_digits(n) / 2);
        (n / p, Some(n % p))
    } else {
        (n * 2024, None)
    }
}

proof fn lemma_pow10_mono(a: nat, b: nat)
    requires
        a <= b,
    ensures
        1 <= pow10(a) <= pow10(b),
    decreases b,
{
    if b > 0 {
        if a < b {
            lemma_pow10_mono(a, (b - 1) as nat);
        } else {
            lemma_pow10_mono((a - 1) as nat, (b - 1) as nat);
        }
    }
}

proof fn lemma_pow10_values()
    ensures
        pow10(10) == 10000000000,
        pow10(20) == 100000000000000000000,
{
    reveal_with_fuel(pow10, 21);
}

proof fn lemma_digits_bound(n: nat, k: nat)
    requires
        n < pow10(k),
        k >= 1,
    ensures
        1 <= num_digits(n) <= k,
    decreases n,
{
    if n >= 10 {
        assert(k >= 2) by {
            if k == 1 {
                assert(pow10(1) == 10 * pow10(0));
            }
        }
        let k1 = (k - 1) as nat;
        assert(pow10(k) == 10 * pow10(k1));
        assert(n / 10 < pow10(k1)) by (nonlinear_arith)
            requires
                n < 10 * pow10(k1),
        ;
        lemma_digits_bound(n / 10, k1);
    }
}

/// A stone with a number engraved on it.
pub struct Stone {
    pub data: u64,
}

impl Stone {
    pub fn new(data: u64) -> (r: Stone)
        ensures
            r.data == data,
    {
        Stone { data }
    }

    /// One blink: the stone changes its number and may split off a second stone.
    pub fn roll(&mut self) -> (r: Option<Stone>)
        requires
            old(self).data == 0 || num_digits(old(self).data as nat) % 2 == 0 || old(self).data * 2024
                <= u64::MAX,
        ensures
            final(self).data as nat == blink(old(self).data as nat).0,
            blink(old(self).data as nat).1 matches Some(m) ==> r matches Some(s) && s.data as nat == m,
            blink(old(self).data as nat).1 is None ==> r is None,
    {
        let n = self.data;
        if n == 0 {
            self.data = 1;
            return None;
        }
        let d = digit_count(n);
        if d % 2 == 0 {
            let half = d / 2;
            let mut p: u64 = 1;
            let mut i: u64 = 0;
            proof {
                lemma_pow10_values();
                lemma_digits_bound(n as nat, 20);
            }
            while i < half
                invariant
                    i <= half,
                    half <= 10,
                    p as nat == pow10(i as nat),
                decreases half - i,
            {
                proof {
                    lemma_pow10_values();
                    lemma_pow10_mono((i + 1) as nat, 10);
                }
                p = p * 10;
                i = i + 1;
            }
            proof {
                lemma_pow10_mono(half as nat, half as nat);
            }
            self.data = n / p;
            return Some(Stone::new(n % p));
        }
        self.data = n * 2024;
        None
    }
}

/// The number of decimal digits of `n`.
fn digit_count(n: u64) -> (d: u64)
    ensures
        d as nat == num_digits(n as nat),
        d <= 20,
{
    proof {
        lemma_pow10_values();
        lemma_digits_bound(n as nat, 20);
    }
    let mut m = n;
    let mut d: u64 = 1;
    while m >= 10
        invariant
            d >= 1,
            num_digits(n as nat) == d - 1 + num_digits(m as nat),
            num_digits(n as nat) <= 20,
            num_digits(m as nat) >= 1,
        decreases m,
    {
        proof {
            lemma_pow10_values();
            lemma_digits_bound((m / 10) as nat, 20);
        }
        m = m / 10;
        d = d + 1;
    }
    d
}

/// The stones written on the line, in order.
pub fn parse(input: &str) -> (r: Option<Vec<Stone>>) {
    let t = input.as_bytes();
    let mut stones: Vec<Stone> = Vec::new();
    let mut i: usize = 0;
    while i < t.len()
        invariant
            i <= t.len(),
        decreases t.len() - i,
    {
        let b = t[i];
        if b == 32 || b == 10 {
            i = i + 1;
        } else {
            let mut v: u64 = 0;
            let mut j = i;
            while j < t.len() && t[j] != 32 && t[j] != 10
                invariant
                    i <= j <= t.len(),
                decreases t.len() - j,
            {
                let c = t[j];
                if c < 48 || c > 57 {
                    return None;
                }
                let d = (c - 48) as u64;
                if v > (u64::MAX - d) / 10 {
                    return None;
                }
                v = v * 10 + d;
                j = j + 1;
            }
            stones.push(Stone::new(v));
            i = j;
        }
    }
    Some(stones)
}

/// The number of stones after `rounds` blinks. No result where the line
/// does not parse or a number outgrows a `u64`.
pub fn handle_puzzle1(input: &str, rounds: usize) -> (r: Option<usize>) {
    let mut stones = match parse(input) {
        Some(s) => s,
        None => {
            return None;
        },
    };
    for round in 0..rounds {
        let mut next: Vec<Stone> = Vec::new();
        for k in 0..stones.len() {
            let mut s = Stone::new(stones[k].data);
            let n = s.data;
            if n != 0 && digit_count(n) % 2 != 0 && n > u64::MAX / 2024 {
                return None;
            }
            match s.roll() {
                Some(t) => {
                    next.push(s);
                    next.push(t);
                },
                None => {
                    next.push(s);
                },
            }
        }
        stones = next;
    }
    Some(stones.len())
}

} // verus!
