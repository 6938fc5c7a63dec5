use vstd::prelude::*;

verus! {

/// A robot: its position `(x, y)` and its velocity per second.
pub type Robot = ((i64, i64), (i64, i64));

/// The signed decimal number at `i`, and where it ends.
fn signed(t: &[u8], i: usize) -> (r: Option<(i64, usize)>)
    requires
        i <= t.len(),
    ensures
        r matches Some((_, e)) ==> i < e <= t.len(),
{
    let mut j = i;
    let mut negative = false;
    if j < t.len() && (t[j] == 45 || t[j] == 43) {
        negative = t[j] == 45;
        j = j + 1;
    }
    let start = j;
    let mut v: i128 = 0;
    while j < t.len() && 48 <= t[j] && t[j] <= 57
        invariant
            i <= start <= j <= t.len(),
            0 <= v <= i64::MAX as i128 + 1,
        decreases t.len() - j,
    {
        v = v * 10 + (t[j] - 48) as i128;
        if v > i64::MAX as i128 + 1 {
            return None;
        }
        j = j + 1;
    }
    if j == start {
        return None;
    }
    let signed_v = if negative {
        -v
    } else {
        v
    };
    if signed_v < i64::MIN as i128 || signed_v > i64::MAX as i128 {
        return None;
    }
    Some((signed_v as i64, j))
}

/// The byte `b` stands at `i`.
fn expect(t: &[u8], i: usize, b: u8) -> (r: bool)
    ensures
        r ==> i < t.len(),
{
    i < t.len() && t[i] == b
}

/// Reads the robots, one `p=x,y v=dx,dy` per line.
pub fn parse(input: &str) -> (r: Option<Vec<Robot>>) {
    let t = input.as_bytes();
    let mut out: Vec<Robot> = Vec::new();
    let mut i: usize = 0;
    while i < t.len()
        invariant
            i <= t.len(),
        decreases t.len() - i,
    {
        if t[i] == 10 {
            i = i + 1;
        } else {
            if !(expect(t, i, 112) && expect(t, i + 1, 61)) {
                return None;
            }
            let (px, e1) = match signed(t, i + 2) {
                Some(p) => p,
                None => {
                    return None;
                },
            };
            if !expect(t, e1, 44) {
                return None;
            }
            let (py, e2) = match signed(t, e1 + 1) {
                Some(p) => p,
                None => {
                    return None;
                },
            };
            if !(expect(t, e2, 32) && expect(t, e2 + 1, 118) && expect(t, e2 + 2, 61)) {
                return None;
            }
            let (vx, e3) = match signed(t, e2 + 3) {
                Some(p) => p,
                None => {
                    return None;
                },
            };
            if !expect(t, e3, 44) {
                return None;
            }
            let (vy, e4) = match signed(t, e3 + 1) {
                Some(p) => p,
                None => {
                    return None;
                },
            };
            out.push(((px, py), (vx, vy)));
            i = e4;
        }
    }
    Some(out)
}

/// `a` modulo `m`, in `0..m`.
fn wrap(a: i128, m: i64) -> (r: i64)
    requires
        m > 0,
        a > i128::MIN,
    ensures
        0 <= r < m,
{
    let mm = m as u128;
    if a >= 0 {
        ((a as u128) % mm) as i64
    } else {
        let b = ((-a) as u128) % mm;
        if b == 0 {
            0
        } else {
            (mm - b) as i64
        }
    }
}

/// The product of two `i64`s, which a `i128` always holds.
fn wide_mul(a: i64, b: i64) -> (r: i128)
    ensures
        r == a * b,
        -0x4000_0000_0000_0000_0000_0000_0000_0000 <= r <= 0x4000_0000_0000_0000_0000_0000_0000_0000,
{
    let x = a as i128;
    let y = b as i128;
    assert(-0x4000_0000_0000_0000_0000_0000_0000_0000 <= x * y <= 0x4000_0000_0000_0000_0000_0000_0000_0000)
        by (nonlinear_arith)
        requires
            -0x8000_0000_0000_0000 <= x <= 0x7fff_ffff_ffff_ffff,
            -0x8000_0000_0000_0000 <= y <= 0x7fff_ffff_ffff_ffff,
    ;
    x * y
}

/// The safety factor after `runtime` seconds on a `width` by `height` floor
/// that wraps around: the product of the robot counts of the quadrants that
/// hold any robot (robots on the middle lines count for none). No result
/// where no quadrant holds a robot, the text does not parse, or the product
/// does not fit.
pub fn handle_puzzle1(input: &str, width: i64, height: i64, runtime: i64) -> (r: Option<i64>)
    requires
        width > 0,
        height > 0,
{
    let robots = match parse(input) {
        Some(r) => r,
        None => {
            return None;
        },
    };
    let mut counts: Vec<u64> = vec![0, 0, 0, 0];
    for k in 0..robots.len()
        invariant
            width > 0,
            height > 0,
            counts.len() == 4,
            forall|q: int| 0 <= q < 4 ==> counts@[q] <= k,
    {
        let ((ix, iy), (vx, vy)) = robots[k];
        let ex = wrap(ix as i128 + wide_mul(vx, runtime), width);
        let ey = wrap(iy as i128 + wide_mul(vy, runtime), height);
        if ex != width / 2 && ey != height / 2 {
            let q: usize = if ex < width / 2 {
                if ey < height / 2 {
                    0
                } else {
                    1
                }
            } else {
                if ey < height / 2 {
                    2
                } else {
                    3
                }
            };
            let c = counts[q];
            counts.set(q, c + 1);
        }
    }
    let mut product: i64 = 1;
    let mut any = false;
    for q in 0..4usize
        invariant
            counts.len() == 4,
            product >= 1,
    {
        let c = counts[q];
        if c > 0 {
            any = true;
            if c > i64::MAX as u64 {
                return None;
            }
            let ci = c as i64;
            let p = wide_mul(product, ci);
            if p > i64::MAX as i128 {
                return None;
            }
            assert(p >= 1) by (nonlinear_arith)
                requires
                    p == product * ci,
                    product >= 1,
                    ci >= 1,
            ;
            product = p as i64;
        }
    }
    if any {
        Some(product)
    } else {
        None
    }
}

} // verus!
