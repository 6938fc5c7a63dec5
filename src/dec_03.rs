use vstd::prelude::*;
use vstd::string::StringSliceAdditionalSpecFns;

verus! {

/// A token of the corrupted program text.
#[derive(Clone, Copy, Debug, PartialEq, Eq, Structural)]
pub enum Token {
    MUL,
    OPEN,
    COMMA,
    CLOSE,
    NUMBER(u16),
    JUNK,
}

/// One multiplication found in the text.
#[derive(Clone, Copy, Debug, PartialEq, Eq, Structural)]
pub enum Expression {
    MUL(u16, u16),
}

pub open spec fn is_digit(b: u8) -> bool {
    48 <= b <= 57
}

/// The end of the run of digits that starts at `j`.
pub open spec fn digit_run_end(s: Seq<u8>, j: int) -> int
    decreases s.len() - j,
{
    if j < 0 || j >= s.len() || !is_digit(s[j]) {
        j
    } else {
        digit_run_end(s, j + 1)
    }
}

/// The decimal value of the digits `s[i..j]`.
pub open spec fn digits_value(s: Seq<u8>, i: int, j: int) -> nat
    decreases j - i,
{
    if j <= i {
        0
    } else {
        digits_value(s, i, j - 1) * 10 + (s[j - 1] - 48) as nat
    }
}

/// The bytes of `w` stand at position `i` of `s`.
pub open spec fn word_at(s: Seq<u8>, i: int, w: Seq<u8>) -> bool {
    0 <= i && i + w.len() <= s.len() && forall|k: int| 0 <= k < w.len() ==> s[i + k] == w[k]
}

pub open spec fn mul_word() -> Seq<u8> {
    seq![109u8, 117, 108]
}

pub open spec fn do_word() -> Seq<u8> {
    seq![100u8, 111, 40, 41]
}

pub open spec fn dont_word() -> Seq<u8> {
    seq![100u8, 111, 110, 39, 116, 40, 41]
}

/// The tokens of `s` from position `i` on. `mul`, `(`, `,` and `)` are
/// tokens of their own, a run of digits is a number where it fits in a `u16`
/// (else its first digit is dropped), and any other byte is junk. With
/// `switches`, `don't()` stops the tokens until the next `do()`; `accepting`
/// tells whether they flow at `i`.
pub open spec fn lex(s: Seq<u8>, i: int, accepting: bool, switches: bool) -> Seq<Token>
    decreases s.len() - i,
{
    if i < 0 || i >= s.len() {
        Seq::empty()
    } else if switches && !accepting {
        if word_at(s, i, do_word()) {
            lex(s, i + 4, true, switches)
        } else {
            lex(s, i + 1, false, switches)
        }
    } else if switches && word_at(s, i, dont_word()) {
        lex(s, i + 7, false, switches)
    } else if word_at(s, i, mul_word()) {
        seq![Token::MUL] + lex(s, i + 3, accepting, switches)
    } else if is_digit(s[i]) {
        let j = digit_run_end(s, i + 1);
        if j > i && j <= s.len() && digits_value(s, i, j) <= 65535 {
            seq![Token::NUMBER(digits_value(s, i, j) as u16)] + lex(s, j, accepting, switches)
        } else {
            lex(s, i + 1, accepting, switches)
        }
    } else if s[i] == 40 {
        seq![Token::OPEN] + lex(s, i + 1, accepting, switches)
    } else if s[i] == 41 {
        seq![Token::CLOSE] + lex(s, i + 1, accepting, switches)
    } else if s[i] == 44 {
        seq![Token::COMMA] + lex(s, i + 1, accepting, switches)
    } else {
        seq![Token::JUNK] + lex(s, i + 1, accepting, switches)
    }
}

proof fn lemma_run_end(s: Seq<u8>, j: int)
    requires
        0 <= j <= s.len(),
    ensures
        j <= digit_run_end(s, j) <= s.len(),
    decreases s.len() - j,
{
    if j < s.len() && is_digit(s[j]) {
        lemma_run_end(s, j + 1);
    }
}

fn has_word(s: &[u8], i: usize, w: &Vec<u8>) -> (r: bool)
    ensures
        r == word_at(s@, i as int, w@),
{
    if i > s.len() || w.len() > s.len() - i {
        return false;
    }
    let mut k: usize = 0;
    while k < w.len()
        invariant
            i + w.len() <= s.len(),
            k <= w.len(),
            forall|m: int| 0 <= m < k ==> s@[i + m] == w@[m],
        decreases w.len() - k,
    {
        if s[i + k] != w[k] {
            return false;
        }
        k = k + 1;
    }
    true
}

/// Reads the run of digits at `i`: its end, and its value where it fits in a `u16`.
fn digit_run(s: &[u8], i: usize) -> (r: (usize, Option<u16>))
    requires
        i < s.len(),
        is_digit(s@[i as int]),
    ensures
        r.0 == digit_run_end(s@, i + 1),
        digits_value(s@, i as int, r.0 as int) <= 65535 ==> r.1 == Some(
            digits_value(s@, i as int, r.0 as int) as u16,
        ),
        digits_value(s@, i as int, r.0 as int) > 65535 ==> r.1 is None,
{
    let mut j = i + 1;
    let mut v: u32 = (s[i] - 48) as u32;
    assert(digits_value(s@, i as int, i as int) == 0);
    assert(digits_value(s@, i as int, i + 1) == (s@[i as int] - 48) as nat);
    while j < s.len() && 48 <= s[j] && s[j] <= 57
        invariant
            i < j <= s.len(),
            digit_run_end(s@, i + 1) == digit_run_end(s@, j as int),
            v <= 655359,
            v <= 65535 ==> v == digits_value(s@, i as int, j as int),
            v > 65535 <==> digits_value(s@, i as int, j as int) > 65535,
        decreases s.len() - j,
    {
        if v <= 65535 {
            v = v * 10 + (s[j] - 48) as u32;
        }
        j = j + 1;
    }
    if v <= 65535 {
        (j, Some(v as u16))
    } else {
        (j, None)
    }
}

fn lex_stream(stream: &[u8], switches: bool) -> (r: Vec<Token>)
    ensures
        r@ == lex(stream@, 0, true, switches),
{
    let mul: Vec<u8> = vec![109, 117, 108];
    let do_word_bytes: Vec<u8> = vec![100, 111, 40, 41];
    let dont: Vec<u8> = vec![100, 111, 110, 39, 116, 40, 41];
    assert(mul@ =~= mul_word());
    assert(do_word_bytes@ =~= do_word());
    assert(dont@ =~= dont_word());
    let mut out: Vec<Token> = Vec::new();
    let mut accepting = true;
    let mut i: usize = 0;
    while i < stream.len()
        invariant
            mul@ == mul_word(),
            do_word_bytes@ == do_word(),
            dont@ == dont_word(),
            i <= stream.len(),
            lex(stream@, 0, true, switches) == out@ + lex(stream@, i as int, accepting, switches),
        decreases stream.len() - i,
    {
        let ghost before = out@;
        let ghost acc = accepting;
        if switches && !accepting {
            if has_word(stream, i, &do_word_bytes) {
                accepting = true;
                i = i + 4;
            } else {
                i = i + 1;
            }
        } else if switches && has_word(stream, i, &dont) {
            accepting = false;
            i = i + 7;
        } else if has_word(stream, i, &mul) {
            out.push(Token::MUL);
            i = i + 3;
            proof {
                assert(before + lex(stream@, i - 3, acc, switches) == out@ + lex(stream@, i as int, accepting, switches));
            }
        } else {
            let b = stream[i];
            if 48 <= b && b <= 57 {
                let (j, v) = digit_run(stream, i);
                proof {
                    lemma_run_end(stream@, i + 1);
                }
                match v {
                    Some(n) => {
                        out.push(Token::NUMBER(n));
                        i = j;
                    },
                    None => {
                        i = i + 1;
                    },
                }
            } else {
                let t = if b == 40 {
                    Token::OPEN
                } else if b == 41 {
                    Token::CLOSE
                } else if b == 44 {
                    Token::COMMA
                } else {
                    Token::JUNK
                };
                out.push(t);
                i = i + 1;
            }
        }
        proof {
            assert(before + lex(stream@, 0, true, switches).subrange(0, 0) == before);
        }
    }
    assert(out@ + Seq::<Token>::empty() =~= out@);
    out
}

/// The tokens of a program text.
pub fn tokenize(stream: &[u8]) -> (r: Vec<Token>)
    ensures
        r@ == lex(stream@, 0, true, false),
{
    lex_stream(stream, false)
}

/// The tokens of a program text, with the stretches between `don't()` and
/// the next `do()` left out.
pub fn do_dont_preproc_tokenize(stream: &[u8]) -> (r: Vec<Token>)
    ensures
        r@ == lex(stream@, 0, true, true),
{
    lex_stream(stream, true)
}

/// The first `mul` token at or after `i`, or the length where none is.
pub open spec fn next_mul(t: Seq<Token>, i: int) -> int
    decreases t.len() - i,
{
    if i < 0 || i >= t.len() {
        t.len() as int
    } else if t[i] == Token::MUL {
        i
    } else {
        next_mul(t, i + 1)
    }
}

pub open spec fn token_is(t: Seq<Token>, k: int, tok: Token) -> bool {
    0 <= k < t.len() && t[k] == tok
}

pub open spec fn number_at(t: Seq<Token>, k: int) -> bool {
    0 <= k < t.len() && t[k] is NUMBER
}

/// The multiplications `mul ( a , b )` in the tokens from `i` on. Where the
/// pattern breaks off, the search for the next `mul` resumes at the token
/// that broke it.
pub open spec fn exprs_from(t: Seq<Token>, i: int) -> Seq<Expression>
    decreases t.len() + 1 - i,
{
    if i < 0 || i >= t.len() {
        Seq::empty()
    } else {
        let m = next_mul(t, i);
        if m < i || m >= t.len() {
            Seq::empty()
        } else if !token_is(t, m + 1, Token::OPEN) {
            exprs_from(t, m + 1)
        } else if !number_at(t, m + 2) {
            exprs_from(t, m + 2)
        } else if !token_is(t, m + 3, Token::COMMA) {
            exprs_from(t, m + 3)
        } else if !number_at(t, m + 4) {
            exprs_from(t, m + 4)
        } else if !token_is(t, m + 5, Token::CLOSE) {
            exprs_from(t, m + 5)
        } else {
            seq![Expression::MUL(t[m + 2]->NUMBER_0, t[m + 4]->NUMBER_0)] + exprs_from(t, m + 5)
        }
    }
}

proof fn lemma_next_mul(t: Seq<Token>, i: int)
    requires
        0 <= i,
    ensures
        i <= next_mul(t, i) <= t.len() || (i > t.len() && next_mul(t, i) == t.len()),
        next_mul(t, i) < t.len() ==> t[next_mul(t, i)] == Token::MUL,
        forall|k: int| i <= k < next_mul(t, i) ==> t[k] != Token::MUL,
    decreases t.len() - i,
{
    if i < t.len() && t[i] != Token::MUL {
        lemma_next_mul(t, i + 1);
    }
}

/// Matches `mul ( a , b )` at the `mul` token `m`: the multiplication where
/// the pattern is complete, and the token where the search goes on.
fn match_mul(t: &Vec<Token>, m: usize) -> (r: (usize, Option<Expression>))
    requires
        m < t.len(),
        t@[m as int] == Token::MUL,
    ensures
        m < r.0 <= m + 5,
        r.1 matches Some(e) ==> exprs_from(t@, m as int) == seq![e] + exprs_from(t@, r.0 as int),
        r.1 is None ==> exprs_from(t@, m as int) == exprs_from(t@, r.0 as int),
{
    let n = t.len();
    proof {
        lemma_next_mul(t@, m as int);
    }
    if m + 1 >= n || t[m + 1] != Token::OPEN {
        return (m + 1, None);
    }
    if m + 2 >= n {
        return (m + 2, None);
    }
    let a = match t[m + 2] {
        Token::NUMBER(a) => a,
        _ => {
            return (m + 2, None);
        },
    };
    if m + 3 >= n || t[m + 3] != Token::COMMA {
        return (m + 3, None);
    }
    if m + 4 >= n {
        return (m + 4, None);
    }
    let b = match t[m + 4] {
        Token::NUMBER(b) => b,
        _ => {
            return (m + 4, None);
        },
    };
    if m + 5 >= n || t[m + 5] != Token::CLOSE {
        return (m + 5, None);
    }
    (m + 5, Some(Expression::MUL(a, b)))
}

/// The multiplications in a token stream.
pub fn parse(tokens: Vec<Token>) -> (r: Vec<Expression>)
    ensures
        r@ == exprs_from(tokens@, 0),
{
    let n = tokens.len();
    let mut out: Vec<Expression> = Vec::new();
    let mut i: usize = 0;
    while i < n
        invariant
            n == tokens.len(),
            exprs_from(tokens@, 0) == out@ + exprs_from(tokens@, i as int),
        decreases n + 1 - i,
    {
        let ghost start = i as int;
        proof {
            lemma_next_mul(tokens@, start);
        }
        while i < n && tokens[i] != Token::MUL
            invariant
                n == tokens.len(),
                start <= i <= n,
                next_mul(tokens@, start) == next_mul(tokens@, i as int),
            decreases n - i,
        {
            i = i + 1;
        }
        if i >= n {
            assert(out@ + Seq::<Expression>::empty() =~= out@);
            return out;
        }
        let m = i;
        let ghost before = out@;
        let (next, found) = match_mul(&tokens, m);
        proof {
            assert(exprs_from(tokens@, start) == exprs_from(tokens@, m as int));
        }
        match found {
            Some(e) => {
                out.push(e);

            },
            None => {},
        }
        proof {
            match found {
                Some(e) => {
                    assert(before + (seq![e] + exprs_from(tokens@, next as int)) =~= out@ + exprs_from(
                        tokens@,
                        next as int,
                    ));
                },
                None => {},
            }
        }
        i = if next > n {
            n
        } else {
            next
        };
    }
    assert(out@ + Seq::<Expression>::empty() =~= out@);
    out
}

/// The sum of the products of the first `n` multiplications.
pub open spec fn product_sum(e: Seq<Expression>, n: int) -> nat
    decreases n,
{
    if n <= 0 {
        0
    } else {
        product_sum(e, n - 1) + match e[n - 1] {
            Expression::MUL(a, b) => (a * b) as nat,
        }
    }
}

/// The sum of the products.
pub fn evaluate_sum(exprs: Vec<Expression>) -> (r: u32)
    requires
        product_sum(exprs@, exprs@.len() as int) <= u32::MAX,
    ensures
        r == product_sum(exprs@, exprs@.len() as int),
{
    let mut sum: u32 = 0;
    for i in 0..exprs.len()
        invariant
            product_sum(exprs@, exprs@.len() as int) <= u32::MAX,
            sum == product_sum(exprs@, i as int),
    {
        proof {
            lemma_product_sum_grows(exprs@, i + 1, exprs@.len() as int);
        }
        match exprs[i] {
            Expression::MUL(a, b) => {
                sum = sum + a as u32 * b as u32;
            },
        }
    }
    sum
}

proof fn lemma_product_sum_grows(e: Seq<Expression>, i: int, n: int)
    requires
        0 <= i <= n,
    ensures
        product_sum(e, i) <= product_sum(e, n),
    decreases n - i,
{
    if i < n {
        lemma_product_sum_grows(e, i, n - 1);
    }
}

/// The sum of the products of the multiplications in a program text. No
/// result where the sum does not fit in a `u32`.
pub fn puzzle1(input: &str) -> (r: Option<u32>)
    ensures
        product_sum(exprs_from(lex(input.spec_bytes(), 0, true, false), 0), exprs_from(lex(input.spec_bytes(), 0, true, false), 0).len() as int) <= u32::MAX
            ==> r == Some(product_sum(exprs_from(lex(input.spec_bytes(), 0, true, false), 0), exprs_from(lex(input.spec_bytes(), 0, true, false), 0).len() as int) as u32),
{
    let exprs = parse(tokenize(input.as_bytes()));
    checked_sum(exprs)
}

/// As `puzzle1`, where `don't()` switches the multiplications off until the next `do()`.
pub fn puzzle2(input: &str) -> (r: Option<u32>)
    ensures
        product_sum(exprs_from(lex(input.spec_bytes(), 0, true, true), 0), exprs_from(lex(input.spec_bytes(), 0, true, true), 0).len() as int) <= u32::MAX
            ==> r == Some(product_sum(exprs_from(lex(input.spec_bytes(), 0, true, true), 0), exprs_from(lex(input.spec_bytes(), 0, true, true), 0).len() as int) as u32),
{
    let exprs = parse(do_dont_preproc_tokenize(input.as_bytes()));
    checked_sum(exprs)
}

fn checked_sum(exprs: Vec<Expression>) -> (r: Option<u32>)
    ensures
        product_sum(exprs@, exprs@.len() as int) <= u32::MAX ==> r == Some(
            product_sum(exprs@, exprs@.len() as int) as u32,
        ),
        product_sum(exprs@, exprs@.len() as int) > u32::MAX ==> r is None,
{
    let mut sum: u32 = 0;
    for i in 0..exprs.len()
        invariant
            sum == product_sum(exprs@, i as int),
    {
        let p = match exprs[i] {
            Expression::MUL(a, b) => {
                assert((a as u32) * (b as u32) <= 65535 * 65535) by (nonlinear_arith)
                    requires
                        a <= 65535,
                        b <= 65535,
                ;
                a as u32 * b as u32
            },
        };
        if p > u32::MAX - sum {
            proof {
                lemma_product_sum_grows(exprs@, i + 1, exprs@.len() as int);
            }
            return None;
        }
        sum = sum + p;
    }
    Some(sum)
}

} // verus!
