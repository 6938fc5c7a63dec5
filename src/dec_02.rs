use vstd::prelude::*;

verus! {

/// One step of a report: the levels differ by one to three, in the report's direction.
pub open spec fn step_ok(a: u8, b: u8, increasing: bool) -> bool {
    if increasing {
        a < b && b - a <= 3
    } else {
        a > b && a - b <= 3
    }
}

/// A report is safe when its levels all increase or all decrease, by one to
/// three at each step.
pub open spec fn report_safe(r: Seq<u8>) -> bool {
    r.len() <= 1 || forall|i: int| 1 <= i < r.len() ==> #[trigger] report_step(r, i)
}

/// Step `i` of a report goes in the direction of its first step.
pub open spec fn report_step(r: Seq<u8>, i: int) -> bool {
    step_ok(r[i - 1], r[i], r[0] < r[1])
}

/// A report is safe once one of its levels is taken out.
pub open spec fn dampened_safe(r: Seq<u8>) -> bool {
    exists|i: int| 0 <= i < r.len() && #[trigger] report_safe(r.remove(i))
}

/// How many of the first `n` reports satisfy `p`.
pub open spec fn count_reports(reports: Seq<Vec<u8>>, n: int, p: spec_fn(Seq<u8>) -> bool) -> nat
    decreases n,
{
    if n <= 0 {
        0
    } else {
        count_reports(reports, n - 1, p) + if p(reports[n - 1]@) {
            1nat
        } else {
            0nat
        }
    }
}

proof fn lemma_count_bounded(reports: Seq<Vec<u8>>, n: int, p: spec_fn(Seq<u8>) -> bool)
    requires
        0 <= n,
    ensures
        count_reports(reports, n, p) <= n,
    decreases n,
{
    if n > 0 {
        lemma_count_bounded(reports, n - 1, p);
    }
}

/// Whether a report is safe.
pub fn is_safe(report: &Vec<u8>) -> (r: bool)
    ensures
        r == report_safe(report@),
{
    let n = report.len();
    if n <= 1 {
        return true;
    }
    let increasing = report[0] < report[1];
    for i in 1..n
        invariant
            n == report.len(),
            n >= 2,
            increasing == (report@[0] < report@[1]),
            forall|k: int| 1 <= k < i ==> #[trigger] report_step(report@, k),
    {
        let x = report[i - 1];
        let y = report[i];
        let ok = if increasing {
            x < y && y - x <= 3
        } else {
            x > y && x - y <= 3
        };
        if !ok {
            assert(!report_step(report@, i as int));
            return false;
        }
    }
    true
}

/// The number of safe reports.
pub fn compute_safe_total(reports: Vec<Vec<u8>>) -> (r: u16)
    requires
        reports.len() <= u16::MAX,
    ensures
        r == count_reports(reports@, reports@.len() as int, |s: Seq<u8>| report_safe(s)),
{
    let mut total: u16 = 0;
    for i in 0..reports.len()
        invariant
            reports.len() <= u16::MAX,
            total == count_reports(reports@, i as int, |s: Seq<u8>| report_safe(s)),
    {
        proof {
            lemma_count_bounded(reports@, i as int, |s: Seq<u8>| report_safe(s));
        }
        if is_safe(&reports[i]) {
            total = total + 1;
        }
    }
    total
}

/// The report without the level at `skip`.
fn without(report: &Vec<u8>, skip: usize) -> (r: Vec<u8>)
    requires
        skip < report.len(),
    ensures
        r@ == report@.remove(skip as int),
{
    let mut r: Vec<u8> = Vec::new();
    for i in 0..report.len()
        invariant
            skip < report.len(),
            r@ == (if i <= skip {
                report@.subrange(0, i as int)
            } else {
                report@.subrange(0, skip as int) + report@.subrange(skip + 1, i as int)
            }),
    {
        if i != skip {
            r.push(report[i]);
        }
        proof {
            if i + 1 <= skip {
                assert(r@ =~= report@.subrange(0, i + 1));
            } else {
                assert(r@ =~= report@.subrange(0, skip as int) + report@.subrange(skip + 1, i + 1));
            }
        }
    }
    assert(r@ =~= report@.remove(skip as int));
    r
}

/// The number of reports that are safe once one level is taken out.
pub fn compute_safe_total_with_dampening_lazy(reports: Vec<Vec<u8>>) -> (r: u16)
    requires
        reports.len() <= u16::MAX,
    ensures
        r == count_reports(reports@, reports@.len() as int, |s: Seq<u8>| dampened_safe(s)),
{
    let mut total: u16 = 0;
    for i in 0..reports.len()
        invariant
            reports.len() <= u16::MAX,
            total == count_reports(reports@, i as int, |s: Seq<u8>| dampened_safe(s)),
    {
        proof {
            lemma_count_bounded(reports@, i as int, |s: Seq<u8>| dampened_safe(s));
        }
        let report = &reports[i];
        let mut found = false;
        let mut j: usize = 0;
        while j < report.len() && !found
            invariant
                j <= report.len(),
                found ==> dampened_safe(report@),
                !found ==> forall|k: int| 0 <= k < j ==> !(#[trigger] report_safe(report@.remove(k))),
            decreases report.len() - j,
        {
            if is_safe(&without(report, j)) {
                found = true;
            }
            j = j + 1;
        }
        if found {
            total = total + 1;
        }
    }
    total
}

/// The number of safe reports.
pub fn puzzle1(reports: Vec<Vec<u8>>) -> (r: u16)
    requires
        reports.len() <= u16::MAX,
    ensures
        r == count_reports(reports@, reports@.len() as int, |s: Seq<u8>| report_safe(s)),
{
    compute_safe_total(reports)
}

/// The number of reports that are safe with the dampener.
pub fn puzzle2(reports: Vec<Vec<u8>>) -> (r: u16)
    requires
        reports.len() <= u16::MAX,
    ensures
        r == count_reports(reports@, reports@.len() as int, |s: Seq<u8>| dampened_safe(s)),
{
    compute_safe_total_with_dampening_lazy(reports)
}

} // verus!
