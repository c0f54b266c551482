use vstd::prelude::*;

verus! {

/// One completed HTTP exchange: status code, time taken in milliseconds and
/// body length in bytes.
#[derive(Copy, Clone, Debug, PartialEq, Eq, Structural)]
pub struct HttpResponse {
    pub status: u16,
    pub duration: u64,
    pub length: usize,
}

/// The outcome of one request: a response, or the failure's description.
#[derive(Clone, Debug)]
pub enum HttpResult {
    Response(HttpResponse),
    Error(String),
}

/// Every recorded response has a non-negative duration and body length.
pub proof fn lemma_response_fields_nonnegative(r: HttpResponse)
    ensures
        r.duration >= 0,
        r.length >= 0,
{
}

/// The number of responses among `rs`.
pub open spec fn response_count(rs: Seq<HttpResult>) -> nat
    decreases rs.len(),
{
    if rs.len() == 0 {
        0
    } else {
        response_count(rs.drop_last()) + if rs.last() is Response {
            1nat
        } else {
            0nat
        }
    }
}

/// The durations of the responses among `rs`, in order.
pub open spec fn durations_of(rs: Seq<HttpResult>) -> Seq<u64>
    decreases rs.len(),
{
    if rs.len() == 0 {
        Seq::empty()
    } else {
        let rest = durations_of(rs.drop_last());
        match rs.last() {
            HttpResult::Response(r) => rest.push(r.duration),
            HttpResult::Error(_) => rest,
        }
    }
}

/// The number of responses among `rs` with status `code`.
pub open spec fn status_count(rs: Seq<HttpResult>, code: u16) -> nat
    decreases rs.len(),
{
    if rs.len() == 0 {
        0
    } else {
        status_count(rs.drop_last(), code) + match rs.last() {
            HttpResult::Response(r) => if r.status == code {
                1nat
            } else {
                0nat
            },
            HttpResult::Error(_) => 0nat,
        }
    }
}

/// The sum of the body lengths of the responses among `rs`.
pub open spec fn length_sum(rs: Seq<HttpResult>) -> nat
    decreases rs.len(),
{
    if rs.len() == 0 {
        0
    } else {
        length_sum(rs.drop_last()) + match rs.last() {
            HttpResult::Response(r) => r.length as nat,
            HttpResult::Error(_) => 0nat,
        }
    }
}

/// The sum of a list of durations.
pub open spec fn sum_of(v: Seq<u64>) -> nat
    decreases v.len(),
{
    if v.len() == 0 {
        0
    } else {
        sum_of(v.drop_last()) + v.last() as nat
    }
}

/// Whether `v` is in ascending order.
pub open spec fn sorted(v: Seq<u64>) -> bool {
    forall|i: int, j: int| 0 <= i <= j < v.len() ==> v[i] <= v[j]
}

/// The median of a sorted list: its middle element, or the mean of its two
/// middle elements rounded down.
pub open spec fn median_of(s: Seq<u64>) -> int {
    let n = s.len() as int;
    if n % 2 == 1 {
        s[n / 2] as int
    } else {
        (s[n / 2 - 1] + s[n / 2]) / 2
    }
}

/// Whether every status code among the responses of `rs` has an entry in
/// `codes`.
pub open spec fn codes_cover(rs: Seq<HttpResult>, codes: Seq<(u16, usize)>) -> bool {
    forall|i: int|
        0 <= i < rs.len() ==> (#[trigger] rs[i] matches HttpResult::Response(x) ==> exists|k: int|
            0 <= k < codes.len() && codes[k].0 == x.status)
}

/// Counts the responses and the failures.
pub fn count_outcomes(results: &Vec<HttpResult>) -> (r: (usize, usize))
    ensures
        r.0 == response_count(results@),
        r.0 + r.1 == results@.len(),
{
    let mut ok: usize = 0;
    let mut i: usize = 0;
    while i < results.len()
        invariant
            i <= results@.len(),
            ok == response_count(results@.subrange(0, i as int)),
            ok <= i,
        decreases results@.len() - i,
    {
        assert(results@.subrange(0, i as int + 1).drop_last() =~= results@.subrange(0, i as int));
        if let HttpResult::Response(_) = &results[i] {
            ok += 1;
        }
        i += 1;
    }
    assert(results@.subrange(0, results@.len() as int) =~= results@);
    (ok, results.len() - ok)
}

/// The durations of the responses, in the order they were recorded.
pub fn response_durations(results: &Vec<HttpResult>) -> (r: Vec<u64>)
    ensures
        r@ == durations_of(results@),
{
    let mut out: Vec<u64> = Vec::new();
    let mut i: usize = 0;
    while i < results.len()
        invariant
            i <= results@.len(),
            out@ == durations_of(results@.subrange(0, i as int)),
        decreases results@.len() - i,
    {
        assert(results@.subrange(0, i as int + 1).drop_last() =~= results@.subrange(0, i as int));
        if let HttpResult::Response(resp) = &results[i] {
            out.push(resp.duration);
        }
        i += 1;
    }
    assert(results@.subrange(0, results@.len() as int) =~= results@);
    out
}

/// How many responses had status `code`.
pub fn count_status(results: &Vec<HttpResult>, code: u16) -> (r: usize)
    ensures
        r == status_count(results@, code),
{
    let mut n: usize = 0;
    let mut i: usize = 0;
    while i < results.len()
        invariant
            i <= results@.len(),
            n == status_count(results@.subrange(0, i as int), code),
            n <= i,
        decreases results@.len() - i,
    {
        assert(results@.subrange(0, i as int + 1).drop_last() =~= results@.subrange(0, i as int));
        if let HttpResult::Response(resp) = &results[i] {
            if resp.status == code {
                n += 1;
            }
        }
        i += 1;
    }
    assert(results@.subrange(0, results@.len() as int) =~= results@);
    n
}

/// The status codes that occur among the responses, each once, with how many
/// responses had it.
pub fn status_histogram(results: &Vec<HttpResult>) -> (r: Vec<(u16, usize)>)
    ensures
        forall|i: int| 0 <= i < r@.len() ==> r@[i].1 == status_count(results@, #[trigger] r@[i].0),
        forall|i: int, j: int| 0 <= i < j < r@.len() ==> r@[i].0 != r@[j].0,
        codes_cover(results@, r@),
{
    let mut out: Vec<(u16, usize)> = Vec::new();
    let mut i: usize = 0;
    while i < results.len()
        invariant
            i <= results@.len(),
            forall|a: int|
                0 <= a < out@.len() ==> out@[a].1 == status_count(results@, #[trigger] out@[a].0),
            forall|a: int, b: int| 0 <= a < b < out@.len() ==> out@[a].0 != out@[b].0,
            forall|a: int|
                0 <= a < i ==> (#[trigger] results@[a] matches HttpResult::Response(x) ==> exists|
                    k: int,
                | 0 <= k < out@.len() && out@[k].0 == x.status),
        decreases results@.len() - i,
    {
        if let HttpResult::Response(resp) = &results[i] {
            let code = resp.status;
            let mut found = false;
            let mut k: usize = 0;
            while k < out.len()
                invariant
                    k <= out@.len(),
                    found ==> exists|t: int| 0 <= t < out@.len() && out@[t].0 == code,
                    !found ==> forall|t: int| 0 <= t < k ==> out@[t].0 != code,
                decreases out@.len() - k,
            {
                if out[k].0 == code {
                    found = true;
                }
                k += 1;
            }
            if !found {
                let c = count_status(results, code);
                let ghost before = out@;
                out.push((code, c));
                assert forall|a: int|
                    0 <= a < i + 1 implies (#[trigger] results@[a] matches HttpResult::Response(
                    x,
                ) ==> exists|t: int| 0 <= t < out@.len() && out@[t].0 == x.status) by {
                    if let HttpResult::Response(x) = results@[a] {
                        if a < i {
                            let t = choose|t: int| 0 <= t < before.len() && before[t].0 == x.status;
                            assert(out@[t] == before[t]);
                        } else {
                            assert(out@[before.len() as int].0 == x.status);
                        }
                    }
                }
            }
        }
        i += 1;
    }
    out
}

/// The total body length of the responses.
pub fn total_length(results: &Vec<HttpResult>) -> (r: u128)
    ensures
        r == length_sum(results@),
{
    let mut total: u128 = 0;
    let mut i: usize = 0;
    while i < results.len()
        invariant
            i <= results@.len(),
            total == length_sum(results@.subrange(0, i as int)),
            total <= i * 0xffff_ffff_ffff_ffff,
        decreases results@.len() - i,
    {
        assert(results@.subrange(0, i as int + 1).drop_last() =~= results@.subrange(0, i as int));
        if let HttpResult::Response(resp) = &results[i] {
            total = total + resp.length as u128;
        }
        i += 1;
    }
    assert(results@.subrange(0, results@.len() as int) =~= results@);
    total
}

/// The arithmetic mean of the durations, rounded down.
pub fn mean(v: &Vec<u64>) -> (r: u64)
    requires
        v@.len() > 0,
    ensures
        r == sum_of(v@) / v@.len() as nat,
{
    let mut total: u128 = 0;
    let mut i: usize = 0;
    while i < v.len()
        invariant
            i <= v@.len(),
            total == sum_of(v@.subrange(0, i as int)),
            total <= i * 0xffff_ffff_ffff_ffff,
        decreases v@.len() - i,
    {
        assert(v@.subrange(0, i as int + 1).drop_last() =~= v@.subrange(0, i as int));
        total = total + v[i] as u128;
        i += 1;
    }
    assert(v@.subrange(0, v@.len() as int) =~= v@);
    let n = v.len() as u128;
    assert(total / n <= 0xffff_ffff_ffff_ffff) by (nonlinear_arith)
        requires
            total <= n * 0xffff_ffff_ffff_ffff,
            n > 0,
    ;
    (total / n) as u64
}

proof fn lemma_swap_keeps_multiset(s: Seq<u64>, k: int)
    requires
        0 <= k < k + 1 < s.len(),
    ensures
        s.update(k, s[k + 1]).update(k + 1, s[k]).to_multiset() == s.to_multiset(),
{
    broadcast use vstd::multiset::group_multiset_axioms;

    let x = s[k];
    let y = s[k + 1];
    let s1 = s.update(k, y);
    vstd::seq_lib::to_multiset_update(s, k, y);
    vstd::seq_lib::to_multiset_update(s1, k + 1, x);
    assert(s1[k + 1] == y);
    let m = s.to_multiset();
    assert(m.count(x) > 0) by {
        s.to_multiset_ensures();
        assert(s.contains(x));
    }
    assert(m.insert(y).remove(x).insert(x).remove(y) =~= m);
}

/// Sorts the durations in ascending order.
pub fn sort_durations(v: &mut Vec<u64>)
    ensures
        sorted(final(v)@),
        final(v)@.to_multiset() == old(v)@.to_multiset(),
        final(v)@.len() == old(v)@.len(),
{
    let n = v.len();
    let mut i: usize = 1;
    if n == 0 {
        return;
    }
    while i < n
        invariant
            1 <= i <= n,
            n == v@.len(),
            sorted(v@.subrange(0, i as int)),
            v@.to_multiset() == old(v)@.to_multiset(),
        decreases n - i,
    {
        assert forall|a: int, b: int| 0 <= a <= b < i implies v@[a] <= v@[b] by {
            assert(v@.subrange(0, i as int)[a] == v@[a]);
            assert(v@.subrange(0, i as int)[b] == v@[b]);
        }
        let mut j: usize = i;
        while j > 0 && v[j - 1] > v[j]
            invariant
                0 <= j <= i < n,
                n == v@.len(),
                v@.to_multiset() == old(v)@.to_multiset(),
                forall|a: int, b: int| 0 <= a <= b <= i && a != j && b != j ==> v@[a] <= v@[b],
                forall|b: int| j < b <= i ==> v@[j as int] < v@[b],
            decreases j,
        {
            let x = v[j - 1];
            let y = v[j];
            let ghost before = v@;
            v.set(j - 1, y);
            v.set(j, x);
            proof {
                assert(v@ =~= before.update(j as int - 1, y).update(j as int, x));
                lemma_swap_keeps_multiset(before, j as int - 1);
                let jj = j as int;
                assert forall|a: int, b: int|
                    0 <= a <= b <= i && a != jj - 1 && b != jj - 1 implies v@[a] <= v@[b] by {
                    if b == jj && a < jj - 1 {
                        assert(before[a] <= before[jj - 1]);
                    } else if a == jj && b > jj {
                        assert(before[jj - 1] <= before[b]);
                    } else if a == jj && b == jj {
                    } else {
                        assert(before[a] <= before[b]);
                    }
                }
                assert forall|b: int| jj - 1 < b <= i implies v@[jj - 1] < #[trigger] v@[b] by {
                    if b > jj {
                        assert(before[jj] < before[b]);
                    }
                }
            }
            j -= 1;
        }
        proof {
            let jj = j as int;
            assert forall|a: int, b: int| 0 <= a <= b < i + 1 implies #[trigger] v@[a]
                <= #[trigger] v@[b] by {
                if a == b {
                } else if b == jj && a < jj {
                    assert(v@[a] <= v@[jj - 1]);
                } else if a == jj {
                    assert(v@[jj] < v@[b]);
                } else {
                    assert(v@[a] <= v@[b]);
                }
            }
            let pre = v@.subrange(0, i as int + 1);
            assert forall|a: int, b: int| 0 <= a <= b < pre.len() implies #[trigger] pre[a]
                <= #[trigger] pre[b] by {
                assert(pre[a] == v@[a] && pre[b] == v@[b]);
            }
        }
        i += 1;
    }
    assert(v@.subrange(0, n as int) =~= v@);
}

/// The value at the `pct`-th percentile of a sorted list: the element at
/// index `floor(pct * n / 100)`.
pub fn percentile(sorted_values: &Vec<u64>, pct: u64) -> (r: u64)
    requires
        sorted_values@.len() > 0,
        pct < 100,
    ensures
        r == sorted_values@[(sorted_values@.len() * pct as nat / 100) as int],
{
    let n = sorted_values.len() as u128;
    assert(n * (pct as u128) <= 0xffff_ffff_ffff_ffffu128 * 100) by (nonlinear_arith)
        requires
            n <= 0xffff_ffff_ffff_ffffu128,
            pct < 100,
    ;
    let idx = n * (pct as u128) / 100;
    assert(idx < n) by (nonlinear_arith)
        requires
            idx == n * (pct as u128) / 100,
            pct < 100,
            n > 0,
    ;
    sorted_values[idx as usize]
}

/// The median of a sorted list: its middle element, or the mean of its two
/// middle elements rounded down.
pub fn median(sorted_values: &Vec<u64>) -> (r: u64)
    requires
        sorted_values@.len() > 0,
    ensures
        r == median_of(sorted_values@),
{
    let n = sorted_values.len();
    if n % 2 == 1 {
        sorted_values[n / 2]
    } else {
        let a = sorted_values[n / 2 - 1] as u128;
        let b = sorted_values[n / 2] as u128;
        ((a + b) / 2) as u64
    }
}

/// The aggregate figures of a run.
#[derive(Clone, Debug)]
pub struct Summary {
    pub responses: usize,
    pub errors: usize,
    pub status_codes: Vec<(u16, usize)>,
    pub total_length: u128,
    pub mean_ms: u64,
    pub median_ms: u64,
    pub p95_ms: u64,
    pub p99_ms: u64,
}

/// Aggregates the results of a run. The duration figures are zero when no
/// response was recorded.
pub fn summarize(results: &Vec<HttpResult>) -> (r: Summary)
    ensures
        r.responses == response_count(results@),
        r.responses + r.errors == results@.len(),
        r.total_length == length_sum(results@),
        forall|i: int|
            0 <= i < r.status_codes@.len() ==> r.status_codes@[i].1 == status_count(
                results@,
                #[trigger] r.status_codes@[i].0,
            ),
        forall|i: int, j: int|
            0 <= i < j < r.status_codes@.len() ==> r.status_codes@[i].0 != r.status_codes@[j].0,
        codes_cover(results@, r.status_codes@),
        durations_of(results@).len() == 0 ==> r.mean_ms == 0 && r.median_ms == 0 && r.p95_ms == 0
            && r.p99_ms == 0,
        durations_of(results@).len() > 0 ==> r.mean_ms == sum_of(durations_of(results@))
            / durations_of(results@).len() as nat,
        exists|s: Seq<u64>|
            sorted(s) && s.to_multiset() == durations_of(results@).to_multiset() && s.len()
                == durations_of(results@).len() && (s.len() > 0 ==> r.p95_ms == s[(s.len() * 95
                / 100) as int] && r.p99_ms == s[(s.len() * 99 / 100) as int] && r.median_ms
                == median_of(s)),
{
    let (responses, errors) = count_outcomes(results);
    let status_codes = status_histogram(results);
    let total = total_length(results);
    let mut durations = response_durations(results);
    let ghost unsorted = durations@;
    if durations.len() == 0 {
        assert(sorted(durations@) && durations@.to_multiset() == unsorted.to_multiset());
        return Summary {
            responses,
            errors,
            status_codes,
            total_length: total,
            mean_ms: 0,
            median_ms: 0,
            p95_ms: 0,
            p99_ms: 0,
        };
    }
    let mean_ms = mean(&durations);
    sort_durations(&mut durations);
    let median_ms = median(&durations);
    let p95_ms = percentile(&durations, 95);
    let p99_ms = percentile(&durations, 99);
    assert(sorted(durations@) && durations@.to_multiset() == unsorted.to_multiset());
    Summary {
        responses,
        errors,
        status_codes,
        total_length: total,
        mean_ms,
        median_ms,
        p95_ms,
        p99_ms,
    }
}

} // verus!
