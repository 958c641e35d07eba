//! The three aggregation reducers: request-type counts, error counts keyed by
//! endpoint and status code, and per-endpoint average response time. Each is
//! a single pass over the record collection, returns an association list with
//! pairwise-distinct keys (a map whose entry order carries no meaning), and
//! is pinned by its contract to a spec-level tally of the input sequence.

use vstd::prelude::*;

use crate::log_entry::LogEntry;
use crate::summation::{
    lemma_seq_sum_bound, lemma_seq_sum_dominated, lemma_seq_sum_permutation, lemma_seq_sum_push,
    lemma_seq_sum_remove, seq_sum,
};

verus! {

/// Contribution of one record to the count for request type `t`.
pub open spec fn type_weight(t: Seq<char>) -> spec_fn(LogEntry) -> int {
    |l: LogEntry| if l.request_type@ == t { 1int } else { 0int }
}

/// Contribution of one record to the error count for endpoint `e` and
/// status code `sc`.
pub open spec fn error_weight(e: Seq<char>, sc: u16) -> spec_fn(LogEntry) -> int {
    |l: LogEntry|
        if l.status_code >= 400 && l.endpoint_url@ == e && l.status_code == sc {
            1int
        } else {
            0int
        }
}

/// Contribution of one record to the overall error count.
pub open spec fn error_flag() -> spec_fn(LogEntry) -> int {
    |l: LogEntry| if l.status_code >= 400 { 1int } else { 0int }
}

/// Contribution of one record to the response-time total for endpoint `e`.
pub open spec fn time_weight(e: Seq<char>) -> spec_fn(LogEntry) -> int {
    |l: LogEntry| if l.endpoint_url@ == e { l.response_time_ms as int } else { 0int }
}

/// Contribution of one record to the hit count for endpoint `e`.
pub open spec fn hit_weight(e: Seq<char>) -> spec_fn(LogEntry) -> int {
    |l: LogEntry| if l.endpoint_url@ == e { 1int } else { 0int }
}

/// The count column of an association list.
pub open spec fn count_column<K>() -> spec_fn((K, usize)) -> int {
    |p: (K, usize)| p.1 as int
}

/// How many records carry request type `t`.
pub open spec fn count_of_type(recs: Seq<LogEntry>, t: Seq<char>) -> int {
    seq_sum(recs, type_weight(t))
}

/// How many records are errors (status `>= 400`) for endpoint `e` with
/// exactly status `sc`.
pub open spec fn count_of_error(recs: Seq<LogEntry>, e: Seq<char>, sc: u16) -> int {
    seq_sum(recs, error_weight(e, sc))
}

/// How many records are errors (status `>= 400`) at all.
pub open spec fn error_total(recs: Seq<LogEntry>) -> int {
    seq_sum(recs, error_flag())
}

/// The sum of the response times of the records for endpoint `e`.
pub open spec fn time_total(recs: Seq<LogEntry>, e: Seq<char>) -> int {
    seq_sum(recs, time_weight(e))
}

/// How many records there are for endpoint `e`.
pub open spec fn hit_count(recs: Seq<LogEntry>, e: Seq<char>) -> int {
    seq_sum(recs, hit_weight(e))
}

/// The sum of the value column of an association list with `usize` counts.
pub open spec fn sum_of_counts<K>(v: Seq<(K, usize)>) -> int {
    seq_sum(v, count_column::<K>())
}

pub proof fn lemma_count_of_type_bound(recs: Seq<LogEntry>, t: Seq<char>)
    ensures
        0 <= count_of_type(recs, t) <= recs.len(),
{
    lemma_seq_sum_bound(recs, type_weight(t), 1);
}

pub proof fn lemma_count_of_error_bound(recs: Seq<LogEntry>, e: Seq<char>, sc: u16)
    ensures
        0 <= count_of_error(recs, e, sc) <= recs.len(),
{
    lemma_seq_sum_bound(recs, error_weight(e, sc), 1);
}

pub proof fn lemma_error_total_bound(recs: Seq<LogEntry>)
    ensures
        0 <= error_total(recs) <= recs.len(),
{
    lemma_seq_sum_bound(recs, error_flag(), 1);
}

pub proof fn lemma_hit_count_bound(recs: Seq<LogEntry>, e: Seq<char>)
    ensures
        0 <= hit_count(recs, e) <= recs.len(),
{
    lemma_seq_sum_bound(recs, hit_weight(e), 1);
}

pub proof fn lemma_time_total_bounds(recs: Seq<LogEntry>, e: Seq<char>)
    ensures
        0 <= time_total(recs, e) <= u32::MAX * hit_count(recs, e),
        time_total(recs, e) <= u32::MAX * recs.len(),
{
    let f = time_weight(e);
    let g = hit_weight(e);
    assert forall|l: LogEntry| 0 <= #[trigger] f(l) && f(l) <= u32::MAX * g(l) by {
        assert(u32::MAX * 1int == u32::MAX);
        assert(u32::MAX * 0int == 0);
    }
    lemma_seq_sum_dominated(recs, f, g, u32::MAX as int);
    lemma_seq_sum_bound(recs, f, u32::MAX as int);
    lemma_seq_sum_bound(recs, g, 1);
    assert(u32::MAX * hit_count(recs, e) <= u32::MAX * recs.len()) by (nonlinear_arith)
        requires
            hit_count(recs, e) <= recs.len(),
    ;
}

/// Counts the occurrences of each request type, every record contributing
/// exactly once. The result is a map from request type to count: its keys
/// are pairwise distinct, an entry exists exactly for the request types that
/// occur, each count is the exact number of occurrences, and the counts sum
/// to the number of records.
pub fn count_request_types(log_entries: &Vec<LogEntry>) -> (r: Vec<(String, usize)>)
    ensures
        forall|j1: int, j2: int| 0 <= j1 < j2 < r@.len() ==> r@[j1].0@ != r@[j2].0@,
        forall|j: int|
            0 <= j < r@.len() ==> r@[j].1 as int == count_of_type(log_entries@, #[trigger] r@[j].0@)
                && r@[j].1 >= 1,
        forall|t: Seq<char>|
            #[trigger] count_of_type(log_entries@, t) > 0 ==> exists|j: int|
                0 <= j < r@.len() && r@[j].0@ == t,
        sum_of_counts(r@) == log_entries@.len(),
{
    let ghost all = log_entries@;
    let mut r: Vec<(String, usize)> = Vec::new();
    let mut i: usize = 0;
    while i < log_entries.len()
        invariant
            0 <= i <= all.len(),
            all == log_entries@,
            forall|j1: int, j2: int| 0 <= j1 < j2 < r@.len() ==> r@[j1].0@ != r@[j2].0@,
            forall|j: int|
                0 <= j < r@.len() ==> r@[j].1 as int == count_of_type(
                    all.take(i as int),
                    #[trigger] r@[j].0@,
                ) && r@[j].1 >= 1,
            forall|t: Seq<char>|
                #[trigger] count_of_type(all.take(i as int), t) > 0 ==> exists|j: int|
                    0 <= j < r@.len() && r@[j].0@ == t,
            sum_of_counts(r@) == i,
        decreases all.len() - i,
    {
        let entry = &log_entries[i];
        let ghost prefix = all.take(i as int);
        let ghost next = all.take(i as int + 1);
        proof {
            assert(next =~= prefix.push(all[i as int]));
        }
        let mut found: Option<usize> = None;
        let mut j: usize = 0;
        while j < r.len()
            invariant
                j <= r@.len(),
                match found {
                    Some(m) => m < r@.len() && r@[m as int].0@ == entry.request_type@,
                    None => forall|m: int| 0 <= m < j ==> r@[m].0@ != entry.request_type@,
                },
            decreases r@.len() - j,
        {
            if r[j].0 == entry.request_type {
                found = Some(j);
            }
            j += 1;
        }
        match found {
            Some(m) => {
                proof {
                    lemma_count_of_type_bound(prefix, r@[m as int].0@);
                }
                let ghost before = r@;
                let (k, c) = r.remove(m);
                r.insert(m, (k, c + 1));
                proof {
                    assert(r@ =~= before.update(m as int, (before[m as int].0, (c + 1) as usize)));
                    assert(r@.remove(m as int) =~= before.remove(m as int));
                    lemma_seq_sum_remove(before, count_column::<String>(), m as int);
                    lemma_seq_sum_remove(r@, count_column::<String>(), m as int);
                    assert(sum_of_counts(r@) == i + 1);
                    assert forall|jj: int| 0 <= jj < r@.len() implies r@[jj].1 as int
                        == count_of_type(next, #[trigger] r@[jj].0@) && r@[jj].1 >= 1 by {
                        lemma_seq_sum_push(prefix, type_weight(r@[jj].0@), all[i as int]);
                        if jj == m as int {
                            assert(r@[jj].0@ == entry.request_type@);
                            assert(type_weight(r@[jj].0@)(all[i as int]) == 1);
                        } else {
                            assert(r@[jj].0@ == before[jj].0@);
                            assert(r@[jj].0@ != before[m as int].0@);
                            assert(type_weight(r@[jj].0@)(all[i as int]) == 0);
                        }
                    }
                    assert forall|t: Seq<char>| #[trigger] count_of_type(next, t)
                        > 0 implies exists|jj: int| 0 <= jj < r@.len() && r@[jj].0@ == t by {
                        lemma_seq_sum_push(prefix, type_weight(t), all[i as int]);
                        if count_of_type(prefix, t) > 0 {
                            let jj = choose|jj: int| 0 <= jj < before.len() && before[jj].0@ == t;
                            assert(r@[jj].0@ == t);
                        } else {
                            assert(type_weight(t)(all[i as int]) == 1);
                            assert(t == all[i as int].request_type@);
                            assert(r@[m as int].0@ == t);
                        }
                    }
                }
            },
            None => {
                proof {
                    lemma_count_of_type_bound(prefix, entry.request_type@);
                }
                let ghost before = r@;
                r.push((entry.request_type.clone(), 1));
                proof {
                    lemma_seq_sum_push(before, count_column::<String>(), r@.last());
                    assert(r@ =~= before.push(r@.last()));
                    assert(sum_of_counts(r@) == i + 1);
                    assert(count_of_type(prefix, entry.request_type@) == 0);
                    assert forall|jj: int| 0 <= jj < r@.len() implies r@[jj].1 as int
                        == count_of_type(next, #[trigger] r@[jj].0@) && r@[jj].1 >= 1 by {
                        lemma_seq_sum_push(prefix, type_weight(r@[jj].0@), all[i as int]);
                        if jj == r@.len() - 1 {
                            assert(r@[jj].0@ == entry.request_type@);
                            assert(type_weight(r@[jj].0@)(all[i as int]) == 1);
                        } else {
                            assert(r@[jj] == before[jj]);
                            assert(r@[jj].0@ != entry.request_type@);
                            assert(type_weight(r@[jj].0@)(all[i as int]) == 0);
                        }
                    }
                    assert forall|t: Seq<char>| #[trigger] count_of_type(next, t)
                        > 0 implies exists|jj: int| 0 <= jj < r@.len() && r@[jj].0@ == t by {
                        lemma_seq_sum_push(prefix, type_weight(t), all[i as int]);
                        if count_of_type(prefix, t) > 0 {
                            let jj = choose|jj: int| 0 <= jj < before.len() && before[jj].0@ == t;
                            assert(r@[jj].0@ == t);
                        } else {
                            assert(type_weight(t)(all[i as int]) == 1);
                            assert(t == all[i as int].request_type@);
                            assert(r@[r@.len() - 1].0@ == t);
                        }
                    }
                }
            },
        }
        i += 1;
    }
    proof {
        assert(all.take(all.len() as int) =~= all);
    }
    r
}

/// Counts the occurrences of errors: for each record with status code at
/// least 400, the counter keyed by the exact (endpoint, status code) pair is
/// raised by one; other records contribute nothing. The result is a map from
/// such pairs to counts: keys pairwise distinct, an entry exactly for each
/// pair that occurs among the error records, each count exact, and the
/// counts summing to the number of error records (so never more than the
/// number of records).
pub fn analyze_errors(log_entries: &Vec<LogEntry>) -> (r: Vec<((String, u16), usize)>)
    ensures
        forall|j1: int, j2: int|
            0 <= j1 < j2 < r@.len() ==> !(r@[j1].0.0@ == r@[j2].0.0@ && r@[j1].0.1
                == r@[j2].0.1),
        forall|j: int|
            0 <= j < r@.len() ==> r@[j].1 as int == count_of_error(
                log_entries@,
                #[trigger] r@[j].0.0@,
                r@[j].0.1,
            ) && r@[j].1 >= 1 && r@[j].0.1 >= 400,
        forall|e: Seq<char>, sc: u16|
            #[trigger] count_of_error(log_entries@, e, sc) > 0 ==> exists|j: int|
                0 <= j < r@.len() && r@[j].0.0@ == e && r@[j].0.1 == sc,
        sum_of_counts(r@) == error_total(log_entries@),
        0 <= error_total(log_entries@) <= log_entries@.len(),
{
    let ghost all = log_entries@;
    proof {
        lemma_error_total_bound(all);
    }
    let mut r: Vec<((String, u16), usize)> = Vec::new();
    let mut i: usize = 0;
    while i < log_entries.len()
        invariant
            0 <= i <= all.len(),
            all == log_entries@,
            forall|j1: int, j2: int|
                0 <= j1 < j2 < r@.len() ==> !(r@[j1].0.0@ == r@[j2].0.0@ && r@[j1].0.1
                    == r@[j2].0.1),
            forall|j: int|
                0 <= j < r@.len() ==> r@[j].1 as int == count_of_error(
                    all.take(i as int),
                    #[trigger] r@[j].0.0@,
                    r@[j].0.1,
                ) && r@[j].1 >= 1 && r@[j].0.1 >= 400,
            forall|e: Seq<char>, sc: u16|
                #[trigger] count_of_error(all.take(i as int), e, sc) > 0 ==> exists|j: int|
                    0 <= j < r@.len() && r@[j].0.0@ == e && r@[j].0.1 == sc,
            sum_of_counts(r@) == error_total(all.take(i as int)),
        decreases all.len() - i,
    {
        let entry = &log_entries[i];
        let ghost prefix = all.take(i as int);
        let ghost next = all.take(i as int + 1);
        proof {
            assert(next =~= prefix.push(all[i as int]));
            lemma_seq_sum_push(prefix, error_flag(), all[i as int]);
        }
        if entry.status_code >= 400 {
            let mut found: Option<usize> = None;
            let mut j: usize = 0;
            while j < r.len()
                invariant
                    j <= r@.len(),
                    match found {
                        Some(m) => m < r@.len() && r@[m as int].0.0@ == entry.endpoint_url@
                            && r@[m as int].0.1 == entry.status_code,
                        None => forall|m: int|
                            0 <= m < j ==> !(r@[m].0.0@ == entry.endpoint_url@ && r@[m].0.1
                                == entry.status_code),
                    },
                decreases r@.len() - j,
            {
                if r[j].0.0 == entry.endpoint_url && r[j].0.1 == entry.status_code {
                    found = Some(j);
                }
                j += 1;
            }
            match found {
                Some(m) => {
                    proof {
                        lemma_count_of_error_bound(prefix, r@[m as int].0.0@, r@[m as int].0.1);
                    }
                    let ghost before = r@;
                    let (k, c) = r.remove(m);
                    r.insert(m, (k, c + 1));
                    proof {
                        assert(r@ =~= before.update(
                            m as int,
                            (before[m as int].0, (c + 1) as usize),
                        ));
                        assert(r@.remove(m as int) =~= before.remove(m as int));
                        lemma_seq_sum_remove(before, count_column::<(String, u16)>(), m as int);
                        lemma_seq_sum_remove(r@, count_column::<(String, u16)>(), m as int);
                        assert(sum_of_counts(r@) == error_total(next));
                        assert forall|jj: int| 0 <= jj < r@.len() implies r@[jj].1 as int
                            == count_of_error(next, #[trigger] r@[jj].0.0@, r@[jj].0.1)
                            && r@[jj].1 >= 1 && r@[jj].0.1 >= 400 by {
                            lemma_seq_sum_push(
                                prefix,
                                error_weight(r@[jj].0.0@, r@[jj].0.1),
                                all[i as int],
                            );
                            if jj == m as int {
                                assert(error_weight(r@[jj].0.0@, r@[jj].0.1)(all[i as int]) == 1);
                            } else {
                                assert(r@[jj].0 == before[jj].0);
                                assert(!(r@[jj].0.0@ == before[m as int].0.0@ && r@[jj].0.1
                                    == before[m as int].0.1));
                                assert(error_weight(r@[jj].0.0@, r@[jj].0.1)(all[i as int]) == 0);
                            }
                        }
                        assert forall|e: Seq<char>, sc: u16| #[trigger] count_of_error(next, e, sc)
                            > 0 implies exists|jj: int|
                            0 <= jj < r@.len() && r@[jj].0.0@ == e && r@[jj].0.1 == sc by {
                            lemma_seq_sum_push(prefix, error_weight(e, sc), all[i as int]);
                            if count_of_error(prefix, e, sc) > 0 {
                                let jj = choose|jj: int|
                                    0 <= jj < before.len() && before[jj].0.0@ == e
                                        && before[jj].0.1 == sc;
                                assert(r@[jj].0.0@ == e && r@[jj].0.1 == sc);
                            } else {
                                assert(error_weight(e, sc)(all[i as int]) == 1);
                                assert(r@[m as int].0.0@ == e && r@[m as int].0.1 == sc);
                            }
                        }
                    }
                },
                None => {
                    proof {
                        lemma_count_of_error_bound(prefix, entry.endpoint_url@, entry.status_code);
                    }
                    let ghost before = r@;
                    r.push(((entry.endpoint_url.clone(), entry.status_code), 1));
                    proof {
                        lemma_seq_sum_push(before, count_column::<(String, u16)>(), r@.last());
                        assert(r@ =~= before.push(r@.last()));
                        assert(sum_of_counts(r@) == error_total(next));
                        assert(count_of_error(prefix, entry.endpoint_url@, entry.status_code)
                            == 0);
                        assert forall|jj: int| 0 <= jj < r@.len() implies r@[jj].1 as int
                            == count_of_error(next, #[trigger] r@[jj].0.0@, r@[jj].0.1)
                            && r@[jj].1 >= 1 && r@[jj].0.1 >= 400 by {
                            lemma_seq_sum_push(
                                prefix,
                                error_weight(r@[jj].0.0@, r@[jj].0.1),
                                all[i as int],
                            );
                            if jj == r@.len() - 1 {
                                assert(error_weight(r@[jj].0.0@, r@[jj].0.1)(all[i as int]) == 1);
                            } else {
                                assert(r@[jj] == before[jj]);
                                assert(!(r@[jj].0.0@ == entry.endpoint_url@ && r@[jj].0.1
                                    == entry.status_code));
                                assert(error_weight(r@[jj].0.0@, r@[jj].0.1)(all[i as int]) == 0);
                            }
                        }
                        assert forall|e: Seq<char>, sc: u16| #[trigger] count_of_error(next, e, sc)
                            > 0 implies exists|jj: int|
                            0 <= jj < r@.len() && r@[jj].0.0@ == e && r@[jj].0.1 == sc by {
                            lemma_seq_sum_push(prefix, error_weight(e, sc), all[i as int]);
                            if count_of_error(prefix, e, sc) > 0 {
                                let jj = choose|jj: int|
                                    0 <= jj < before.len() && before[jj].0.0@ == e
                                        && before[jj].0.1 == sc;
                                assert(r@[jj].0.0@ == e && r@[jj].0.1 == sc);
                            } else {
                                assert(error_weight(e, sc)(all[i as int]) == 1);
                                assert(r@[r@.len() - 1].0.0@ == e && r@[r@.len() - 1].0.1 == sc);
                            }
                        }
                    }
                },
            }
        } else {
            proof {
                assert forall|jj: int| 0 <= jj < r@.len() implies r@[jj].1 as int == count_of_error(
                    next,
                    #[trigger] r@[jj].0.0@,
                    r@[jj].0.1,
                ) && r@[jj].1 >= 1 && r@[jj].0.1 >= 400 by {
                    lemma_seq_sum_push(prefix, error_weight(r@[jj].0.0@, r@[jj].0.1), all[i as int]);
                    assert(error_weight(r@[jj].0.0@, r@[jj].0.1)(all[i as int]) == 0);
                }
                assert forall|e: Seq<char>, sc: u16| #[trigger] count_of_error(next, e, sc)
                    > 0 implies exists|jj: int|
                    0 <= jj < r@.len() && r@[jj].0.0@ == e && r@[jj].0.1 == sc by {
                    lemma_seq_sum_push(prefix, error_weight(e, sc), all[i as int]);
                    assert(error_weight(e, sc)(all[i as int]) == 0);
                    assert(count_of_error(prefix, e, sc) > 0);
                }
                assert(sum_of_counts(r@) == error_total(next));
            }
        }
        i += 1;
    }
    proof {
        assert(all.take(all.len() as int) =~= all);
    }
    r
}

/// Calculates the average response time of each endpoint that occurs in the
/// records, as the integer (floor) quotient of the endpoint's response-time
/// total by its number of records. The result is a map from endpoint to
/// average: keys pairwise distinct, an entry exactly for each endpoint that
/// occurs (so no division by zero can arise), each value the exact floor
/// average over all records for that endpoint, errors included.
pub fn calculate_avg_response_time(log_entries: &Vec<LogEntry>) -> (r: Vec<(String, u32)>)
    ensures
        forall|j1: int, j2: int| 0 <= j1 < j2 < r@.len() ==> r@[j1].0@ != r@[j2].0@,
        forall|j: int|
            0 <= j < r@.len() ==> r@[j].1 as int == time_total(log_entries@, #[trigger] r@[j].0@)
                / hit_count(log_entries@, r@[j].0@) && hit_count(log_entries@, r@[j].0@) >= 1,
        forall|e: Seq<char>|
            #[trigger] hit_count(log_entries@, e) > 0 ==> exists|j: int|
                0 <= j < r@.len() && r@[j].0@ == e,
{
    let ghost all = log_entries@;
    let mut acc: Vec<(String, u128, usize)> = Vec::new();
    let mut i: usize = 0;
    while i < log_entries.len()
        invariant
            0 <= i <= all.len(),
            all == log_entries@,
            forall|j1: int, j2: int| 0 <= j1 < j2 < acc@.len() ==> acc@[j1].0@ != acc@[j2].0@,
            forall|j: int|
                0 <= j < acc@.len() ==> acc@[j].1 as int == time_total(
                    all.take(i as int),
                    #[trigger] acc@[j].0@,
                ) && acc@[j].2 as int == hit_count(all.take(i as int), acc@[j].0@) && acc@[j].2
                    >= 1,
            forall|e: Seq<char>|
                #[trigger] hit_count(all.take(i as int), e) > 0 ==> exists|j: int|
                    0 <= j < acc@.len() && acc@[j].0@ == e,
        decreases all.len() - i,
    {
        let entry = &log_entries[i];
        let ghost prefix = all.take(i as int);
        let ghost next = all.take(i as int + 1);
        proof {
            assert(next =~= prefix.push(all[i as int]));
        }
        let mut found: Option<usize> = None;
        let mut j: usize = 0;
        while j < acc.len()
            invariant
                j <= acc@.len(),
                match found {
                    Some(m) => m < acc@.len() && acc@[m as int].0@ == entry.endpoint_url@,
                    None => forall|m: int| 0 <= m < j ==> acc@[m].0@ != entry.endpoint_url@,
                },
            decreases acc@.len() - j,
        {
            if acc[j].0 == entry.endpoint_url {
                found = Some(j);
            }
            j += 1;
        }
        match found {
            Some(m) => {
                proof {
                    lemma_time_total_bounds(prefix, acc@[m as int].0@);
                    lemma_hit_count_bound(prefix, acc@[m as int].0@);
                    assert(u32::MAX * (i as int) + u32::MAX == u32::MAX * (i as int + 1))
                        by (nonlinear_arith);
                    assert(u32::MAX * (i as int + 1) <= u32::MAX * (u64::MAX as int))
                        by (nonlinear_arith)
                        requires
                            i as int + 1 <= u64::MAX as int,
                    ;
                }
                let ghost before = acc@;
                let (k, t, h) = acc.remove(m);
                acc.insert(m, (k, t + entry.response_time_ms as u128, h + 1));
                proof {
                    assert(acc@ =~= before.update(
                        m as int,
                        (
                            before[m as int].0,
                            (t + entry.response_time_ms as u128) as u128,
                            (h + 1) as usize,
                        ),
                    ));
                    assert forall|jj: int| 0 <= jj < acc@.len() implies acc@[jj].1 as int
                        == time_total(next, #[trigger] acc@[jj].0@) && acc@[jj].2 as int
                        == hit_count(next, acc@[jj].0@) && acc@[jj].2 >= 1 by {
                        lemma_seq_sum_push(prefix, time_weight(acc@[jj].0@), all[i as int]);
                        lemma_seq_sum_push(prefix, hit_weight(acc@[jj].0@), all[i as int]);
                        if jj == m as int {
                            assert(acc@[jj].0@ == entry.endpoint_url@);
                            assert(time_weight(acc@[jj].0@)(all[i as int])
                                == entry.response_time_ms as int);
                            assert(hit_weight(acc@[jj].0@)(all[i as int]) == 1);
                        } else {
                            assert(acc@[jj].0@ == before[jj].0@);
                            assert(acc@[jj].0@ != before[m as int].0@);
                            assert(time_weight(acc@[jj].0@)(all[i as int]) == 0);
                            assert(hit_weight(acc@[jj].0@)(all[i as int]) == 0);
                        }
                    }
                    assert forall|e: Seq<char>| #[trigger] hit_count(next, e) > 0 implies exists|
                        jj: int,
                    | 0 <= jj < acc@.len() && acc@[jj].0@ == e by {
                        lemma_seq_sum_push(prefix, hit_weight(e), all[i as int]);
                        if hit_count(prefix, e) > 0 {
                            let jj = choose|jj: int| 0 <= jj < before.len() && before[jj].0@ == e;
                            assert(acc@[jj].0@ == e);
                        } else {
                            assert(hit_weight(e)(all[i as int]) == 1);
                            assert(acc@[m as int].0@ == e);
                        }
                    }
                }
            },
            None => {
                proof {
                    lemma_hit_count_bound(prefix, entry.endpoint_url@);
                    lemma_time_total_bounds(prefix, entry.endpoint_url@);
                }
                let ghost before = acc@;
                acc.push((entry.endpoint_url.clone(), entry.response_time_ms as u128, 1));
                proof {
                    assert(acc@ =~= before.push(acc@.last()));
                    assert(hit_count(prefix, entry.endpoint_url@) == 0);
                    assert(time_total(prefix, entry.endpoint_url@) == 0);
                    assert forall|jj: int| 0 <= jj < acc@.len() implies acc@[jj].1 as int
                        == time_total(next, #[trigger] acc@[jj].0@) && acc@[jj].2 as int
                        == hit_count(next, acc@[jj].0@) && acc@[jj].2 >= 1 by {
                        lemma_seq_sum_push(prefix, time_weight(acc@[jj].0@), all[i as int]);
                        lemma_seq_sum_push(prefix, hit_weight(acc@[jj].0@), all[i as int]);
                        if jj == acc@.len() - 1 {
                            assert(acc@[jj].0@ == entry.endpoint_url@);
                            assert(time_weight(acc@[jj].0@)(all[i as int])
                                == entry.response_time_ms as int);
                            assert(hit_weight(acc@[jj].0@)(all[i as int]) == 1);
                        } else {
                            assert(acc@[jj] == before[jj]);
                            assert(acc@[jj].0@ != entry.endpoint_url@);
                            assert(time_weight(acc@[jj].0@)(all[i as int]) == 0);
                            assert(hit_weight(acc@[jj].0@)(all[i as int]) == 0);
                        }
                    }
                    assert forall|e: Seq<char>| #[trigger] hit_count(next, e) > 0 implies exists|
                        jj: int,
                    | 0 <= jj < acc@.len() && acc@[jj].0@ == e by {
                        lemma_seq_sum_push(prefix, hit_weight(e), all[i as int]);
                        if hit_count(prefix, e) > 0 {
                            let jj = choose|jj: int| 0 <= jj < before.len() && before[jj].0@ == e;
                            assert(acc@[jj].0@ == e);
                        } else {
                            assert(hit_weight(e)(all[i as int]) == 1);
                            assert(acc@[acc@.len() - 1].0@ == e);
                        }
                    }
                }
            },
        }
        i += 1;
    }
    proof {
        assert(all.take(all.len() as int) =~= all);
    }
    let mut r: Vec<(String, u32)> = Vec::new();
    let mut j: usize = 0;
    while j < acc.len()
        invariant
            j <= acc@.len(),
            all == log_entries@,
            r@.len() == j,
            forall|j1: int, j2: int| 0 <= j1 < j2 < acc@.len() ==> acc@[j1].0@ != acc@[j2].0@,
            forall|m: int|
                0 <= m < acc@.len() ==> acc@[m].1 as int == time_total(all, #[trigger] acc@[m].0@)
                    && acc@[m].2 as int == hit_count(all, acc@[m].0@) && acc@[m].2 >= 1,
            forall|e: Seq<char>|
                #[trigger] hit_count(all, e) > 0 ==> exists|m: int|
                    0 <= m < acc@.len() && acc@[m].0@ == e,
            forall|m: int| 0 <= m < j ==> r@[m].0@ == acc@[m].0@,
            forall|m: int|
                0 <= m < j ==> r@[m].1 as int == time_total(all, #[trigger] r@[m].0@) / hit_count(
                    all,
                    r@[m].0@,
                ),
        decreases acc@.len() - j,
    {
        let h = acc[j].2;
        let t = acc[j].1;
        proof {
            lemma_time_total_bounds(all, acc@[j as int].0@);
            assert(t as int / (h as int) <= u32::MAX) by (nonlinear_arith)
                requires
                    h as int >= 1,
                    0 <= t as int,
                    t as int <= u32::MAX * (h as int),
            ;
        }
        let avg = t / (h as u128);
        r.push((acc[j].0.clone(), avg as u32));
        j += 1;
    }
    r
}

/// Each aggregate tally is a function of the multiset of records alone: two
/// record sequences that are permutations of one another yield the same
/// request-type count for every request type, the same error count for every
/// (endpoint, status code) pair, the same overall error count, and the same
/// response-time total and hit count (hence the same average response time)
/// for every endpoint.
pub proof fn lemma_aggregates_permutation_invariant(recs1: Seq<LogEntry>, recs2: Seq<LogEntry>)
    requires
        recs1.to_multiset() == recs2.to_multiset(),
    ensures
        forall|t: Seq<char>| #[trigger] count_of_type(recs1, t) == count_of_type(recs2, t),
        forall|e: Seq<char>, sc: u16| #[trigger] count_of_error(recs1, e, sc) == count_of_error(
            recs2,
            e,
            sc,
        ),
        error_total(recs1) == error_total(recs2),
        forall|e: Seq<char>| #[trigger] time_total(recs1, e) == time_total(recs2, e),
        forall|e: Seq<char>| #[trigger] hit_count(recs1, e) == hit_count(recs2, e),
{
    assert forall|t: Seq<char>| #[trigger] count_of_type(recs1, t) == count_of_type(
        recs2,
        t,
    ) by {
        lemma_seq_sum_permutation(recs1, recs2, type_weight(t));
    }
    assert forall|e: Seq<char>, sc: u16| #[trigger] count_of_error(recs1, e, sc)
        == count_of_error(recs2, e, sc) by {
        lemma_seq_sum_permutation(recs1, recs2, error_weight(e, sc));
    }
    lemma_seq_sum_permutation(recs1, recs2, error_flag());
    assert forall|e: Seq<char>| #[trigger] time_total(recs1, e) == time_total(recs2, e) by {
        lemma_seq_sum_permutation(recs1, recs2, time_weight(e));
    }
    assert forall|e: Seq<char>| #[trigger] hit_count(recs1, e) == hit_count(recs2, e) by {
        lemma_seq_sum_permutation(recs1, recs2, hit_weight(e));
    }
}

} // verus!
