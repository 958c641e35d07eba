//! The record-loading pipeline: consumes the ordered outcome of a line
//! source, parses each line, keeps the records of the lines that parse in
//! input order, skips the lines that do not, and aborts with `IoFailure` the
//! moment the source itself failed — all-or-nothing at the read level,
//! per-line tolerance at the parse level.

use vstd::prelude::*;

use crate::log_entry::LogEntry;
use crate::log_parser::{line_parses, numeric_token_value, parse_log_line, tokens_of};

verus! {

/// One outcome of asking the line source for the next line: a line, or the
/// source's own failure to produce one (an I/O-level failure, not a parse
/// failure).
pub enum LineEvent {
    Line(String),
    Failed,
}

/// The pipeline-level failure: the line source could not be read through.
/// Fatal for the run; no partial record collection survives it.
#[derive(Debug, PartialEq, Eq, Structural)]
pub struct IoFailure;

/// The text of a line event; meaningful for `Line` events only.
pub open spec fn event_line(e: LineEvent) -> Seq<char> {
    e->Line_0@
}

/// The texts of a sequence of line events.
pub open spec fn event_lines(es: Seq<LineEvent>) -> Seq<Seq<char>> {
    es.map_values(|e: LineEvent| event_line(e))
}

/// Whether a line yields a record, as a value, for filtering.
pub open spec fn parseable() -> spec_fn(Seq<char>) -> bool {
    |l: Seq<char>| line_parses(l)
}

/// The lines that yield records, in input order.
pub open spec fn kept_lines(lines: Seq<Seq<char>>) -> Seq<Seq<char>> {
    lines.filter(parseable())
}

/// Whether `rec` is the record that line `l` parses to.
pub open spec fn record_matches_line(rec: LogEntry, l: Seq<char>) -> bool {
    &&& rec.request_type@ == tokens_of(l)[2]
    &&& rec.endpoint_url@ == tokens_of(l)[3]
    &&& rec.status_code as int == numeric_token_value(tokens_of(l)[4], u16::MAX as int)
    &&& rec.response_time_ms as int == numeric_token_value(tokens_of(l)[5], u32::MAX as int)
}

proof fn lemma_filter_push<A>(s: Seq<A>, pred: spec_fn(A) -> bool, a: A)
    ensures
        s.push(a).filter(pred) == if pred(a) {
            s.filter(pred).push(a)
        } else {
            s.filter(pred)
        },
{
    assert(s.push(a).drop_last() =~= s);
    assert(s.push(a).last() == a);
    reveal_with_fuel(Seq::filter, 1);
}

/// Loads the record collection from the materialized outcomes of a line
/// source. The result is `Err(IoFailure)` exactly when the source failed
/// somewhere; otherwise it is, in input order, one record per line that
/// parses, each record exactly what its line parses to — lines that do not
/// parse are skipped, and an empty source yields an empty collection.
pub fn load_records(events: &Vec<LineEvent>) -> (r: Result<Vec<LogEntry>, IoFailure>)
    ensures
        (r is Err) <==> (exists|i: int| 0 <= i < events@.len() && !(events@[i] is Line)),
        r matches Ok(recs) ==> {
            let kept = kept_lines(event_lines(events@));
            recs@.len() == kept.len() && (forall|j: int|
                0 <= j < recs@.len() ==> record_matches_line(#[trigger] recs@[j], kept[j]))
        },
{
    let ghost all = events@;
    let mut recs: Vec<LogEntry> = Vec::new();
    let mut i: usize = 0;
    proof {
        assert(event_lines(all.take(0)) =~= Seq::<Seq<char>>::empty());
        reveal_with_fuel(Seq::filter, 1);
        assert(kept_lines(event_lines(all.take(0))) =~= Seq::<Seq<char>>::empty());
    }
    while i < events.len()
        invariant
            i <= all.len(),
            all == events@,
            forall|m: int| 0 <= m < i ==> (all[m] is Line),
            recs@.len() == kept_lines(event_lines(all.take(i as int))).len(),
            forall|j: int|
                0 <= j < recs@.len() ==> record_matches_line(
                    #[trigger] recs@[j],
                    kept_lines(event_lines(all.take(i as int)))[j],
                ),
        decreases all.len() - i,
    {
        let ghost kept = kept_lines(event_lines(all.take(i as int)));
        match &events[i] {
            LineEvent::Line(s) => {
                proof {
                    assert(event_lines(all.take(i as int + 1)) =~= event_lines(
                        all.take(i as int),
                    ).push(event_line(all[i as int])));
                    lemma_filter_push(
                        event_lines(all.take(i as int)),
                        parseable(),
                        event_line(all[i as int]),
                    );
                }
                match parse_log_line(s.as_str()) {
                    Ok(rec) => {
                        recs.push(rec);
                        proof {
                            assert(kept_lines(event_lines(all.take(i as int + 1))) =~= kept.push(
                                s@,
                            ));
                        }
                    },
                    Err(_) => {
                        proof {
                            assert(kept_lines(event_lines(all.take(i as int + 1))) =~= kept);
                        }
                    },
                }
            },
            LineEvent::Failed => {
                return Err(IoFailure);
            },
        }
        i += 1;
    }
    proof {
        assert(all.take(all.len() as int) =~= all);
    }
    Ok(recs)
}

} // verus!
