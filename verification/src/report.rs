//! Report rendering: the three aggregate maps written out as one plain-text
//! or one CSV report, three sections in fixed order. Writing the rendered
//! text anywhere is the caller's business; the rendering itself is exact,
//! character for character.

use vstd::prelude::*;
use vstd::string::*;

verus! {

/// The digit character for the value `d`.
pub open spec fn digit_char(d: int) -> char {
    ((48 + d) as u8) as char
}

/// The base-ten writing of `n`, most significant digit first, without sign
/// or padding; `0` is written as one digit.
pub open spec fn dec_digits(n: int) -> Seq<char>
    recommends
        n >= 0,
    decreases n,
{
    if n < 10 {
        seq![digit_char(n)]
    } else {
        dec_digits(n / 10).push(digit_char(n % 10))
    }
}

fn digit_str(d: u64) -> (s: &'static str)
    requires
        d < 10,
    ensures
        s@ == seq![digit_char(d as int)],
{
    proof {
        reveal_strlit("0");
        reveal_strlit("1");
        reveal_strlit("2");
        reveal_strlit("3");
        reveal_strlit("4");
        reveal_strlit("5");
        reveal_strlit("6");
        reveal_strlit("7");
        reveal_strlit("8");
        reveal_strlit("9");
    }
    if d == 0 {
        proof {
            assert("0"@ =~= seq![digit_char(0)]);
        }
        "0"
    } else if d == 1 {
        proof {
            assert("1"@ =~= seq![digit_char(1)]);
        }
        "1"
    } else if d == 2 {
        proof {
            assert("2"@ =~= seq![digit_char(2)]);
        }
        "2"
    } else if d == 3 {
        proof {
            assert("3"@ =~= seq![digit_char(3)]);
        }
        "3"
    } else if d == 4 {
        proof {
            assert("4"@ =~= seq![digit_char(4)]);
        }
        "4"
    } else if d == 5 {
        proof {
            assert("5"@ =~= seq![digit_char(5)]);
        }
        "5"
    } else if d == 6 {
        proof {
            assert("6"@ =~= seq![digit_char(6)]);
        }
        "6"
    } else if d == 7 {
        proof {
            assert("7"@ =~= seq![digit_char(7)]);
        }
        "7"
    } else if d == 8 {
        proof {
            assert("8"@ =~= seq![digit_char(8)]);
        }
        "8"
    } else {
        proof {
            assert("9"@ =~= seq![digit_char(9)]);
        }
        "9"
    }
}

/// Writes `n` in base ten, exactly the digits that `dec_digits` names.
pub fn dec_str(n: u64) -> (s: String)
    ensures
        s@ == dec_digits(n as int),
    decreases n,
{
    if n < 10 {
        digit_str(n).to_owned()
    } else {
        let mut s = dec_str(n / 10);
        s.append(digit_str(n % 10));
        proof {
            assert(dec_digits((n / 10) as int) + seq![digit_char((n % 10) as int)] =~= dec_digits(
                (n / 10) as int,
            ).push(digit_char((n % 10) as int)));
        }
        s
    }
}

/// One line of the plain-text request summary: `TYPE: COUNT`.
pub open spec fn plain_count_line(p: (String, usize)) -> Seq<char> {
    p.0@ + ": "@ + dec_digits(p.1 as int) + "\n"@
}

pub open spec fn plain_counts_section(v: Seq<(String, usize)>) -> Seq<char>
    decreases v.len(),
{
    if v.len() == 0 {
        Seq::empty()
    } else {
        plain_counts_section(v.drop_last()) + plain_count_line(v.last())
    }
}

/// One line of the plain-text error analysis:
/// `Endpoint: E, Status Code: S: COUNT`.
pub open spec fn plain_error_line(p: ((String, u16), usize)) -> Seq<char> {
    "Endpoint: "@ + p.0.0@ + ", Status Code: "@ + dec_digits(p.0.1 as int) + ": "@ + dec_digits(
        p.1 as int,
    ) + "\n"@
}

pub open spec fn plain_errors_section(v: Seq<((String, u16), usize)>) -> Seq<char>
    decreases v.len(),
{
    if v.len() == 0 {
        Seq::empty()
    } else {
        plain_errors_section(v.drop_last()) + plain_error_line(v.last())
    }
}

/// One line of the plain-text performance metrics:
/// `Endpoint: E, Avg. Response Time: N ms`.
pub open spec fn plain_avg_line(p: (String, u32)) -> Seq<char> {
    "Endpoint: "@ + p.0@ + ", Avg. Response Time: "@ + dec_digits(p.1 as int) + " ms\n"@
}

pub open spec fn plain_avgs_section(v: Seq<(String, u32)>) -> Seq<char>
    decreases v.len(),
{
    if v.len() == 0 {
        Seq::empty()
    } else {
        plain_avgs_section(v.drop_last()) + plain_avg_line(v.last())
    }
}

/// The whole plain-text report: the three sections in fixed order, each
/// under its header, with a blank line before the second and third headers.
pub open spec fn plain_report(
    counts: Seq<(String, usize)>,
    errors: Seq<((String, u16), usize)>,
    avgs: Seq<(String, u32)>,
) -> Seq<char> {
    "Request Summary:\n"@ + plain_counts_section(counts) + "\nError Analysis:\n"@
        + plain_errors_section(errors) + "\nPerformance Metrics:\n"@ + plain_avgs_section(avgs)
}

/// Renders the three aggregate maps as the plain-text report, character for
/// character as `plain_report` names it, entries in the maps' own order.
pub fn render_plain(
    counts: &Vec<(String, usize)>,
    errors: &Vec<((String, u16), usize)>,
    avgs: &Vec<(String, u32)>,
) -> (out: String)
    ensures
        out@ == plain_report(counts@, errors@, avgs@),
{
    let mut out = String::new();
    out.append("Request Summary:\n");
    let mut i: usize = 0;
    while i < counts.len()
        invariant
            i <= counts@.len(),
            out@ == "Request Summary:\n"@ + plain_counts_section(counts@.take(i as int)),
        decreases counts@.len() - i,
    {
        let ghost prev = out@;
        out.append(counts[i].0.as_str());
        out.append(": ");
        out.append(dec_str(counts[i].1 as u64).as_str());
        out.append("\n");
        proof {
            assert(counts@.take(i as int + 1).drop_last() =~= counts@.take(i as int));
            assert(out@ =~= "Request Summary:\n"@ + plain_counts_section(
                counts@.take(i as int + 1),
            ));
        }
        i += 1;
    }
    proof {
        assert(counts@.take(counts@.len() as int) =~= counts@);
    }
    let ghost head1 = out@;
    out.append("\nError Analysis:\n");
    let mut i: usize = 0;
    while i < errors.len()
        invariant
            i <= errors@.len(),
            out@ == head1 + "\nError Analysis:\n"@ + plain_errors_section(errors@.take(i as int)),
            head1 == "Request Summary:\n"@ + plain_counts_section(counts@),
        decreases errors@.len() - i,
    {
        out.append("Endpoint: ");
        out.append(errors[i].0.0.as_str());
        out.append(", Status Code: ");
        out.append(dec_str(errors[i].0.1 as u64).as_str());
        out.append(": ");
        out.append(dec_str(errors[i].1 as u64).as_str());
        out.append("\n");
        proof {
            assert(errors@.take(i as int + 1).drop_last() =~= errors@.take(i as int));
            assert(out@ =~= head1 + "\nError Analysis:\n"@ + plain_errors_section(
                errors@.take(i as int + 1),
            ));
        }
        i += 1;
    }
    proof {
        assert(errors@.take(errors@.len() as int) =~= errors@);
    }
    let ghost head2 = out@;
    out.append("\nPerformance Metrics:\n");
    let mut i: usize = 0;
    while i < avgs.len()
        invariant
            i <= avgs@.len(),
            out@ == head2 + "\nPerformance Metrics:\n"@ + plain_avgs_section(avgs@.take(i as int)),
            head2 == "Request Summary:\n"@ + plain_counts_section(counts@) + "\nError Analysis:\n"@
                + plain_errors_section(errors@),
        decreases avgs@.len() - i,
    {
        out.append("Endpoint: ");
        out.append(avgs[i].0.as_str());
        out.append(", Avg. Response Time: ");
        out.append(dec_str(avgs[i].1 as u64).as_str());
        out.append(" ms\n");
        proof {
            assert(avgs@.take(i as int + 1).drop_last() =~= avgs@.take(i as int));
            assert(out@ =~= head2 + "\nPerformance Metrics:\n"@ + plain_avgs_section(
                avgs@.take(i as int + 1),
            ));
        }
        i += 1;
    }
    proof {
        assert(avgs@.take(avgs@.len() as int) =~= avgs@);
        assert(out@ =~= plain_report(counts@, errors@, avgs@));
    }
    out
}

/// One data row of the CSV request summary: `TYPE,COUNT`.
pub open spec fn csv_count_line(p: (String, usize)) -> Seq<char> {
    p.0@ + ","@ + dec_digits(p.1 as int) + "\n"@
}

pub open spec fn csv_counts_section(v: Seq<(String, usize)>) -> Seq<char>
    decreases v.len(),
{
    if v.len() == 0 {
        Seq::empty()
    } else {
        csv_counts_section(v.drop_last()) + csv_count_line(v.last())
    }
}

/// One data row of the CSV error analysis: `E,S,COUNT`.
pub open spec fn csv_error_line(p: ((String, u16), usize)) -> Seq<char> {
    p.0.0@ + ","@ + dec_digits(p.0.1 as int) + ","@ + dec_digits(p.1 as int) + "\n"@
}

pub open spec fn csv_errors_section(v: Seq<((String, u16), usize)>) -> Seq<char>
    decreases v.len(),
{
    if v.len() == 0 {
        Seq::empty()
    } else {
        csv_errors_section(v.drop_last()) + csv_error_line(v.last())
    }
}

/// One data row of the CSV performance metrics: `E,N`.
pub open spec fn csv_avg_line(p: (String, u32)) -> Seq<char> {
    p.0@ + ","@ + dec_digits(p.1 as int) + "\n"@
}

pub open spec fn csv_avgs_section(v: Seq<(String, u32)>) -> Seq<char>
    decreases v.len(),
{
    if v.len() == 0 {
        Seq::empty()
    } else {
        csv_avgs_section(v.drop_last()) + csv_avg_line(v.last())
    }
}

/// The whole CSV report: the same three sections and ordering as the plain
/// report, headers without colons, data rows comma-separated, a blank line
/// before the second and third headers.
pub open spec fn csv_report(
    counts: Seq<(String, usize)>,
    errors: Seq<((String, u16), usize)>,
    avgs: Seq<(String, u32)>,
) -> Seq<char> {
    "Request Summary\n"@ + csv_counts_section(counts) + "\nError Analysis\n"@ + csv_errors_section(
        errors,
    ) + "\nPerformance Metrics\n"@ + csv_avgs_section(avgs)
}

/// Renders the three aggregate maps as the CSV report, character for
/// character as `csv_report` names it, entries in the maps' own order.
pub fn render_csv(
    counts: &Vec<(String, usize)>,
    errors: &Vec<((String, u16), usize)>,
    avgs: &Vec<(String, u32)>,
) -> (out: String)
    ensures
        out@ == csv_report(counts@, errors@, avgs@),
{
    let mut out = String::new();
    out.append("Request Summary\n");
    let mut i: usize = 0;
    while i < counts.len()
        invariant
            i <= counts@.len(),
            out@ == "Request Summary\n"@ + csv_counts_section(counts@.take(i as int)),
        decreases counts@.len() - i,
    {
        out.append(counts[i].0.as_str());
        out.append(",");
        out.append(dec_str(counts[i].1 as u64).as_str());
        out.append("\n");
        proof {
            assert(counts@.take(i as int + 1).drop_last() =~= counts@.take(i as int));
            assert(out@ =~= "Request Summary\n"@ + csv_counts_section(counts@.take(i as int + 1)));
        }
        i += 1;
    }
    proof {
        assert(counts@.take(counts@.len() as int) =~= counts@);
    }
    let ghost head1 = out@;
    out.append("\nError Analysis\n");
    let mut i: usize = 0;
    while i < errors.len()
        invariant
            i <= errors@.len(),
            out@ == head1 + "\nError Analysis\n"@ + csv_errors_section(errors@.take(i as int)),
            head1 == "Request Summary\n"@ + csv_counts_section(counts@),
        decreases errors@.len() - i,
    {
        out.append(errors[i].0.0.as_str());
        out.append(",");
        out.append(dec_str(errors[i].0.1 as u64).as_str());
        out.append(",");
        out.append(dec_str(errors[i].1 as u64).as_str());
        out.append("\n");
        proof {
            assert(errors@.take(i as int + 1).drop_last() =~= errors@.take(i as int));
            assert(out@ =~= head1 + "\nError Analysis\n"@ + csv_errors_section(
                errors@.take(i as int + 1),
            ));
        }
        i += 1;
    }
    proof {
        assert(errors@.take(errors@.len() as int) =~= errors@);
    }
    let ghost head2 = out@;
    out.append("\nPerformance Metrics\n");
    let mut i: usize = 0;
    while i < avgs.len()
        invariant
            i <= avgs@.len(),
            out@ == head2 + "\nPerformance Metrics\n"@ + csv_avgs_section(avgs@.take(i as int)),
            head2 == "Request Summary\n"@ + csv_counts_section(counts@) + "\nError Analysis\n"@
                + csv_errors_section(errors@),
        decreases avgs@.len() - i,
    {
        out.append(avgs[i].0.as_str());
        out.append(",");
        out.append(dec_str(avgs[i].1 as u64).as_str());
        out.append("\n");
        proof {
            assert(avgs@.take(i as int + 1).drop_last() =~= avgs@.take(i as int));
            assert(out@ =~= head2 + "\nPerformance Metrics\n"@ + csv_avgs_section(
                avgs@.take(i as int + 1),
            ));
        }
        i += 1;
    }
    proof {
        assert(avgs@.take(avgs@.len() as int) =~= avgs@);
        assert(out@ =~= csv_report(counts@, errors@, avgs@));
    }
    out
}

} // verus!
