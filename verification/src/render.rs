//! Rendering: report lines and the statistics summary as text.
//!
//! A score in thousandths renders as a percentage with one decimal digit:
//! 900 renders as `90.0%`, 505 as `50.5%`. A report line is
//! `<marker> `` `<name>` `` - <percent>` followed by a line break.

use vstd::prelude::*;
use vstd::string::StringExecFns;

use crate::classify::AttributeResult;
use crate::report::Report;
use crate::stats::Stats;

verus! {

/// The decimal digit character for `d`.
pub open spec fn dec_digit(d: int) -> char {
    if d == 0 {
        '0'
    } else if d == 1 {
        '1'
    } else if d == 2 {
        '2'
    } else if d == 3 {
        '3'
    } else if d == 4 {
        '4'
    } else if d == 5 {
        '5'
    } else if d == 6 {
        '6'
    } else if d == 7 {
        '7'
    } else if d == 8 {
        '8'
    } else {
        '9'
    }
}

/// The decimal digits of `n`, most significant first.
pub open spec fn dec_str(n: int) -> Seq<char>
    recommends
        n >= 0,
    decreases n,
{
    if n < 10 {
        seq![dec_digit(n)]
    } else {
        dec_str(n / 10).push(dec_digit(n % 10))
    }
}

/// A score in thousandths as a percentage with one decimal digit.
pub open spec fn percent_str(score: int) -> Seq<char>
    recommends
        score >= 0,
{
    dec_str(score / 10) + "."@ + seq![dec_digit(score % 10)] + "%"@
}

/// One report line for an attribute.
pub open spec fn line_str(marker: Seq<char>, name: Seq<char>, score: int) -> Seq<char> {
    marker + " `"@ + name + "` - "@ + percent_str(score) + "\n"@
}

/// The statistics summary block.
pub open spec fn stats_str(st: Stats) -> Seq<char> {
    "Min: "@ + percent_str(st.min as int) + "\nMax: "@ + percent_str(st.max as int) + "\nAvg: "@
        + percent_str(st.mean as int)
}

fn push_digit(out: &mut String, d: u32)
    requires
        d < 10,
    ensures
        final(out)@ == old(out)@.push(dec_digit(d as int)),
{
    if d == 0 {
        proof {
            reveal_strlit("0");
        }
        out.append("0");
    } else if d == 1 {
        proof {
            reveal_strlit("1");
        }
        out.append("1");
    } else if d == 2 {
        proof {
            reveal_strlit("2");
        }
        out.append("2");
    } else if d == 3 {
        proof {
            reveal_strlit("3");
        }
        out.append("3");
    } else if d == 4 {
        proof {
            reveal_strlit("4");
        }
        out.append("4");
    } else if d == 5 {
        proof {
            reveal_strlit("5");
        }
        out.append("5");
    } else if d == 6 {
        proof {
            reveal_strlit("6");
        }
        out.append("6");
    } else if d == 7 {
        proof {
            reveal_strlit("7");
        }
        out.append("7");
    } else if d == 8 {
        proof {
            reveal_strlit("8");
        }
        out.append("8");
    } else {
        proof {
            reveal_strlit("9");
        }
        out.append("9");
    }
    proof {
        assert(out@ =~= old(out)@.push(dec_digit(d as int)));
    }
}

/// Appends the decimal digits of `n`.
pub fn push_u32(out: &mut String, n: u32)
    ensures
        final(out)@ == old(out)@ + dec_str(n as int),
    decreases n,
{
    if n < 10 {
        push_digit(out, n);
        proof {
            assert(old(out)@.push(dec_digit(n as int)) =~= old(out)@ + dec_str(n as int));
        }
    } else {
        push_u32(out, n / 10);
        push_digit(out, n % 10);
        proof {
            assert((old(out)@ + dec_str(n as int / 10)).push(dec_digit(n as int % 10)) =~= old(
                out,
            )@ + dec_str(n as int));
        }
    }
}

/// Appends a score in thousandths as a percentage with one decimal digit.
pub fn push_percent(out: &mut String, score: u32)
    ensures
        final(out)@ == old(out)@ + percent_str(score as int),
{
    push_u32(out, score / 10);
    out.append(".");
    push_digit(out, score % 10);
    out.append("%");
    proof {
        assert(out@ =~= old(out)@ + percent_str(score as int));
    }
}

/// Renders one report line.
pub fn render_line(e: &AttributeResult) -> (r: String)
    ensures
        r@ == line_str(e.marker@, e.name@, e.score as int),
{
    let mut out = String::new();
    out.append(e.marker.as_str());
    out.append(" `");
    out.append(e.name.as_str());
    out.append("` - ");
    push_percent(&mut out, e.score);
    out.append("\n");
    proof {
        assert(out@ =~= line_str(e.marker@, e.name@, e.score as int));
    }
    out
}

/// Renders the report's entries in order, one line per entry.
pub fn render_lines(rep: &Report) -> (r: Vec<String>)
    ensures
        r@.len() == rep.entries@.len(),
        forall|k: int|
            0 <= k < r@.len() ==> (#[trigger] r@[k])@ == line_str(
                rep.entries@[k].marker@,
                rep.entries@[k].name@,
                rep.entries@[k].score as int,
            ),
{
    let mut out: Vec<String> = Vec::new();
    let n = rep.entries.len();
    let mut i: usize = 0;
    while i < n
        invariant
            n == rep.entries@.len(),
            i <= n,
            out@.len() == i,
            forall|k: int|
                0 <= k < i ==> (#[trigger] out@[k])@ == line_str(
                    rep.entries@[k].marker@,
                    rep.entries@[k].name@,
                    rep.entries@[k].score as int,
                ),
        decreases n - i,
    {
        let line = render_line(&rep.entries[i]);
        out.push(line);
        i = i + 1;
    }
    out
}

/// Renders the statistics summary.
pub fn render_stats(st: &Stats) -> (r: String)
    ensures
        r@ == stats_str(*st),
{
    let mut out = String::new();
    out.append("Min: ");
    push_percent(&mut out, st.min);
    out.append("\nMax: ");
    push_percent(&mut out, st.max);
    out.append("\nAvg: ");
    push_percent(&mut out, st.mean);
    proof {
        assert(out@ =~= stats_str(*st));
    }
    out
}

} // verus!
