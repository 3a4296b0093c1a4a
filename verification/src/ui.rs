//! Layout arithmetic and text of the terminal view: where axis ticks land, the x-axis
//! label line, and the sample count under the header.

use vstd::prelude::*;
use crate::app::{Range, range_secs};
use crate::chart::{fmt_ago, ago_view};
use crate::text::{decimal, decimal_view};

verus! {

/// Steps between `count` ticks spread over a span (at least one).
pub open spec fn tick_steps(count: int) -> int {
    if count < 2 { 1 } else { count - 1 }
}

/// Rows below the top of the area at which tick `i` of `count` sits, rounded to nearest.
pub open spec fn tick_offset(height: int, i: int, count: int) -> int {
    ((height - 1) * i + tick_steps(count) / 2) / tick_steps(count)
}

/// Row for tick `i` of `count`, counting down from the top of an area at row `y` that is
/// `height` rows tall.
///
/// Rounded, not truncated: the canvas rounds when it maps a value to a dot row, so a
/// truncating tick puts the midpoint label a row above the height it labels whenever the
/// plot is an even number of rows tall.
pub fn tick_row(y: u16, height: u16, i: usize, count: usize) -> (r: Option<u16>)
    requires
        count <= u32::MAX,
        height > 0 ==> (height - 1) * i + tick_steps(count as int) / 2 <= u32::MAX,
        height > 0 ==> y + tick_offset(height as int, i as int, count as int) <= u16::MAX,
    ensures
        r == if height == 0 {
            None
        } else {
            Some((y + tick_offset(height as int, i as int, count as int)) as u16)
        },
{
    if height == 0 {
        return None;
    }
    let span = (height - 1) as u32;
    let steps: u32 = if count < 2 { 1 } else { (count - 1) as u32 };
    assert(span * (i as u32) == (height - 1) * i) by (nonlinear_arith)
        requires
            span == height - 1,
            (height - 1) * i <= u32::MAX,
    ;
    let offset = (span * (i as u32) + steps / 2) / steps;
    Some(y + offset as u16)
}

/// Spaces.
fn spaces(n: usize) -> (r: String)
    ensures
        r@ == Seq::new(n as nat, |q: int| ' '),
{
    let mut r = String::new();
    let mut k: usize = 0;
    while k < n
        invariant
            k <= n,
            r@ == Seq::new(k as nat, |q: int| ' '),
        decreases n - k,
    {
        r.append(" ");
        proof {
            reveal_strlit(" ");
        }
        k = k + 1;
        assert(r@ =~= Seq::new(k as nat, |q: int| ' '));
    }
    r
}

/// The x-axis tick line: the range's start, its midpoint and `now`, spread across
/// `width` columns. `None` when the three labels do not fit.
pub open spec fn x_axis_view(range: Range, width: int) -> Option<Seq<char>> {
    let start = ago_view(range_secs(range) as nat);
    let mid = ago_view((range_secs(range) / 2) as nat);
    let end = ago_view(0);
    let used = start.len() + mid.len() + end.len();
    if width <= used {
        None
    } else {
        let before = (width - used) / 2;
        let after = width - used - before;
        Some(start + Seq::new(before as nat, |q: int| ' ') + mid + Seq::new(after as nat, |q: int| ' ') + end)
    }
}

pub fn x_axis_line(range: Range, width: usize) -> (r: Option<String>)
    ensures
        r matches Some(line) ==> x_axis_view(range, width as int) == Some(line@),
        r is None ==> x_axis_view(range, width as int) is None,
{
    let secs = range.secs();
    let start = fmt_ago(secs);
    let mid = fmt_ago(secs / 2);
    let end = fmt_ago(0);
    let used = start.as_str().unicode_len() as u128 + mid.as_str().unicode_len() as u128
        + end.as_str().unicode_len() as u128;
    if width as u128 <= used {
        return None;
    }
    let used = used as usize;
    let before = (width - used) / 2;
    let after = width - used - before;
    let mut line = start;
    line.append(spaces(before).as_str());
    line.append(mid.as_str());
    line.append(spaces(after).as_str());
    line.append(end.as_str());
    Some(line)
}

/// The note under the header: how many discharging readings the statistics rest on.
pub open spec fn sample_count_view(n: Option<usize>) -> Seq<char> {
    match n {
        Some(n) => "("@ + decimal_view(n as nat) + " discharging samples)"@,
        None => "(no discharging samples in range)"@,
    }
}

pub fn sample_count(n: Option<usize>) -> (r: String)
    ensures
        r@ == sample_count_view(n),
{
    match n {
        Some(n) => {
            let mut r = String::from_str("(");
            r.append(decimal(n as u64).as_str());
            r.append(" discharging samples)");
            r
        },
        None => String::from_str("(no discharging samples in range)"),
    }
}

/// What an empty chart says instead: that the machine is on AC, else why backfill failed,
/// else that the range holds no samples.
pub fn empty_chart_message(on_ac: bool, notice: Option<&str>) -> (m: String)
    ensures
        m@ == if on_ac {
            "on AC — charting resumes on battery"@
        } else {
            match notice {
                Some(n) => n@,
                None => "no samples in this range"@,
            }
        },
{
    if on_ac {
        String::from_str("on AC — charting resumes on battery")
    } else {
        match notice {
            Some(n) => String::from_str(n),
            None => String::from_str("no samples in this range"),
        }
    }
}

} // verus!
