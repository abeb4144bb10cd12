//! Throughput, percentage and ETA arithmetic for the polling loop's
//! progress reports, and the rendering of durations and progress lines.

use vstd::prelude::*;
use crate::hexfmt::{dec_digits_fixed, dec_str, dec_string_fixed, dec_string_u128, hex_char};

verus! {

/// A report is due every two seconds, or as soon as progress has advanced
/// by at least one percent of the theoretical total.
pub fn should_report(ms_since_last: u64, processed: u128, last_reported: u128, total: u128) -> (r:
    bool)
    requires
        processed >= last_reported,
    ensures
        r == (ms_since_last > 2000 || processed - last_reported > total / 100),
{
    ms_since_last > 2000 || processed - last_reported > total / 100
}

/// Progress as a share of the total, scaled so that one unit is a
/// hundred-thousandth of a percent; `None` only where the scaled product no
/// longer fits the counter's width.
pub fn percent_e5(processed: u128, total: u128) -> (r: Option<u128>)
    requires
        total > 0,
    ensures
        match r {
            Some(v) => processed * 10000000 <= u128::MAX && v == processed * 10000000 / (total as int),
            None => processed * 10000000 > u128::MAX,
        },
{
    if processed > u128::MAX / 10000000 {
        proof {
            assert(processed * 10000000 > u128::MAX) by (nonlinear_arith)
                requires
                    processed > u128::MAX / 10000000;
        }
        None
    } else {
        proof {
            assert(processed * 10000000 <= u128::MAX) by (nonlinear_arith)
                requires
                    processed <= u128::MAX / 10000000;
        }
        Some(processed * 10000000 / total)
    }
}

/// Instantaneous throughput in candidates per second; `None` where no time
/// has passed or the scaled product no longer fits.
pub fn keys_per_second(processed: u128, elapsed_ms: u64) -> (r: Option<u128>)
    ensures
        match r {
            Some(v) => elapsed_ms > 0 && processed * 1000 <= u128::MAX && v == processed * 1000
                / (elapsed_ms as int),
            None => elapsed_ms == 0 || processed * 1000 > u128::MAX,
        },
{
    if elapsed_ms == 0 {
        return None;
    }
    if processed > u128::MAX / 1000 {
        proof {
            assert(processed * 1000 > u128::MAX) by (nonlinear_arith)
                requires
                    processed > u128::MAX / 1000;
        }
        None
    } else {
        proof {
            assert(processed * 1000 <= u128::MAX) by (nonlinear_arith)
                requires
                    processed <= u128::MAX / 1000;
        }
        Some(processed * 1000 / (elapsed_ms as u128))
    }
}

/// Remaining time in tenths of seconds, zero where the rate is zero;
/// `None` only where the scaled product no longer fits.
pub fn eta_tenths(remaining: u128, rate: u128) -> (r: Option<u128>)
    ensures
        match r {
            Some(v) => (rate == 0 && v == 0) || (rate > 0 && remaining * 10 <= u128::MAX && v
                == remaining * 10 / (rate as int)),
            None => rate > 0 && remaining * 10 > u128::MAX,
        },
{
    if rate == 0 {
        return Some(0);
    }
    if remaining > u128::MAX / 10 {
        proof {
            assert(remaining * 10 > u128::MAX) by (nonlinear_arith)
                requires
                    remaining > u128::MAX / 10;
        }
        None
    } else {
        proof {
            assert(remaining * 10 <= u128::MAX) by (nonlinear_arith)
                requires
                    remaining <= u128::MAX / 10;
        }
        Some(remaining * 10 / rate)
    }
}

/// A duration in tenths of seconds, scaled to tenths of its display unit:
/// seconds under a minute, then minutes, hours, days, months (30 days) and
/// years (365 days).
pub open spec fn duration_scaled(t: nat) -> nat {
    if t < 600 {
        t
    } else if t < 36000 {
        t / 60
    } else if t < 864000 {
        t / 3600
    } else if t < 25920000 {
        t / 86400
    } else if t < 315360000 {
        t / 2592000
    } else {
        t / 31536000
    }
}

/// The display unit's label for a duration in tenths of seconds.
pub open spec fn duration_label(t: nat) -> Seq<char> {
    if t < 600 {
        (" s")@
    } else if t < 36000 {
        (" min")@
    } else if t < 864000 {
        (" h")@
    } else if t < 25920000 {
        (" d")@
    } else if t < 315360000 {
        (" mo")@
    } else {
        (" y")@
    }
}

/// A duration rendered in its largest sensible unit with one decimal place.
pub open spec fn duration_spec(t: nat) -> Seq<char> {
    dec_str(duration_scaled(t) / 10) + (".")@ + seq![hex_char((duration_scaled(t) % 10) as int)]
        + duration_label(t)
}

/// Renders a duration given in tenths of seconds, one decimal place, in the
/// largest sensible unit.
pub fn format_duration(tenths: u64) -> (r: String)
    ensures
        r@ == duration_spec(tenths as nat),
{
    let scaled: u64 = if tenths < 600 {
        tenths
    } else if tenths < 36000 {
        tenths / 60
    } else if tenths < 864000 {
        tenths / 3600
    } else if tenths < 25920000 {
        tenths / 86400
    } else if tenths < 315360000 {
        tenths / 2592000
    } else {
        tenths / 31536000
    };
    let label: &str = if tenths < 600 {
        " s"
    } else if tenths < 36000 {
        " min"
    } else if tenths < 864000 {
        " h"
    } else if tenths < 25920000 {
        " d"
    } else if tenths < 315360000 {
        " mo"
    } else {
        " y"
    };
    let mut s = dec_string_u128((scaled / 10) as u128);
    s.append(".");
    crate::hexfmt::push_digit_char(&mut s, (scaled % 10) as u8);
    s.append(label);
    proof {
        assert(s@ =~= duration_spec(tenths as nat));
    }
    s
}

/// A percentage scaled to hundred-thousandths, rendered with five decimal
/// places.
pub open spec fn percent_spec(pct_e5: nat) -> Seq<char> {
    dec_str(pct_e5 / 100000) + (".")@ + dec_digits_fixed((pct_e5 % 100000) as int, 5)
}

/// Renders a scaled percentage with five decimal places.
pub fn format_percent(pct_e5: u128) -> (r: String)
    ensures
        r@ == percent_spec(pct_e5 as nat),
{
    let mut s = dec_string_u128(pct_e5 / 100000);
    s.append(".");
    let frac = dec_string_fixed(pct_e5 % 100000, 5);
    s.append(frac.as_str());
    proof {
        assert(s@ =~= percent_spec(pct_e5 as nat));
    }
    s
}

/// One progress report line: counts, share, throughput and remaining time.
pub open spec fn progress_line_spec(
    processed: nat,
    total: nat,
    pct_e5: nat,
    rate: nat,
    eta: Seq<char>,
) -> Seq<char> {
    ("progress: ")@ + dec_str(processed) + ("/")@ + dec_str(total) + (" (")@ + percent_spec(
        pct_e5,
    ) + ("%) | rate: ")@ + dec_str(rate) + (" keys/s | eta: ")@ + eta
}

/// Renders one progress report line.
pub fn format_progress_line(
    processed: u128,
    total: u128,
    pct_e5: u128,
    rate: u128,
    eta: &str,
) -> (r: String)
    ensures
        r@ == progress_line_spec(processed as nat, total as nat, pct_e5 as nat, rate as nat, eta@),
{
    let mut s = String::from_str("progress: ");
    let a = dec_string_u128(processed);
    s.append(a.as_str());
    s.append("/");
    let b = dec_string_u128(total);
    s.append(b.as_str());
    s.append(" (");
    let c = format_percent(pct_e5);
    s.append(c.as_str());
    s.append("%) | rate: ");
    let d = dec_string_u128(rate);
    s.append(d.as_str());
    s.append(" keys/s | eta: ");
    s.append(eta);
    proof {
        assert(s@ =~= progress_line_spec(
            processed as nat,
            total as nat,
            pct_e5 as nat,
            rate as nat,
            eta@,
        ));
    }
    s
}

} // verus!
