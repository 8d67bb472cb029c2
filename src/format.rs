//! Durations as text for chat replies.

use vstd::prelude::*;

verus! {

/// Seconds in a day, an hour and a minute.
pub const SECONDS_PER_DAY: u64 = 86_400;
pub const SECONDS_PER_HOUR: u64 = 3_600;
pub const SECONDS_PER_MINUTE: u64 = 60;

/// The numeral of a digit.
pub open spec fn digit_text(n: int) -> Seq<char> {
    if n == 0 {
        "0"@
    } else if n == 1 {
        "1"@
    } else if n == 2 {
        "2"@
    } else if n == 3 {
        "3"@
    } else if n == 4 {
        "4"@
    } else if n == 5 {
        "5"@
    } else if n == 6 {
        "6"@
    } else if n == 7 {
        "7"@
    } else if n == 8 {
        "8"@
    } else {
        "9"@
    }
}

/// `n` in decimal, without leading zeros.
pub open spec fn decimal(n: nat) -> Seq<char>
    decreases n,
{
    if n < 10 {
        digit_text(n as int)
    } else {
        decimal(n / 10) + digit_text((n % 10) as int)
    }
}

/// `x` in decimal, with a minus sign where it is negative.
pub open spec fn signed_decimal(x: int) -> Seq<char> {
    if x < 0 {
        "-"@ + decimal((-x) as nat)
    } else {
        decimal(x as nat)
    }
}

/// Days, hours, minutes and seconds of a non-negative number of seconds.
pub open spec fn dhms(s: nat) -> (nat, nat, nat, nat) {
    (
        s / 86_400,
        (s % 86_400) / 3_600,
        (s % 3_600) / 60,
        s % 60,
    )
}

/// Days, hours, minutes and seconds of `s` seconds, each with the sign of `s`
/// (division truncates toward zero).
pub open spec fn signed_dhms(s: int) -> (int, int, int, int) {
    let m = if s < 0 { -s } else { s };
    let (d, h, mi, x) = dhms(m as nat);
    if s < 0 {
        (-d, -h, -mi, -x)
    } else {
        (d as int, h as int, mi as int, x as int)
    }
}

/// The reply text for a duration of `s` seconds.
pub open spec fn discord_text(s: int) -> Seq<char> {
    let (d, h, m, x) = signed_dhms(s);
    "*"@ + signed_decimal(d) + "* ***D***, *"@ + signed_decimal(h) + "* ***H***, *"@
        + signed_decimal(m) + "* ***M***, *"@ + signed_decimal(x) + "* ***S***"@
}

fn digit(n: u64) -> (r: &'static str)
    requires
        n < 10,
    ensures
        r@ == digit_text(n as int),
{
    if n == 0 {
        "0"
    } else if n == 1 {
        "1"
    } else if n == 2 {
        "2"
    } else if n == 3 {
        "3"
    } else if n == 4 {
        "4"
    } else if n == 5 {
        "5"
    } else if n == 6 {
        "6"
    } else if n == 7 {
        "7"
    } else if n == 8 {
        "8"
    } else {
        "9"
    }
}

/// Appends `n` in decimal.
fn push_decimal(out: &mut String, n: u64)
    ensures
        final(out)@ == old(out)@ + decimal(n as nat),
    decreases n,
{
    if n >= 10 {
        push_decimal(out, n / 10);
    }
    out.append(digit(n % 10));
    proof {
        if n >= 10 {
            assert(decimal(n as nat) == decimal((n / 10) as nat) + digit_text((n % 10) as int));
        }
    }
}

/// Appends a part of a duration: its magnitude, after a minus sign where the
/// duration is negative and the part is not zero.
fn push_part(out: &mut String, negative: bool, magnitude: u64)
    ensures
        final(out)@ == old(out)@ + signed_decimal(
            if negative {
                -(magnitude as int)
            } else {
                magnitude as int
            },
        ),
{
    if negative && magnitude > 0 {
        out.append("-");
    }
    push_decimal(out, magnitude);
    proof {
        if negative && magnitude > 0 {
            assert(old(out)@ + "-"@ + decimal(magnitude as nat) =~= old(out)@ + ("-"@ + decimal(
                magnitude as nat,
            )));
        }
    }
}

/// `s_total` seconds as days, hours, minutes and seconds, in the markup of
/// the chat replies: `*1* ***D***, *2* ***H***, *3* ***M***, *4* ***S***`.
pub fn seconds_to_discord_formatted(s_total: i64) -> (r: String)
    ensures
        r@ == discord_text(s_total as int),
{
    let negative = s_total < 0;
    let m: u64 = if negative {
        (-(s_total + 1)) as u64 + 1
    } else {
        s_total as u64
    };
    let d = m / SECONDS_PER_DAY;
    let h = (m % SECONDS_PER_DAY) / SECONDS_PER_HOUR;
    let mi = (m % SECONDS_PER_HOUR) / SECONDS_PER_MINUTE;
    let x = m % SECONDS_PER_MINUTE;
    let mut out = String::new();
    out.append("*");
    push_part(&mut out, negative, d);
    out.append("* ***D***, *");
    push_part(&mut out, negative, h);
    out.append("* ***H***, *");
    push_part(&mut out, negative, mi);
    out.append("* ***M***, *");
    push_part(&mut out, negative, x);
    out.append("* ***S***");
    proof {
        let (sd, sh, sm, sx) = signed_dhms(s_total as int);
        assert(m as int == if s_total < 0 { -(s_total as int) } else { s_total as int });
        assert(sd == if negative { -(d as int) } else { d as int });
        assert(sh == if negative { -(h as int) } else { h as int });
        assert(sm == if negative { -(mi as int) } else { mi as int });
        assert(sx == if negative { -(x as int) } else { x as int });
    }
    out
}

} // verus!
