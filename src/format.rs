//! The canonical text form of an instant: `YYYY-MM-DDTHH:MM:SS.ssssssZ`,
//! always UTC, always six fractional digits.
use vstd::prelude::*;
use vstd::string::*;
use crate::duration::{Duration, USEC_PER_DAY, USEC_PER_HOUR, USEC_PER_MINUTE};
use crate::instant::{renders_as, Civil, Instant};

verus! {

pub open spec fn digit_char(d: int) -> char {
    seq!['0', '1', '2', '3', '4', '5', '6', '7', '8', '9'][d]
}

/// The decimal digits of `n`, padded on the left with zeros to at least
/// `width` characters.
pub open spec fn decimal(n: nat, width: nat) -> Seq<char>
    decreases n, width,
{
    if n < 10 && width <= 1 {
        seq![digit_char(n as int)]
    } else {
        decimal(
            n / 10,
            if width > 0 {
                (width - 1) as nat
            } else {
                0
            },
        ) + seq![digit_char((n % 10) as int)]
    }
}

/// The year, with at least four digits and a leading `-` before year 0.
pub open spec fn year_text(y: int) -> Seq<char> {
    if y < 0 {
        seq!['-'] + decimal((-y) as nat, 4)
    } else {
        decimal(y as nat, 4)
    }
}

/// The text of civil fields in the canonical form.
pub open spec fn iso_text(g: Civil) -> Seq<char> {
    year_text(g.0 as int) + seq!['-'] + decimal(g.1 as nat, 2) + seq!['-'] + decimal(g.2 as nat, 2)
        + seq!['T'] + decimal(g.3 as nat, 2) + seq![':'] + decimal(g.4 as nat, 2) + seq![':']
        + decimal((g.5 / 1_000_000) as nat, 2) + seq!['.'] + decimal((g.5 % 1_000_000) as nat, 6)
        + seq!['Z']
}

fn push_char(s: &mut String, c: char)
    requires
        c == '0' || c == '1' || c == '2' || c == '3' || c == '4' || c == '5' || c == '6' || c
            == '7' || c == '8' || c == '9' || c == '-' || c == 'T' || c == ':' || c == '.' || c
            == 'Z',
    ensures
        final(s)@ == old(s)@.push(c),
{
    let lit: &str = match c {
        '0' => "0",
        '1' => "1",
        '2' => "2",
        '3' => "3",
        '4' => "4",
        '5' => "5",
        '6' => "6",
        '7' => "7",
        '8' => "8",
        '9' => "9",
        '-' => "-",
        'T' => "T",
        ':' => ":",
        '.' => ".",
        _ => "Z",
    };
    proof {
        reveal_strlit("0");
        reveal_strlit("1");
        reveal_strlit("2");
        reveal_strlit("3");
        reveal_strlit("4");
        reveal_strlit("5");
        reveal_strlit("6");
        reveal_strlit("7");
        reveal_strlit("8");
        reveal_strlit("9");
        reveal_strlit("-");
        reveal_strlit("T");
        reveal_strlit(":");
        reveal_strlit(".");
        reveal_strlit("Z");
    }
    s.append(lit);
    assert(final(s)@ =~= old(s)@.push(c));
}

fn digit(d: u64) -> (c: char)
    requires
        d < 10,
    ensures
        c == digit_char(d as int),
{
    match d {
        0 => '0',
        1 => '1',
        2 => '2',
        3 => '3',
        4 => '4',
        5 => '5',
        6 => '6',
        7 => '7',
        8 => '8',
        _ => '9',
    }
}

fn push_decimal(s: &mut String, n: u64, width: u64)
    ensures
        final(s)@ == old(s)@ + decimal(n as nat, width as nat),
    decreases n, width,
{
    if !(n < 10 && width <= 1) {
        let rest_width: u64 = if width > 0 {
            width - 1
        } else {
            0
        };
        push_decimal(s, n / 10, rest_width);
    }
    let c = digit(n % 10);
    push_char(s, c);
    assert(final(s)@ =~= old(s)@ + decimal(n as nat, width as nat));
}

impl Instant {
    /// The canonical UTC text of this instant,
    /// `YYYY-MM-DDTHH:MM:SS.ssssssZ`; inside a leap second the seconds read 60.
    pub fn to_string(&self) -> (r: String)
        ensures
            exists|g: Civil| renders_as(self.raw as int, g) && r@ == iso_text(g),
    {
        let g = self.gregorian();
        assert(g.1 >= 1 && g.2 >= 1 && g.3 >= 0 && g.4 >= 0 && g.5 >= 0);
        let mut s = String::new();
        if g.0 < 0 {
            push_char(&mut s, '-');
            push_decimal(&mut s, (-(g.0 as i64)) as u64, 4);
        } else {
            push_decimal(&mut s, g.0 as u64, 4);
        }
        push_char(&mut s, '-');
        push_decimal(&mut s, g.1 as u64, 2);
        push_char(&mut s, '-');
        push_decimal(&mut s, g.2 as u64, 2);
        push_char(&mut s, 'T');
        push_decimal(&mut s, g.3 as u64, 2);
        push_char(&mut s, ':');
        push_decimal(&mut s, g.4 as u64, 2);
        push_char(&mut s, ':');
        push_decimal(&mut s, (g.5 / 1_000_000) as u64, 2);
        push_char(&mut s, '.');
        push_decimal(&mut s, (g.5 % 1_000_000) as u64, 6);
        push_char(&mut s, 'Z');
        assert(s@ =~= iso_text(g));
        s
    }
}


/// The decimal text of a signed integer, with a leading `-` when negative.
pub open spec fn signed_text(n: int) -> Seq<char> {
    if n < 0 {
        seq!['-'] + decimal((-n) as nat, 1)
    } else {
        decimal(n as nat, 1)
    }
}

/// The text of a duration: below one second, the microseconds; otherwise
/// the whole days, hours and minutes it exceeds (each counted in full), then
/// the seconds with six decimals.
pub open spec fn duration_text(usec: int) -> Seq<char> {
    if usec < 1_000_000 {
        signed_text(usec) + " usec"@
    } else {
        (if usec > USEC_PER_DAY {
            decimal((usec / USEC_PER_DAY as int) as nat, 1) + " days "@
        } else {
            Seq::empty()
        }) + (if usec > USEC_PER_HOUR {
            decimal((usec / USEC_PER_HOUR as int) as nat, 1) + " hours "@
        } else {
            Seq::empty()
        }) + (if usec > USEC_PER_MINUTE {
            decimal((usec / USEC_PER_MINUTE as int) as nat, 1) + " minutes "@
        } else {
            Seq::empty()
        }) + decimal((usec / 1_000_000) as nat, 1) + seq!['.'] + decimal(
            (usec % 1_000_000) as nat,
            6,
        ) + " seconds"@
    }
}

impl Duration {
    /// A readable text of the duration, such as `250 usec` or
    /// `2 minutes 150.000000 seconds`.
    pub fn to_string(&self) -> (r: String)
        ensures
            r@ == duration_text(self.usec as int),
    {
        let usec = self.usec;
        let mut s = String::new();
        if usec < 1_000_000 {
            if usec < 0 {
                push_char(&mut s, '-');
                push_decimal(&mut s, (-(usec as i128)) as u64, 1);
            } else {
                push_decimal(&mut s, usec as u64, 1);
            }
            s.append(" usec");
        } else {
            if usec > USEC_PER_DAY {
                push_decimal(&mut s, (usec / USEC_PER_DAY) as u64, 1);
                s.append(" days ");
            }
            if usec > USEC_PER_HOUR {
                push_decimal(&mut s, (usec / USEC_PER_HOUR) as u64, 1);
                s.append(" hours ");
            }
            if usec > USEC_PER_MINUTE {
                push_decimal(&mut s, (usec / USEC_PER_MINUTE) as u64, 1);
                s.append(" minutes ");
            }
            push_decimal(&mut s, (usec / 1_000_000) as u64, 1);
            push_char(&mut s, '.');
            push_decimal(&mut s, (usec % 1_000_000) as u64, 6);
            s.append(" seconds");
        }
        assert(s@ =~= duration_text(usec as int));
        s
    }
}

} // verus!
