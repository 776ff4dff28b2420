//! Rendering numbers and room reports as text.
use vstd::prelude::*;

verus! {

/// The decimal digit for `d`, which is below ten.
pub open spec fn digit_char(d: nat) -> char {
    if d == 0 {
        '0'
    } else if d == 1 {
        '1'
    } else if d == 2 {
        '2'
    } else if d == 3 {
        '3'
    } else if d == 4 {
        '4'
    } else if d == 5 {
        '5'
    } else if d == 6 {
        '6'
    } else if d == 7 {
        '7'
    } else if d == 8 {
        '8'
    } else {
        '9'
    }
}

/// `n` written in decimal, without leading zeros.
pub open spec fn decimal(n: nat) -> Seq<char>
    decreases n,
{
    if n < 10 {
        seq![digit_char(n)]
    } else {
        decimal(n / 10) + seq![digit_char(n % 10)]
    }
}

/// The one-character text of the digit `d`.
fn digit_str(d: u64) -> (s: &'static str)
    requires
        d < 10,
    ensures
        s@ == seq![digit_char(d as nat)],
{
    proof {
        reveal_strlit("0");
        reveal_strlit("1");
        reveal_strlit("2");
        reveal_strlit("3");
        reveal_strlit("4");
        reveal_strlit("5");
        reveal_strlit("6");
        reveal_strlit("7");
        reveal_strlit("8");
        reveal_strlit("9");
    }
    let s = if d == 0 {
        "0"
    } else if d == 1 {
        "1"
    } else if d == 2 {
        "2"
    } else if d == 3 {
        "3"
    } else if d == 4 {
        "4"
    } else if d == 5 {
        "5"
    } else if d == 6 {
        "6"
    } else if d == 7 {
        "7"
    } else if d == 8 {
        "8"
    } else {
        "9"
    };
    assert(s@ =~= seq![digit_char(d as nat)]);
    s
}

/// Appends `n` in decimal to `s`.
pub fn push_decimal(s: &mut String, n: u64)
    ensures
        final(s)@ == old(s)@ + decimal(n as nat),
    decreases n,
{
    if n >= 10 {
        push_decimal(s, n / 10);
    }
    s.append(digit_str(n % 10));
    proof {
        if n >= 10 {
            assert(final(s)@ =~= old(s)@ + decimal(n as nat));
        } else {
            assert(final(s)@ =~= old(s)@ + decimal(n as nat));
        }
    }
}

/// `base`, a hyphen, and `n` in decimal.
pub fn hyphenated(base: &str, n: usize) -> (s: String)
    ensures
        s@ == base@ + "-"@ + decimal(n as nat),
{
    let mut s: String = base.to_owned();
    s.append("-");
    push_decimal(&mut s, n as u64);
    s
}

/// The one-line report of a room.
pub open spec fn summary_text(
    id: Seq<char>,
    curriculum: Seq<char>,
    total: nat,
    active: nat,
    graduated: nat,
    percent: nat,
    tenths: nat,
    mentor: Seq<char>,
) -> Seq<char> {
    "Room "@ + id + " | Curriculum: "@ + curriculum + " | Trainees: "@ + decimal(total)
        + " total ("@ + decimal(active) + " active, "@ + decimal(graduated) + " graduated) | Room progress: "@
        + decimal(percent) + "."@ + decimal(tenths) + "% | Mentor: "@ + mentor
}

/// Writes the one-line report of a room.
pub fn render_summary(
    id: &str,
    curriculum: &str,
    total: usize,
    active: usize,
    graduated: usize,
    percent: u64,
    tenths: u64,
    mentor: &str,
) -> (s: String)
    ensures
        s@ == summary_text(
            id@,
            curriculum@,
            total as nat,
            active as nat,
            graduated as nat,
            percent as nat,
            tenths as nat,
            mentor@,
        ),
{
    let mut s: String = String::new();
    s.append("Room ");
    s.append(id);
    s.append(" | Curriculum: ");
    s.append(curriculum);
    s.append(" | Trainees: ");
    push_decimal(&mut s, total as u64);
    s.append(" total (");
    push_decimal(&mut s, active as u64);
    s.append(" active, ");
    push_decimal(&mut s, graduated as u64);
    s.append(" graduated) | Room progress: ");
    push_decimal(&mut s, percent);
    s.append(".");
    push_decimal(&mut s, tenths);
    s.append("% | Mentor: ");
    s.append(mentor);
    proof {
        assert(s@ =~= summary_text(
            id@,
            curriculum@,
            total as nat,
            active as nat,
            graduated as nat,
            percent as nat,
            tenths as nat,
            mentor@,
        ));
    }
    s
}

} // verus!
