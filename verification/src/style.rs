//! The text of SGR control sequences, and the palette of ready-made styles.

use vstd::prelude::*;

verus! {

/// Ends every styled run that is drawn.
pub const CSI_RESET: &'static str = "\u{1b}[0m\u{1b}[0m";

pub const CSI_BOLD: &'static str = "\u{1b}[1m";

pub const CSI_BOLD_RED: &'static str = "\u{1b}[1m\u{1b}[38;5;9m";

pub const CSI_BOLD_YELLOW: &'static str = "\u{1b}[1m\u{1b}[33m";

pub const CSI_BOLD_BLUE: &'static str = "\u{1b}[1m\u{1b}[38;5;12m";

/// The character of the decimal digit `d`.
pub open spec fn digit(d: int) -> char
    recommends
        0 <= d < 10,
{
    ('0' as int + d) as char
}

/// The decimal digits of `n`, most significant first, without leading zeros.
pub open spec fn digits(n: nat) -> Seq<char>
    decreases n,
{
    if n < 10 {
        seq![digit(n as int)]
    } else {
        digits(n / 10).push(digit((n % 10) as int))
    }
}

/// `n` in decimal, with a minus sign in front of a negative number.
pub open spec fn decimal(n: int) -> Seq<char> {
    if n < 0 {
        seq!['-'] + digits((-n) as nat)
    } else {
        digits(n as nat)
    }
}

/// The parameters in decimal, separated by semicolons.
pub open spec fn joined(params: Seq<i64>) -> Seq<char>
    decreases params.len(),
{
    if params.len() == 0 {
        Seq::empty()
    } else if params.len() == 1 {
        decimal(params[0] as int)
    } else {
        decimal(params[0] as int) + seq![';'] + joined(params.drop_first())
    }
}

/// The text of the control sequence with these parameters and this final
/// character: the introducer, the parameters, the final character.
pub open spec fn csi_text(params: Seq<i64>, action: char) -> Seq<char> {
    seq!['\u{1b}', '['] + joined(params) + seq![action]
}

/// A control sequence whose only parameter is 0 resets all styling.
pub open spec fn is_reset(params: Seq<i64>) -> bool {
    params.len() == 1 && params[0] == 0
}

/// Formats one parameter with std's `Display` for `i64`: the decimal digits,
/// after a minus sign where the number is negative.
#[verifier::external_body]
pub(crate) fn format_param(n: i64) -> (s: String)
    ensures
        s@ == decimal(n as int),
{
    format!("{}", n)
}

} // verus!
