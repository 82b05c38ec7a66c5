//! Texts: comparing them, and writing numbers into them.

use vstd::prelude::*;
use vstd::string::StringExecFns;
use vstd::string::StrSliceExecFns;

verus! {

/// Whether two texts hold the same characters.
pub fn same_text(a: &str, b: &str) -> (r: bool)
    ensures
        r == (a@ == b@),
{
    let left: String = a.to_owned();
    let right: String = b.to_owned();
    left == right
}

/// The character of a decimal digit.
pub open spec fn digit_char(digit: int) -> char {
    if digit == 0 {
        '0'
    } else if digit == 1 {
        '1'
    } else if digit == 2 {
        '2'
    } else if digit == 3 {
        '3'
    } else if digit == 4 {
        '4'
    } else if digit == 5 {
        '5'
    } else if digit == 6 {
        '6'
    } else if digit == 7 {
        '7'
    } else if digit == 8 {
        '8'
    } else {
        '9'
    }
}

/// The decimal digits of `n`, with zeros in front up to `width` digits:
/// never fewer digits than the number has, nor fewer than one.
pub open spec fn digits(n: nat, width: nat) -> Seq<char>
    decreases n + width,
{
    if n < 10 && width <= 1 {
        seq![digit_char(n as int)]
    } else {
        digits(n / 10, if width > 0 {
            (width - 1) as nat
        } else {
            0
        }).push(digit_char((n % 10) as int))
    }
}

/// `count` spaces.
pub open spec fn spaces(count: nat) -> Seq<char> {
    Seq::new(count, |i: int| ' ')
}

/// The text with spaces behind it up to `width` characters; a longer text
/// stays as it is.
pub open spec fn padded(text: Seq<char>, width: nat) -> Seq<char> {
    if text.len() < width {
        text + spaces((width - text.len()) as nat)
    } else {
        text
    }
}

/// The decimal text of an integer: a minus sign where it is below zero,
/// then its digits.
pub open spec fn integer_text(n: int) -> Seq<char> {
    if n < 0 {
        seq!['-'] + digits((-n) as nat, 1)
    } else {
        digits(n as nat, 1)
    }
}

/// The text of one decimal digit.
fn digit_text(digit: u8) -> (r: &'static str)
    requires
        digit < 10,
    ensures
        r@ == seq![digit_char(digit as int)],
{
    proof {
        reveal_strlit("0");
        reveal_strlit("1");
        reveal_strlit("2");
        reveal_strlit("3");
        reveal_strlit("4");
        reveal_strlit("5");
        reveal_strlit("6");
        reveal_strlit("7");
        reveal_strlit("8");
        reveal_strlit("9");
    }
    let r = if digit == 0 {
        "0"
    } else if digit == 1 {
        "1"
    } else if digit == 2 {
        "2"
    } else if digit == 3 {
        "3"
    } else if digit == 4 {
        "4"
    } else if digit == 5 {
        "5"
    } else if digit == 6 {
        "6"
    } else if digit == 7 {
        "7"
    } else if digit == 8 {
        "8"
    } else {
        "9"
    };
    assert(r@ =~= seq![digit_char(digit as int)]);
    r
}

/// Writes the digits of `n` behind a text, with zeros in front up to
/// `width` digits.
pub fn push_digits(out: &mut String, n: u128, width: u32)
    ensures
        final(out)@ == old(out)@ + digits(n as nat, width as nat),
    decreases n + width,
{
    if n >= 10 || width > 1 {
        let rest: u32 = if width > 0 {
            width - 1
        } else {
            0
        };
        push_digits(out, n / 10, rest);
    }
    out.append(digit_text((n % 10) as u8));
    proof {
        let shown = digits(n as nat, width as nat);
        if n >= 10 || width > 1 {
            let before = digits((n / 10) as nat, if width > 0 {
                (width - 1) as nat
            } else {
                0
            });
            assert(out@ =~= old(out)@ + before.push(digit_char((n % 10) as int)));
        } else {
            assert(out@ =~= old(out)@ + seq![digit_char(n as int)]);
        }
    }
}

/// Writes a text behind another, with spaces behind it up to `width`
/// characters.
pub fn push_padded(out: &mut String, text: &str, width: usize)
    ensures
        final(out)@ == old(out)@ + padded(text@, width as nat),
{
    out.append(text);
    let length = text.unicode_len();
    let mut written: usize = length;
    proof {
        reveal_strlit(" ");
    }
    while written < width
        invariant
            length == text@.len(),
            length <= written,
            written <= width || written == length,
            out@ == old(out)@ + text@ + spaces((written - length) as nat),
            " "@ == seq![' '],
        decreases width - written,
    {
        out.append(" ");
        written = written + 1;
        assert(out@ =~= old(out)@ + text@ + spaces((written - length) as nat));
    }
    assert(out@ =~= old(out)@ + padded(text@, width as nat));
}

/// Writes the decimal text of an integer behind a text.
pub fn push_integer(out: &mut String, n: i64)
    ensures
        final(out)@ == old(out)@ + integer_text(n as int),
{
    proof {
        reveal_strlit("-");
    }
    if n < 0 {
        out.append("-");
        let size: u128 = if n == i64::MIN {
            9_223_372_036_854_775_808u128
        } else {
            (-n) as u128
        };
        push_digits(out, size, 1);
        assert(out@ =~= old(out)@ + integer_text(n as int));
    } else {
        push_digits(out, n as u128, 1);
    }
}

} // verus!
