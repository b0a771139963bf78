//! Decimal text for unsigned numbers, with the padding the disassembler uses.

use vstd::prelude::*;

verus! {

/// The digit character for `d` in `0..10`.
pub open spec fn digit(d: int) -> char {
    if d == 0 {
        '0'
    } else if d == 1 {
        '1'
    } else if d == 2 {
        '2'
    } else if d == 3 {
        '3'
    } else if d == 4 {
        '4'
    } else if d == 5 {
        '5'
    } else if d == 6 {
        '6'
    } else if d == 7 {
        '7'
    } else if d == 8 {
        '8'
    } else {
        '9'
    }
}

/// The decimal digits of `n`, most significant first.
pub open spec fn dec_chars(n: nat) -> Seq<char>
    decreases n,
{
    if n < 10 {
        seq![digit(n as int)]
    } else {
        dec_chars(n / 10).push(digit((n % 10) as int))
    }
}

/// `n` copies of `c`.
pub open spec fn repeated(c: char, n: nat) -> Seq<char> {
    Seq::new(n, |i: int| c)
}

/// `s`, filled on the left with `fill` up to `width` characters; `s` itself
/// when it is already that long.
pub open spec fn padded(s: Seq<char>, width: nat, fill: char) -> Seq<char> {
    if s.len() >= width {
        s
    } else {
        repeated(fill, (width - s.len()) as nat) + s
    }
}

/// The decimal digits of `n`, filled on the left to 4 characters: with zeros
/// when `zero` is set, with spaces otherwise.
pub open spec fn dec_pad4(n: nat, zero: bool) -> Seq<char> {
    padded(dec_chars(n), 4, if zero {
        '0'
    } else {
        ' '
    })
}

/// The one-character string for digit `d`.
fn digit_str(d: u64) -> (r: &'static str)
    requires
        d < 10,
    ensures
        r@ == seq![digit(d as int)],
{
    proof {
        reveal_strlit("0");
        reveal_strlit("1");
        reveal_strlit("2");
        reveal_strlit("3");
        reveal_strlit("4");
        reveal_strlit("5");
        reveal_strlit("6");
        reveal_strlit("7");
        reveal_strlit("8");
        reveal_strlit("9");
        assert(("0")@ =~= seq![digit(0)]);
        assert(("1")@ =~= seq![digit(1)]);
        assert(("2")@ =~= seq![digit(2)]);
        assert(("3")@ =~= seq![digit(3)]);
        assert(("4")@ =~= seq![digit(4)]);
        assert(("5")@ =~= seq![digit(5)]);
        assert(("6")@ =~= seq![digit(6)]);
        assert(("7")@ =~= seq![digit(7)]);
        assert(("8")@ =~= seq![digit(8)]);
        assert(("9")@ =~= seq![digit(9)]);
    }
    match d {
        0 => "0",
        1 => "1",
        2 => "2",
        3 => "3",
        4 => "4",
        5 => "5",
        6 => "6",
        7 => "7",
        8 => "8",
        _ => "9",
    }
}

/// Appends the decimal digits of `n` to `out`.
pub(crate) fn append_dec(out: &mut String, n: u64)
    ensures
        final(out)@ == old(out)@ + dec_chars(n as nat),
    decreases n,
{
    if n < 10 {
        out.append(digit_str(n));
    } else {
        append_dec(out, n / 10);
        out.append(digit_str(n % 10));
        assert(out@ =~= old(out)@ + dec_chars(n as nat));
    }
}

/// Appends the decimal digits of `n` to `out`, filled on the left to 4
/// characters: with zeros when `zero` is set, with spaces otherwise.
pub(crate) fn append_dec_pad4(out: &mut String, n: u64, zero: bool)
    ensures
        final(out)@ == old(out)@ + dec_pad4(n as nat, zero),
{
    let fill: &'static str = if zero {
        "0"
    } else {
        " "
    };
    proof {
        reveal_strlit("0");
        reveal_strlit(" ");
        assert(fill@ =~= seq![if zero { '0' } else { ' ' }]);
    }
    if n < 1000 {
        out.append(fill);
    }
    if n < 100 {
        out.append(fill);
    }
    if n < 10 {
        out.append(fill);
    }
    append_dec(out, n);
    proof {
        let nn = n as nat;
        if nn >= 10 {
            assert(dec_chars(nn).len() == dec_chars(nn / 10).len() + 1);
        }
        if nn >= 100 {
            assert(dec_chars(nn / 10).len() == dec_chars(nn / 10 / 10).len() + 1);
        }
        if nn >= 1000 {
            assert(dec_chars(nn / 10 / 10).len() == dec_chars(nn / 10 / 10 / 10).len() + 1);
        }
        assert(out@ =~= old(out)@ + dec_pad4(n as nat, zero));
    }
}

} // verus!
