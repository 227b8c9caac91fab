//! Decimal rendering of integers as text.
use vstd::prelude::*;

verus! {

/// The ASCII digit for `d`, where `d < 10`.
pub open spec fn digit_char(d: nat) -> char {
    if d == 0 {
        '0'
    } else if d == 1 {
        '1'
    } else if d == 2 {
        '2'
    } else if d == 3 {
        '3'
    } else if d == 4 {
        '4'
    } else if d == 5 {
        '5'
    } else if d == 6 {
        '6'
    } else if d == 7 {
        '7'
    } else if d == 8 {
        '8'
    } else {
        '9'
    }
}

/// The decimal digits of `n`, most significant first, without leading zeros.
pub open spec fn decimal(n: nat) -> Seq<char>
    decreases n,
{
    if n < 10 {
        seq![digit_char(n)]
    } else {
        decimal(n / 10).push(digit_char(n % 10))
    }
}

/// The text of a signed integer: a `-` before the digits of its magnitude when negative.
pub open spec fn signed_decimal(n: int) -> Seq<char> {
    if n < 0 {
        seq!['-'] + decimal((-n) as nat)
    } else {
        decimal(n as nat)
    }
}

/// The number an ASCII digit stands for.
pub open spec fn digit_value(c: char) -> int {
    (c as int) - ('0' as int)
}

/// Whether `c` is an ASCII digit.
pub open spec fn is_digit(c: char) -> bool {
    ('0' as int) <= (c as int) <= ('9' as int)
}

/// The number a string of decimal digits stands for.
pub open spec fn text_value(s: Seq<char>) -> int
    decreases s.len(),
{
    if s.len() == 0 {
        0
    } else {
        text_value(s.drop_last()) * 10 + digit_value(s.last())
    }
}

/// The digit for `d` stands for `d`.
pub proof fn lemma_digit_char_value(d: nat)
    requires
        d < 10,
    ensures
        is_digit(digit_char(d)),
        digit_value(digit_char(d)) == d,
{
}

/// Decimal text reads back: it is a nonempty string of digits that stands
/// for `n`, with no leading zero except for 0 itself.
pub proof fn lemma_decimal_reads_back(n: nat)
    ensures
        decimal(n).len() >= 1,
        forall|i: int| 0 <= i < decimal(n).len() ==> is_digit(#[trigger] decimal(n)[i]),
        text_value(decimal(n)) == n,
        decimal(n)[0] == '0' ==> n == 0,
    decreases n,
{
    if n < 10 {
        lemma_digit_char_value(n);
        assert(decimal(n) =~= seq![digit_char(n)]);
        assert(seq![digit_char(n)].drop_last() =~= Seq::<char>::empty());
        assert(text_value(Seq::<char>::empty()) == 0);
        assert(seq![digit_char(n)].last() == digit_char(n));
    } else {
        lemma_digit_char_value(n % 10);
        lemma_decimal_reads_back(n / 10);
        let d = decimal(n / 10);
        assert(decimal(n) == d.push(digit_char(n % 10)));
        assert(d.push(digit_char(n % 10)).drop_last() =~= d);
        assert forall|i: int| 0 <= i < decimal(n).len() implies is_digit(#[trigger] decimal(n)[i]) by {
            if i < d.len() {
                assert(decimal(n)[i] == d[i]);
            }
        }
        assert(decimal(n)[0] == d[0]);
    }
}

/// Signed text reads back: a leading `-` exactly for negative numbers,
/// followed by the digits of the magnitude.
pub proof fn lemma_signed_decimal_reads_back(n: int)
    ensures
        n < 0 ==> signed_decimal(n)[0] == '-' && text_value(signed_decimal(n).drop_first()) == -n,
        n >= 0 ==> text_value(signed_decimal(n)) == n && is_digit(signed_decimal(n)[0]),
{
    if n < 0 {
        lemma_decimal_reads_back((-n) as nat);
        assert(signed_decimal(n).drop_first() =~= decimal((-n) as nat));
    } else {
        lemma_decimal_reads_back(n as nat);
    }
}

fn push_digit(s: &mut String, d: u64)
    requires
        d < 10,
    ensures
        final(s)@ == old(s)@.push(digit_char(d as nat)),
{
    proof {
        reveal_strlit("0");
        reveal_strlit("1");
        reveal_strlit("2");
        reveal_strlit("3");
        reveal_strlit("4");
        reveal_strlit("5");
        reveal_strlit("6");
        reveal_strlit("7");
        reveal_strlit("8");
        reveal_strlit("9");
    }
    if d == 0 {
        s.append("0");
    } else if d == 1 {
        s.append("1");
    } else if d == 2 {
        s.append("2");
    } else if d == 3 {
        s.append("3");
    } else if d == 4 {
        s.append("4");
    } else if d == 5 {
        s.append("5");
    } else if d == 6 {
        s.append("6");
    } else if d == 7 {
        s.append("7");
    } else if d == 8 {
        s.append("8");
    } else {
        s.append("9");
    }
}

/// Appends the decimal digits of `n` to `s`.
pub fn push_unsigned(s: &mut String, n: u64)
    ensures
        final(s)@ == old(s)@ + decimal(n as nat),
    decreases n,
{
    if n >= 10 {
        push_unsigned(s, n / 10);
    }
    push_digit(s, n % 10);
    assert(s@ =~= old(s)@ + decimal(n as nat));
}

/// Appends the text of `n` to `s`, as `i64`'s `Display` writes it.
pub fn push_signed(s: &mut String, n: i64)
    ensures
        final(s)@ == old(s)@ + signed_decimal(n as int),
{
    if n < 0 {
        proof {
            reveal_strlit("-");
        }
        s.append("-");
        let magnitude: u64 = (0i128 - (n as i128)) as u64;
        push_unsigned(s, magnitude);
        assert(s@ =~= old(s)@ + signed_decimal(n as int));
    } else {
        push_unsigned(s, n as u64);
    }
}

/// Dotted-decimal text of an IPv4 address, as `Ipv4Addr`'s `Display` writes it.
pub open spec fn dotted_quad(o: Seq<u8>) -> Seq<char> {
    decimal(o[0] as nat) + seq!['.'] + decimal(o[1] as nat) + seq!['.'] + decimal(o[2] as nat)
        + seq!['.'] + decimal(o[3] as nat)
}

/// The dotted-decimal text of the address with octets `o`.
pub fn ipv4_text(o: [u8; 4]) -> (s: String)
    ensures
        s@ == dotted_quad(o@),
{
    proof {
        reveal_strlit(".");
    }
    let mut s = String::new();
    push_unsigned(&mut s, o[0] as u64);
    s.append(".");
    push_unsigned(&mut s, o[1] as u64);
    s.append(".");
    push_unsigned(&mut s, o[2] as u64);
    s.append(".");
    push_unsigned(&mut s, o[3] as u64);
    assert(s@ =~= dotted_quad(o@));
    s
}

} // verus!
