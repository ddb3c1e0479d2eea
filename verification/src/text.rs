//! Decimal and hexadecimal text for numbers, appended to strings.
use vstd::prelude::*;

verus! {

/// The decimal digit `d < 10` as text.
pub open spec fn digit_text(d: nat) -> Seq<char> {
    if d == 0 {
        "0"@
    } else if d == 1 {
        "1"@
    } else if d == 2 {
        "2"@
    } else if d == 3 {
        "3"@
    } else if d == 4 {
        "4"@
    } else if d == 5 {
        "5"@
    } else if d == 6 {
        "6"@
    } else if d == 7 {
        "7"@
    } else if d == 8 {
        "8"@
    } else {
        "9"@
    }
}

/// The lowercase hexadecimal digit `d < 16` as text.
pub open spec fn hex_digit_text(d: nat) -> Seq<char> {
    if d < 10 {
        digit_text(d)
    } else if d == 10 {
        "a"@
    } else if d == 11 {
        "b"@
    } else if d == 12 {
        "c"@
    } else if d == 13 {
        "d"@
    } else if d == 14 {
        "e"@
    } else {
        "f"@
    }
}

/// `n` in decimal, without leading zeros.
pub open spec fn decimal_text(n: nat) -> Seq<char>
    decreases n,
{
    if n < 10 {
        digit_text(n)
    } else {
        decimal_text(n / 10) + digit_text(n % 10)
    }
}

/// `b` as two lowercase hexadecimal digits.
pub open spec fn hex_byte_text(b: u8) -> Seq<char> {
    hex_digit_text((b / 16) as nat) + hex_digit_text((b % 16) as nat)
}

/// Whether `s` is a nonempty run of the ASCII digits `0` to `9`.
pub open spec fn is_decimal_digits(s: Seq<char>) -> bool {
    &&& s.len() > 0
    &&& forall|i: int| 0 <= i < s.len() ==> 48 <= #[trigger] (s[i] as int) <= 57
}

/// The number a run of ASCII decimal digits denotes, most significant digit first.
pub open spec fn digits_value(s: Seq<char>) -> nat
    decreases s.len(),
{
    if s.len() == 0 {
        0
    } else {
        digits_value(s.drop_last()) * 10 + ((s.last() as int - 48) as nat)
    }
}

/// The text of a decimal digit is the single ASCII character `'0' + d`.
pub proof fn lemma_digit_text_char(d: nat)
    requires
        d < 10,
    ensures
        digit_text(d).len() == 1,
        digit_text(d)[0] as int == 48 + d,
{
    reveal_strlit("0");
    reveal_strlit("1");
    reveal_strlit("2");
    reveal_strlit("3");
    reveal_strlit("4");
    reveal_strlit("5");
    reveal_strlit("6");
    reveal_strlit("7");
    reveal_strlit("8");
    reveal_strlit("9");
}

/// The decimal text of `n` is a run of digits that reads back as `n`.
pub proof fn lemma_decimal_text_reads_back(n: nat)
    ensures
        is_decimal_digits(decimal_text(n)),
        digits_value(decimal_text(n)) == n,
    decreases n,
{
    if n < 10 {
        lemma_digit_text_char(n);
        let t = decimal_text(n);
        assert(t.drop_last() =~= Seq::<char>::empty());
        assert(digits_value(t.drop_last()) == 0);
    } else {
        lemma_decimal_text_reads_back(n / 10);
        lemma_digit_text_char(n % 10);
        let head = decimal_text(n / 10);
        let t = decimal_text(n);
        assert(t == head + digit_text(n % 10));
        assert(t.drop_last() =~= head);
        assert(t.last() == digit_text(n % 10)[0]);
        assert forall|i: int| 0 <= i < t.len() implies 48 <= #[trigger] (t[i] as int) <= 57 by {
            if i < head.len() {
                assert(t[i] == head[i]);
            }
        }
        assert(n == (n / 10) * 10 + n % 10);
    }
}

/// Append a decimal digit.
fn append_digit(s: &mut String, d: u32)
    requires
        d < 10,
    ensures
        final(s)@ == old(s)@ + digit_text(d as nat),
{
    if d == 0 {
        s.append("0");
    } else if d == 1 {
        s.append("1");
    } else if d == 2 {
        s.append("2");
    } else if d == 3 {
        s.append("3");
    } else if d == 4 {
        s.append("4");
    } else if d == 5 {
        s.append("5");
    } else if d == 6 {
        s.append("6");
    } else if d == 7 {
        s.append("7");
    } else if d == 8 {
        s.append("8");
    } else {
        s.append("9");
    }
}

/// Append a lowercase hexadecimal digit.
fn append_hex_digit(s: &mut String, d: u8)
    requires
        d < 16,
    ensures
        final(s)@ == old(s)@ + hex_digit_text(d as nat),
{
    if d < 10 {
        append_digit(s, d as u32);
    } else if d == 10 {
        s.append("a");
    } else if d == 11 {
        s.append("b");
    } else if d == 12 {
        s.append("c");
    } else if d == 13 {
        s.append("d");
    } else if d == 14 {
        s.append("e");
    } else {
        s.append("f");
    }
}

/// Append `n` in decimal.
pub fn append_decimal(s: &mut String, n: u32)
    ensures
        final(s)@ == old(s)@ + decimal_text(n as nat),
    decreases n,
{
    if n >= 10 {
        append_decimal(s, n / 10);
    }
    append_digit(s, n % 10);
    proof {
        if n >= 10 {
            assert(final(s)@ =~= old(s)@ + decimal_text(n as nat));
        }
    }
}

/// Append `b` as two lowercase hexadecimal digits.
pub fn append_hex_byte(s: &mut String, b: u8)
    ensures
        final(s)@ == old(s)@ + hex_byte_text(b),
{
    append_hex_digit(s, b / 16);
    append_hex_digit(s, b % 16);
    assert(final(s)@ =~= old(s)@ + hex_byte_text(b));
}

} // verus!
