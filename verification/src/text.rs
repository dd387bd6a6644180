//! Comparing and building text.

use vstd::prelude::*;
use vstd::utf8::*;

verus! {

/// The character that stands for one decimal digit.
pub open spec fn digit_char(d: nat) -> char {
    if d == 0 {
        '0'
    } else if d == 1 {
        '1'
    } else if d == 2 {
        '2'
    } else if d == 3 {
        '3'
    } else if d == 4 {
        '4'
    } else if d == 5 {
        '5'
    } else if d == 6 {
        '6'
    } else if d == 7 {
        '7'
    } else if d == 8 {
        '8'
    } else {
        '9'
    }
}

/// The decimal numeral of `n`, most significant digit first, without leading zeros.
pub open spec fn decimal(n: nat) -> Seq<char>
    decreases n,
{
    if n < 10 {
        seq![digit_char(n)]
    } else {
        decimal(n / 10).push(digit_char(n % 10))
    }
}

/// Whether two strings hold the same characters.
pub fn same_text(a: &str, b: &str) -> (same: bool)
    ensures
        same == (a@ == b@),
{
    let left = a.as_bytes();
    let right = b.as_bytes();
    proof {
        encode_utf8_decode_utf8(a@);
        encode_utf8_decode_utf8(b@);
    }
    if left.len() != right.len() {
        return false;
    }
    let mut i: usize = 0;
    while i < left.len()
        invariant
            i <= left@.len(),
            left@.len() == right@.len(),
            left@ == encode_utf8(a@),
            right@ == encode_utf8(b@),
            forall|j: int| 0 <= j < i ==> left@[j] == right@[j],
        decreases left@.len() - i,
    {
        if left[i] != right[i] {
            return false;
        }
        i += 1;
    }
    assert(left@ =~= right@);
    true
}

fn digit_text(d: u64) -> (t: &'static str)
    requires
        d < 10,
    ensures
        t@ == seq![digit_char(d as nat)],
{
    proof {
        reveal_strlit("0");
        reveal_strlit("1");
        reveal_strlit("2");
        reveal_strlit("3");
        reveal_strlit("4");
        reveal_strlit("5");
        reveal_strlit("6");
        reveal_strlit("7");
        reveal_strlit("8");
        reveal_strlit("9");
    }
    let t = if d == 0 {
        "0"
    } else if d == 1 {
        "1"
    } else if d == 2 {
        "2"
    } else if d == 3 {
        "3"
    } else if d == 4 {
        "4"
    } else if d == 5 {
        "5"
    } else if d == 6 {
        "6"
    } else if d == 7 {
        "7"
    } else if d == 8 {
        "8"
    } else {
        "9"
    };
    assert(t@ =~= seq![digit_char(d as nat)]);
    t
}

/// Appends the decimal numeral of `n` to `out`.
pub fn push_decimal(out: &mut String, n: u64)
    ensures
        final(out)@ == old(out)@ + decimal(n as nat),
{
    push_wide_decimal(out, n as u128);
}

/// Appends the decimal numeral of `n` to `out`.
pub fn push_wide_decimal(out: &mut String, n: u128)
    ensures
        final(out)@ == old(out)@ + decimal(n as nat),
    decreases n,
{
    if n >= 10 {
        push_wide_decimal(out, n / 10);
    }
    let t = digit_text((n % 10) as u64);
    out.append(t);
    assert(old(out)@ + decimal((n / 10) as nat) + seq![digit_char((n % 10) as nat)] =~= old(out)@
        + decimal((n / 10) as nat).push(digit_char((n % 10) as nat)));
}

/// The character that stands for one hexadecimal digit.
pub open spec fn hex_char(d: nat) -> char {
    if d < 10 {
        digit_char(d)
    } else if d == 10 {
        'a'
    } else if d == 11 {
        'b'
    } else if d == 12 {
        'c'
    } else if d == 13 {
        'd'
    } else if d == 14 {
        'e'
    } else {
        'f'
    }
}

/// The lowest `digits` hexadecimal digits of `n`, most significant first.
pub open spec fn hex(n: nat, digits: nat) -> Seq<char>
    decreases digits,
{
    if digits == 0 {
        Seq::empty()
    } else {
        hex(n / 16, (digits - 1) as nat).push(hex_char(n % 16))
    }
}

fn hex_text(d: u32) -> (t: &'static str)
    requires
        d < 16,
    ensures
        t@ == seq![hex_char(d as nat)],
{
    proof {
        reveal_strlit("a");
        reveal_strlit("b");
        reveal_strlit("c");
        reveal_strlit("d");
        reveal_strlit("e");
        reveal_strlit("f");
    }
    if d < 10 {
        return digit_text(d as u64);
    }
    let t = if d == 10 {
        "a"
    } else if d == 11 {
        "b"
    } else if d == 12 {
        "c"
    } else if d == 13 {
        "d"
    } else if d == 14 {
        "e"
    } else {
        "f"
    };
    assert(t@ =~= seq![hex_char(d as nat)]);
    t
}

/// Appends the lowest `digits` hexadecimal digits of `n`.
pub fn push_hex(out: &mut String, n: u32, digits: u32)
    ensures
        final(out)@ == old(out)@ + hex(n as nat, digits as nat),
    decreases digits,
{
    if digits > 0 {
        push_hex(out, n / 16, digits - 1);
        let t = hex_text(n % 16);
        out.append(t);
        assert(old(out)@ + hex((n / 16) as nat, (digits - 1) as nat) + seq![
            hex_char((n % 16) as nat),
        ] =~= old(out)@ + hex((n / 16) as nat, (digits - 1) as nat).push(
            hex_char((n % 16) as nat),
        ));
    } else {
        assert(old(out)@ + hex(n as nat, 0) =~= old(out)@);
    }
}

/// Whether a list of strings holds one with these characters.
pub fn has_text(list: &Vec<String>, text: &str) -> (has: bool)
    ensures
        has == crate::types::texts(list@).contains(text@),
{
    let mut i: usize = 0;
    while i < list.len()
        invariant
            i <= list@.len(),
            forall|j: int| 0 <= j < i ==> #[trigger] crate::types::texts(list@)[j] != text@,
        decreases list@.len() - i,
    {
        assert(crate::types::texts(list@)[i as int] == list@[i as int]@);
        if same_text(list[i].as_str(), text) {
            return true;
        }
        i += 1;
    }
    assert(crate::types::texts(list@).len() == list@.len());
    false
}

/// A numeral has its last digit last, before it the numeral of the tenth part, and a numeral of one
/// digit is that digit.
pub proof fn law_numerals_are_decimal(n: nat)
    ensures
        decimal(n).len() > 0,
        decimal(n).last() as int == '0' as int + n % 10,
        n < 10 ==> decimal(n).len() == 1,
        n >= 10 ==> decimal(n).drop_last() == decimal(n / 10),
{
    if n >= 10 {
        assert(decimal(n).drop_last() =~= decimal(n / 10));
    }
}

/// A hexadecimal numeral of so many digits has its last digit last and before it the digits of the
/// sixteenth part.
pub proof fn law_hex_numerals(n: nat, digits: nat)
    requires
        digits > 0,
    ensures
        hex(n, digits).len() == digits,
        hex(n, digits).last() as int == if n % 16 < 10 {
            '0' as int + n % 16
        } else {
            'a' as int + n % 16 - 10
        },
        hex(n, digits).drop_last() == hex(n / 16, (digits - 1) as nat),
    decreases digits,
{
    assert(hex(n, digits).drop_last() =~= hex(n / 16, (digits - 1) as nat));
    if digits > 1 {
        law_hex_numerals(n / 16, (digits - 1) as nat);
    }
}

/// `part` stands in `text`, beginning at `at`.
pub open spec fn stands_at(text: Seq<char>, part: Seq<char>, at: int) -> bool {
    &&& 0 <= at <= text.len() - part.len()
    &&& text.subrange(at, at + part.len()) == part
}

/// A part stands behind what was written before it, whatever is written behind it.
pub proof fn lemma_stands_at(before: Seq<char>, part: Seq<char>, behind: Seq<char>)
    ensures
        stands_at(before + part + behind, part, before.len() as int),
{
    let text = before + part + behind;
    assert(text.subrange(before.len() as int, (before.len() + part.len()) as int) =~= part);
}

} // verus!
