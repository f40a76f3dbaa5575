//! Decimal numbers in text: writing them, and reading them back.

use vstd::prelude::*;
use vstd::string::StringSliceAdditionalSpecFns;
use vstd::utf8::{is_leading_byte_width_1, partial_valid_utf8, valid_utf8};

use crate::bytes::slice;

verus! {

/// The shortest decimal text of `n`.
pub open spec fn decimal(n: nat) -> Seq<u8>
    decreases n,
{
    if n < 10 {
        seq![(48 + n) as u8]
    } else {
        decimal(n / 10).push((48 + n % 10) as u8)
    }
}

/// `b` is one of the digits `0` to `9`.
pub open spec fn is_digit(b: u8) -> bool {
    48 <= b <= 57
}

/// Every byte of `text` is a digit.
pub open spec fn all_digits(text: Seq<u8>) -> bool {
    forall|i: int| 0 <= i < text.len() ==> is_digit(#[trigger] text[i])
}

/// The number that a text of digits stands for.
pub open spec fn decimal_value(text: Seq<u8>) -> int
    decreases text.len(),
{
    if text.len() == 0 {
        0
    } else {
        decimal_value(text.drop_last()) * 10 + (text.last() - 48)
    }
}

/// `text` without the one plus sign that may stand in front of a number.
pub open spec fn unsigned_part(text: Seq<u8>) -> Seq<u8> {
    if text.len() > 0 && text[0] == 43 {
        text.skip(1)
    } else {
        text
    }
}

/// The 32-bit number that `text` spells: digits, at least one, behind an
/// optional plus sign. Leading zeros are accepted.
pub open spec fn u32_of(text: Seq<u8>) -> Option<u32> {
    let digits = unsigned_part(text);
    if digits.len() > 0 && all_digits(digits) && decimal_value(digits) <= u32::MAX {
        Some(decimal_value(digits) as u32)
    } else {
        None
    }
}

/// `10` to the power `k`.
pub open spec fn power_of_ten(k: nat) -> int
    decreases k,
{
    if k == 0 {
        1
    } else {
        10 * power_of_ten((k - 1) as nat)
    }
}

/// A number below `10^k` has at most `k` digits, and every number has one.
pub proof fn lemma_decimal_len(n: nat, k: nat)
    requires
        k > 0,
        n < power_of_ten(k),
    ensures
        1 <= decimal(n).len() <= k,
    decreases k,
{
    reveal_with_fuel(power_of_ten, 2);
    if n >= 10 {
        assert(n / 10 < power_of_ten((k - 1) as nat));
        assert(k > 1);
        lemma_decimal_len(n / 10, (k - 1) as nat);
    }
}

/// The text of a number has digits only, and stands for that number.
pub proof fn law_decimal_reads_back(n: nat)
    ensures
        decimal(n).len() >= 1,
        all_digits(decimal(n)),
        decimal_value(decimal(n)) == n,
    decreases n,
{
    reveal_with_fuel(decimal_value, 2);
    if n >= 10 {
        law_decimal_reads_back(n / 10);
        assert(decimal(n).drop_last() =~= decimal(n / 10));
    } else {
        assert(decimal(n).drop_last() =~= Seq::<u8>::empty());
    }
}

/// The text of a 32-bit number is read as that number.
pub proof fn law_u32_reads_back(n: u32)
    ensures
        u32_of(decimal(n as nat)) == Some(n),
{
    law_decimal_reads_back(n as nat);
    let text = decimal(n as nat);
    assert(is_digit(text[0]));
    assert(unsigned_part(text) == text);
}

proof fn lemma_decimal_value_bound(text: Seq<u8>)
    requires
        all_digits(text),
    ensures
        decimal_value(text) >= 0,
    decreases text.len(),
{
    if text.len() > 0 {
        assert(is_digit(text.last()));
        assert forall|i: int| 0 <= i < text.drop_last().len() implies is_digit(
            #[trigger] text.drop_last()[i],
        ) by {
            assert(text.drop_last()[i] == text[i]);
        }
        lemma_decimal_value_bound(text.drop_last());
    }
}

/// More digits never make a smaller number.
proof fn lemma_decimal_value_prefix(text: Seq<u8>, k: int)
    requires
        all_digits(text),
        0 <= k <= text.len(),
    ensures
        0 <= decimal_value(text.take(k)) <= decimal_value(text),
    decreases text.len(),
{
    if k == text.len() {
        assert(text.take(k) =~= text);
        lemma_decimal_value_bound(text);
    } else {
        assert(is_digit(text.last()));
        assert forall|i: int| 0 <= i < text.drop_last().len() implies is_digit(
            #[trigger] text.drop_last()[i],
        ) by {
            assert(text.drop_last()[i] == text[i]);
        }
        lemma_decimal_value_prefix(text.drop_last(), k);
        assert(text.drop_last().take(k) =~= text.take(k));
    }
}

/// Reads a 32-bit number.
pub fn parse_u32(text: &[u8]) -> (res: Option<u32>)
    ensures
        res == u32_of(text@),
{
    let start: usize = if text.len() > 0 && text[0] == 43 {
        1
    } else {
        0
    };
    let digits = slice(text, start, text.len());
    assert(digits@ =~= unsigned_part(text@));
    if digits.len() == 0 {
        return None;
    }
    let mut value: u32 = 0;
    let mut i: usize = 0;
    while i < digits.len()
        invariant
            i <= digits@.len(),
            digits@ == unsigned_part(text@),
            forall|j: int| 0 <= j < i ==> is_digit(#[trigger] digits@[j]),
            value == decimal_value(digits@.take(i as int)),
        decreases digits@.len() - i,
    {
        let b = digits[i];
        if b < 48 || b > 57 {
            assert(!is_digit(digits@[i as int]));
            return None;
        }
        let next: u64 = value as u64 * 10 + (b - 48) as u64;
        assert(digits@.take(i + 1).drop_last() =~= digits@.take(i as int));
        assert(next == decimal_value(digits@.take(i + 1)));
        if next > u32::MAX as u64 {
            proof {
                if all_digits(digits@) {
                    lemma_decimal_value_prefix(digits@, i + 1);
                }
            }
            return None;
        }
        value = next as u32;
        i += 1;
    }
    assert(digits@.take(i as int) =~= digits@);
    Some(value)
}

/// Reads bytes as text, through `core::str::from_utf8`.
///
/// Not proved here: that it accepts exactly the well-formed UTF-8 sequences,
/// and hands the same bytes out as text.
#[verifier::external_body]
pub(crate) fn text_of(bytes: &[u8]) -> (res: Option<&str>)
    ensures
        match res {
            Some(text) => valid_utf8(bytes@) && text.spec_bytes() == bytes@,
            None => !valid_utf8(bytes@),
        },
{
    core::str::from_utf8(bytes).ok()
}

proof fn lemma_digits_are_text(text: Seq<u8>)
    requires
        all_digits(text),
    ensures
        valid_utf8(text),
{
    assert forall|i: int| 0 <= i < text.len() implies #[trigger] is_leading_byte_width_1(text[i]) by {
        assert(is_digit(text[i]));
    }
    assert(text.subrange(0, 0) =~= Seq::<u8>::empty());
    assert(partial_valid_utf8(text, 0));
    vstd::utf8::partial_valid_utf8_extend_ascii_block(text, 0, text.len() as int);
    assert(text.subrange(0, text.len() as int) =~= text);
}

/// Writes the decimal text of `n` to the end of `room`, and returns it.
pub fn write_decimal(n: u64, room: &mut [u8; 20]) -> (res: &str)
    ensures
        res.spec_bytes() == decimal(n as nat),
        decimal(n as nat).len() <= 20,
        final(room)@ == old(room)@.take(20 - decimal(n as nat).len()) + decimal(n as nat),
{
    let ghost start = room@;
    let mut left = n;
    let mut at: usize = 20;
    proof {
        assert(n < power_of_ten(20)) by {
            reveal_with_fuel(power_of_ten, 21);
        }
        lemma_decimal_len(n as nat, 20);
        law_decimal_reads_back(n as nat);
    }
    assert(room@.subrange(20, 20) =~= Seq::<u8>::empty());
    assert(decimal(n as nat) =~= decimal(left as nat) + room@.subrange(20, 20));
    while left >= 10
        invariant
            at <= 20,
            decimal(n as nat).len() <= 20,
            decimal(n as nat) == decimal(left as nat) + room@.subrange(at as int, 20),
            start.len() == 20,
            room@.take(at as int) == start.take(at as int),
        decreases left,
    {
        let ghost before = room@.subrange(at as int, 20);
        assert(decimal(left as nat) == decimal((left / 10) as nat).push((48 + left % 10) as u8));
        proof {
            law_decimal_reads_back((left / 10) as nat);
        }
        at -= 1;
        room[at] = 48 + (left % 10) as u8;
        left = left / 10;
        assert(room@.subrange(at as int, 20) =~= seq![room@[at as int]] + before);
        assert(room@.take(at as int) =~= start.take(at + 1).take(at as int));
        assert(start.take(at + 1).take(at as int) =~= start.take(at as int));
        assert(decimal(n as nat) =~= decimal(left as nat) + room@.subrange(at as int, 20));
    }
    at -= 1;
    room[at] = 48 + left as u8;
    assert(room@.subrange(at as int, 20) =~= decimal(n as nat));
    assert(room@.take(at as int) =~= start.take(at + 1).take(at as int));
    assert(start.take(at + 1).take(at as int) =~= start.take(at as int));
    assert(room@ =~= start.take(at as int) + decimal(n as nat));
    let digits = slice(room, at, 20);
    proof {
        lemma_digits_are_text(digits@);
    }
    match text_of(digits) {
        Some(text) => text,
        None => "",
    }
}

/// The text of a number is made of the digits `0` to `9`, and starts with a `0`
/// only where that is all of it.
pub proof fn law_decimal_is_shortest(n: nat)
    ensures
        decimal(n).len() >= 1,
        forall|i: int| 0 <= i < decimal(n).len() ==> 48 <= #[trigger] decimal(n)[i] <= 57,
        n < 10 <==> decimal(n).len() == 1,
        n >= 10 ==> decimal(n)[0] != 48,
    decreases n,
{
    if n >= 10 {
        law_decimal_is_shortest(n / 10);
        let front = decimal(n / 10);
        assert(decimal(n) == front.push((48 + n % 10) as u8));
        assert(decimal(n)[0] == front[0]);
        if n < 100 {
            assert(front =~= seq![(48 + n / 10) as u8]);
        }
        assert forall|i: int| 0 <= i < decimal(n).len() implies 48 <= #[trigger] decimal(n)[i]
            <= 57 by {
            if i < front.len() {
                assert(decimal(n)[i] == front[i]);
            }
        }
    }
}

/// The value of a text of digits grows digit by digit: each further digit adds
/// itself to ten times what stood before it.
pub proof fn law_value_by_digit(text: Seq<u8>, digit: u8)
    ensures
        decimal_value(Seq::<u8>::empty()) == 0,
        decimal_value(text.push(digit)) == 10 * decimal_value(text) + (digit - 48),
{
    assert(text.push(digit).drop_last() =~= text);
}

/// What is read as a number: one or more of the digits `0` to `9`, behind at
/// most one `+`, as long as the value has 32 bits. The value is what is read.
pub proof fn law_what_is_a_number(text: Seq<u8>, digits: Seq<u8>)
    requires
        text.len() > 0 && text[0] == 43 ==> digits == text.skip(1),
        text.len() == 0 || text[0] != 43 ==> digits == text,
    ensures
        u32_of(text) is Some <==> {
            &&& digits.len() > 0
            &&& forall|i: int| 0 <= i < digits.len() ==> 48 <= #[trigger] digits[i] <= 57
            &&& decimal_value(digits) <= 0xffff_ffff
        },
        u32_of(text) matches Some(v) ==> v == decimal_value(digits),
{
    assert(digits == unsigned_part(text));
    if all_digits(digits) {
        lemma_decimal_value_bound(digits);
        assert forall|i: int| 0 <= i < digits.len() implies 48 <= #[trigger] digits[i] <= 57 by {
            assert(is_digit(digits[i]));
        }
    }
    if forall|i: int| 0 <= i < digits.len() ==> 48 <= #[trigger] digits[i] <= 57 {
        assert(all_digits(digits));
    }
}

/// Zeros in front of a number do not change it.
pub proof fn law_leading_zeros(n: u32, zeros: nat)
    ensures
        u32_of(Seq::new(zeros, |i: int| 48u8) + decimal(n as nat)) == Some(n),
{
    let front = Seq::new(zeros, |i: int| 48u8);
    law_decimal_reads_back(n as nat);
    lemma_zeros_in_front(zeros, decimal(n as nat));
    let text = front + decimal(n as nat);
    assert forall|i: int| 0 <= i < text.len() implies is_digit(#[trigger] text[i]) by {
        if i >= zeros {
            assert(is_digit(decimal(n as nat)[i - zeros]));
        }
    }
    assert(is_digit(text[0]));
    assert(unsigned_part(text) == text);
}

proof fn lemma_zeros_in_front(zeros: nat, text: Seq<u8>)
    ensures
        decimal_value(Seq::new(zeros, |i: int| 48u8) + text) == decimal_value(text),
    decreases zeros + text.len(),
{
    let front = Seq::new(zeros, |i: int| 48u8);
    let all = front + text;
    if text.len() > 0 {
        assert(all.drop_last() =~= front + text.drop_last());
        lemma_zeros_in_front(zeros, text.drop_last());
    } else if zeros > 0 {
        assert(all.drop_last() =~= Seq::new((zeros - 1) as nat, |i: int| 48u8) + text);
        lemma_zeros_in_front((zeros - 1) as nat, text);
    }
}

} // verus!
