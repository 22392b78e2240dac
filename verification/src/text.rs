//! Small helpers for bytes and text: copies, decimal digits, and UTF-8
//! decoding of received bytes.

use std::string::FromUtf8Error;
use vstd::prelude::*;
use vstd::utf8::{
    encode_utf8, is_leading_byte_width_1, partial_valid_utf8,
    partial_valid_utf8_extend_ascii_block, valid_utf8,
};

verus! {

/// `std::string::FromUtf8Error`, the error of `String::from_utf8`. It is
/// only ever dropped.
#[verifier::external_type_specification]
#[verifier::external_body]
pub struct ExFromUtf8Error(FromUtf8Error);

/// `String::from_utf8`: accepts exactly the byte vectors that are valid
/// UTF-8, and the string it returns is spelled by those bytes.
pub assume_specification[ String::from_utf8 ](v: Vec<u8>) -> (r: Result<String, FromUtf8Error>)
    ensures
        r is Ok <==> valid_utf8(v@),
        r matches Ok(s) ==> encode_utf8(s@) == v@,
;

/// A copy of `bytes`.
pub fn copy_of(bytes: &[u8]) -> (v: Vec<u8>)
    ensures
        v@ == bytes@,
{
    let mut v: Vec<u8> = Vec::with_capacity(bytes.len());
    v.extend_from_slice(bytes);
    assert(v@ =~= bytes@);
    v
}

/// Bytes below `0x80` are UTF-8 as they stand.
pub proof fn lemma_ascii_is_utf8(bytes: Seq<u8>)
    requires
        forall|i: int| 0 <= i < bytes.len() ==> #[trigger] bytes[i] < 0x80,
    ensures
        valid_utf8(bytes),
{
    assert(bytes.subrange(0, 0) =~= Seq::<u8>::empty());
    assert(partial_valid_utf8(bytes, 0));
    assert forall|i: int| 0 <= 0 <= i < bytes.len() <= bytes.len() implies #[trigger]
        is_leading_byte_width_1(bytes[i]) by {}
    partial_valid_utf8_extend_ascii_block(bytes, 0, bytes.len() as int);
    assert(bytes.subrange(0, bytes.len() as int) =~= bytes);
}

/// The ASCII digits of `n` in base ten, without leading zeros.
pub open spec fn decimal(n: nat) -> Seq<u8>
    decreases n,
{
    if n < 10 {
        seq![(0x30 + n) as u8]
    } else {
        decimal(n / 10).push((0x30 + n % 10) as u8)
    }
}

/// A decimal rendering is made of digits only and is never empty; a 64-bit
/// number takes at most twenty of them.
pub proof fn lemma_decimal_digits(n: nat)
    ensures
        1 <= decimal(n).len(),
        n < 10 ==> decimal(n).len() == 1,
        n < 100 ==> decimal(n).len() <= 2,
        n < 1000 ==> decimal(n).len() <= 3,
        n < 100000 ==> decimal(n).len() <= 5,
        n <= u64::MAX ==> decimal(n).len() <= 20,
        forall|i: int| 0 <= i < decimal(n).len() ==> 0x30 <= #[trigger] decimal(n)[i] <= 0x39,
    decreases n,
{
    reveal_with_fuel(decimal, 21);
    if n >= 10 {
        lemma_decimal_digits(n / 10);
    }
}

/// Appends the decimal digits of `n`.
pub fn push_decimal(out: &mut Vec<u8>, n: u64)
    ensures
        final(out)@ == old(out)@ + decimal(n as nat),
{
    let mut digits: Vec<u8> = Vec::new();
    let mut rest: u64 = n;
    // least significant digit first
    while rest >= 10
        invariant
            forall|head: Seq<u8>| #[trigger]
                (head + decimal(rest as nat) + digits@.reverse()) == head + decimal(n as nat),
        decreases rest,
    {
        let d: u8 = (rest % 10) as u8 + 0x30;
        proof {
            let prev = digits@;
            assert forall|head: Seq<u8>| #[trigger]
                (head + decimal((rest / 10) as nat) + prev.push(d).reverse()) == head + decimal(
                    n as nat,
                ) by {
                assert(decimal(rest as nat) == decimal((rest / 10) as nat).push(d));
                assert(prev.push(d).reverse() =~= seq![d] + prev.reverse());
                assert(head + decimal((rest / 10) as nat) + prev.push(d).reverse() =~= head
                    + decimal(rest as nat) + prev.reverse());
            }
        }
        digits.push(d);
        rest = rest / 10;
    }
    let ghost start = out@;
    out.push(rest as u8 + 0x30);
    assert(out@ =~= start + decimal(rest as nat));
    let mut i: usize = digits.len();
    while i > 0
        invariant
            i <= digits@.len(),
            out@ == start + decimal(rest as nat) + digits@.reverse().subrange(
                0,
                digits@.len() - i,
            ),
        decreases i,
    {
        i = i - 1;
        out.push(digits[i]);
        assert(out@ =~= start + decimal(rest as nat) + digits@.reverse().subrange(
            0,
            digits@.len() - i,
        ));
    }
    assert(digits@.reverse().subrange(0, digits@.len() as int) =~= digits@.reverse());
}

} // verus!
