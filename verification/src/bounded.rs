//! The fixed-capacity containers that responses are put together in.
//!
//! Nothing in this file is proved: it states what the containers of `heapless`
//! do, and hands the calls on to them.

use vstd::prelude::*;
use vstd::string::StringSliceAdditionalSpecFns;

verus! {

/// `heapless::String`, a string of at most `N` bytes.
#[verifier::external_type_specification]
#[verifier::external_body]
pub struct ExHeaplessString<const N: usize>(heapless::String<N>);

/// `heapless::Vec`, a vector of at most `N` elements.
#[verifier::external_type_specification]
#[verifier::external_body]
#[verifier::reject_recursive_types(T)]
pub struct ExHeaplessVec<T, const N: usize>(heapless::Vec<T, N>);

/// The bytes that the string holds.
pub uninterp spec fn text_8(text: heapless::String<8>) -> Seq<u8>;

/// The bytes that the string holds.
pub uninterp spec fn text_128(text: heapless::String<128>) -> Seq<u8>;

/// The bytes that the string holds.
pub uninterp spec fn text_160(text: heapless::String<160>) -> Seq<u8>;

/// The elements that the vector holds.
pub uninterp spec fn parts_8(parts: heapless::Vec<&'static str, 8>) -> Seq<&'static str>;

/// `heapless::String::new`: the string is empty.
#[verifier::external_body]
pub(crate) fn new_8() -> (text: heapless::String<8>)
    ensures
        text_8(text) == Seq::<u8>::empty(),
{
    heapless::String::new()
}

/// `heapless::String::new`: the string is empty.
#[verifier::external_body]
pub(crate) fn new_128() -> (text: heapless::String<128>)
    ensures
        text_128(text) == Seq::<u8>::empty(),
{
    heapless::String::new()
}

/// `heapless::String::new`: the string is empty.
#[verifier::external_body]
pub(crate) fn new_160() -> (text: heapless::String<160>)
    ensures
        text_160(text) == Seq::<u8>::empty(),
{
    heapless::String::new()
}

/// `heapless::String::push_str`: appends the whole piece where it fits, and
/// otherwise leaves the string as it was and says so.
#[verifier::external_body]
pub(crate) fn push_8(text: &mut heapless::String<8>, piece: &str) -> (fits: bool)
    ensures
        fits == (text_8(*old(text)).len() + piece.spec_bytes().len() <= 8),
        fits ==> text_8(*final(text)) == text_8(*old(text)) + piece.spec_bytes(),
        !fits ==> text_8(*final(text)) == text_8(*old(text)),
{
    text.push_str(piece).is_ok()
}

/// `heapless::String::push_str`: appends the whole piece where it fits, and
/// otherwise leaves the string as it was and says so.
#[verifier::external_body]
pub(crate) fn push_128(text: &mut heapless::String<128>, piece: &str) -> (fits: bool)
    ensures
        fits == (text_128(*old(text)).len() + piece.spec_bytes().len() <= 128),
        fits ==> text_128(*final(text)) == text_128(*old(text)) + piece.spec_bytes(),
        !fits ==> text_128(*final(text)) == text_128(*old(text)),
{
    text.push_str(piece).is_ok()
}

/// `heapless::String::push_str`: appends the whole piece where it fits, and
/// otherwise leaves the string as it was and says so.
#[verifier::external_body]
pub(crate) fn push_160(text: &mut heapless::String<160>, piece: &str) -> (fits: bool)
    ensures
        fits == (text_160(*old(text)).len() + piece.spec_bytes().len() <= 160),
        fits ==> text_160(*final(text)) == text_160(*old(text)) + piece.spec_bytes(),
        !fits ==> text_160(*final(text)) == text_160(*old(text)),
{
    text.push_str(piece).is_ok()
}

/// `as_bytes` of `heapless::String`, by way of `str`: the bytes that it holds.
#[verifier::external_body]
pub(crate) fn bytes_8(text: &heapless::String<8>) -> (bytes: &[u8])
    ensures
        bytes@ == text_8(*text),
{
    text.as_bytes()
}

/// `as_bytes` of `heapless::String`, by way of `str`: the bytes that it holds.
#[verifier::external_body]
pub(crate) fn bytes_160(text: &heapless::String<160>) -> (bytes: &[u8])
    ensures
        bytes@ == text_160(*text),
{
    text.as_bytes()
}

/// `heapless::Vec::new`: the vector is empty.
#[verifier::external_body]
pub(crate) fn new_parts() -> (parts: heapless::Vec<&'static str, 8>)
    ensures
        parts_8(parts) == Seq::<&'static str>::empty(),
{
    heapless::Vec::new()
}

/// `heapless::Vec::push`: appends the element where there is room for one, and
/// otherwise leaves the vector as it was and says so.
#[verifier::external_body]
pub(crate) fn push_part(parts: &mut heapless::Vec<&'static str, 8>, part: &'static str) -> (fits:
    bool)
    ensures
        fits == (parts_8(*old(parts)).len() < 8),
        fits ==> parts_8(*final(parts)) == parts_8(*old(parts)).push(part),
        !fits ==> parts_8(*final(parts)) == parts_8(*old(parts)),
{
    parts.push(part).is_ok()
}

/// `len` of `heapless::Vec`, by way of a slice: the number of its elements.
#[verifier::external_body]
pub(crate) fn parts_len(parts: &heapless::Vec<&'static str, 8>) -> (len: usize)
    ensures
        len == parts_8(*parts).len(),
{
    parts.len()
}

/// Indexing of `heapless::Vec`, by way of a slice: the element at `i`.
#[verifier::external_body]
pub(crate) fn part(parts: &heapless::Vec<&'static str, 8>, i: usize) -> (part: &'static str)
    requires
        i < parts_8(*parts).len(),
    ensures
        part == parts_8(*parts)[i as int],
{
    parts[i]
}

} // verus!
