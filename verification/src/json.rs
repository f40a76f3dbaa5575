//! The JSON text of settings.

use vstd::prelude::*;
use vstd::string::StringSliceAdditionalSpecFns;

use crate::decimal::decimal;

verus! {

/// Error of `serde_json_core` when it writes JSON.
#[verifier::external_type_specification]
#[verifier::external_body]
pub struct ExSerError(serde_json_core::ser::Error);

/// Error of `serde_json_core` when it reads JSON.
#[verifier::external_type_specification]
#[verifier::external_body]
pub struct ExDeError(serde_json_core::de::Error);

/// Printable ASCII that JSON writes as it stands, without an escape.
pub open spec fn needs_no_escape(key: Seq<u8>) -> bool {
    forall|i: int| 0 <= i < key.len() ==> {
        &&& 32 <= #[trigger] key[i] < 128
        &&& key[i] != 34
        &&& key[i] != 92
    }
}

/// The JSON object with one member, a number: `{"key":value}`.
pub open spec fn json_object(key: Seq<u8>, value: u32) -> Seq<u8> {
    seq![123u8, 34] + key + seq![34u8, 58] + decimal(value as nat) + seq![125u8]
}

/// `after` is `before` with the first `k` bytes of `text` written over its
/// front.
pub open spec fn has_written(before: Seq<u8>, after: Seq<u8>, text: Seq<u8>, k: int) -> bool {
    &&& 0 <= k <= before.len()
    &&& k <= text.len()
    &&& after == text.take(k) + before.skip(k)
}

/// Writes a JSON object with one number to the front of `buf`, through
/// `serde_json_core::to_slice` on a map with one entry.
///
/// Not proved here: that the text is `{"key":value}` without spaces and with
/// the number in its shortest form, that the call fails exactly where this is
/// longer than `buf`, that its length is what is returned, and that the bytes
/// behind it stay as they were; and that a failed call has written no more than
/// some beginning of the text. How much of it is not said.
#[verifier::external_body]
pub(crate) fn object_to_slice(key: &str, value: u32, buf: &mut [u8]) -> (res: Result<
    usize,
    serde_json_core::ser::Error,
>)
    requires
        needs_no_escape(key.spec_bytes()),
    ensures
        final(buf)@.len() == old(buf)@.len(),
        res is Ok <==> json_object(key.spec_bytes(), value).len() <= old(buf)@.len(),
        res matches Ok(n) ==> {
            &&& n == json_object(key.spec_bytes(), value).len()
            &&& final(buf)@ == json_object(key.spec_bytes(), value) + old(buf)@.skip(n as int)
        },
        res is Err ==> exists|k: int|
            has_written(old(buf)@, final(buf)@, json_object(key.spec_bytes(), value), k),
{
    let mut object: heapless::LinearMap<&str, u32, 1> = heapless::LinearMap::new();
    let _ = object.insert(key, value);
    serde_json_core::to_slice(&object, buf)
}

/// Where a text was written in part, some beginning of it stands in front, and
/// behind that nothing has changed.
pub proof fn law_partly_written(before: Seq<u8>, after: Seq<u8>, text: Seq<u8>, k: int)
    requires
        has_written(before, after, text, k),
    ensures
        after.len() == before.len(),
        0 <= k <= text.len(),
        forall|i: int| 0 <= i < k ==> #[trigger] after[i] == text[i],
        forall|i: int| k <= i < after.len() ==> #[trigger] after[i] == before[i],
{
}

} // verus!
