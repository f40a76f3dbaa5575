//! Byte sequences: searching, splitting, and filling fixed buffers.

use vstd::prelude::*;

verus! {

/// `n` zero bytes.
pub open spec fn zeros(n: nat) -> Seq<u8> {
    Seq::new(n, |i: int| 0u8)
}

/// `pattern` stands in `text` at offset `i`.
pub open spec fn occurs_at(text: Seq<u8>, pattern: Seq<u8>, i: int) -> bool {
    &&& 0 <= i
    &&& i + pattern.len() <= text.len()
    &&& text.subrange(i, i + pattern.len()) == pattern
}

/// `i` is the smallest offset at which `pattern` stands in `text`.
pub open spec fn is_first_match(text: Seq<u8>, pattern: Seq<u8>, i: int) -> bool {
    &&& occurs_at(text, pattern, i)
    &&& forall|j: int| 0 <= j < i ==> !#[trigger] occurs_at(text, pattern, j)
}

/// The smallest offset at which `pattern` stands in `text`, if it occurs.
pub open spec fn first_match(text: Seq<u8>, pattern: Seq<u8>) -> Option<int> {
    if exists|i: int| is_first_match(text, pattern, i) {
        Some(choose|i: int| is_first_match(text, pattern, i))
    } else {
        None
    }
}

/// The pieces of `text` between the non-overlapping occurrences of `pattern`,
/// taken from left to right.
pub open spec fn split(text: Seq<u8>, pattern: Seq<u8>) -> Seq<Seq<u8>>
    decreases text.len(),
{
    match first_match(text, pattern) {
        Some(i) => if pattern.len() > 0 && 0 <= i && i + pattern.len() <= text.len() {
            seq![text.take(i)] + split(text.skip(i + pattern.len()), pattern)
        } else {
            seq![text]
        },
        None => seq![text],
    }
}

/// A first match is what `first_match` returns.
pub proof fn lemma_first_match_is(text: Seq<u8>, pattern: Seq<u8>, i: int)
    requires
        is_first_match(text, pattern, i),
    ensures
        first_match(text, pattern) == Some(i),
{
    let j = choose|j: int| is_first_match(text, pattern, j);
    assert(is_first_match(text, pattern, j));
    if j < i {
        assert(!occurs_at(text, pattern, j));
    }
    if i < j {
        assert(!occurs_at(text, pattern, i));
    }
}

/// `first_match` finds nothing where the pattern does not occur.
pub proof fn lemma_first_match_none(text: Seq<u8>, pattern: Seq<u8>)
    requires
        forall|i: int| !#[trigger] occurs_at(text, pattern, i),
    ensures
        first_match(text, pattern) is None,
{
}

/// A pattern that does not occur before the end of `head` occurs first right
/// behind it.
pub proof fn lemma_first_match_behind(head: Seq<u8>, pattern: Seq<u8>, tail: Seq<u8>)
    requires
        forall|i: int|
            0 <= i < head.len() ==> !#[trigger] occurs_at(head + pattern + tail, pattern, i),
    ensures
        first_match(head + pattern + tail, pattern) == Some(head.len() as int),
        (head + pattern + tail).take(head.len() as int) == head,
        (head + pattern + tail).skip(head.len() as int + pattern.len()) == tail,
{
    let text = head + pattern + tail;
    assert(text.subrange(head.len() as int, head.len() as int + pattern.len()) =~= pattern);
    lemma_first_match_is(text, pattern, head.len() as int);
    assert(text.take(head.len() as int) =~= head);
    assert(text.skip(head.len() as int + pattern.len()) =~= tail);
}

/// The bytes of `text` from `from` up to, and without, `to`.
pub fn slice(text: &[u8], from: usize, to: usize) -> (res: &[u8])
    requires
        from <= to <= text@.len(),
    ensures
        res@ == text@.subrange(from as int, to as int),
{
    vstd::slice::slice_subrange(text, from, to)
}

/// Whether `pattern` stands in `text` at offset `at`.
pub fn matches_at(text: &[u8], pattern: &[u8], at: usize) -> (res: bool)
    requires
        at <= text@.len(),
    ensures
        res == occurs_at(text@, pattern@, at as int),
{
    if pattern.len() > text.len() - at {
        return false;
    }
    let mut k: usize = 0;
    while k < pattern.len()
        invariant
            k <= pattern@.len(),
            at + pattern@.len() <= text.len(),
            forall|m: int| 0 <= m < k ==> text@[at + m] == #[trigger] pattern@[m],
        decreases pattern@.len() - k,
    {
        if text[at + k] != pattern[k] {
            assert(text@.subrange(at as int, at + pattern@.len())[k as int] == text@[at + k]);
            return false;
        }
        k += 1;
    }
    assert(text@.subrange(at as int, at + pattern@.len()) =~= pattern@);
    true
}

/// Whether `text` begins with `prefix`.
pub fn starts_with(text: &[u8], prefix: &[u8]) -> (res: bool)
    ensures
        res == prefix@.is_prefix_of(text@),
{
    matches_at(text, prefix, 0)
}

/// The offset of the first occurrence of `pattern` in `text`.
pub fn find(text: &[u8], pattern: &[u8]) -> (res: Option<usize>)
    ensures
        match res {
            Some(i) => {
                &&& first_match(text@, pattern@) == Some(i as int)
                &&& is_first_match(text@, pattern@, i as int)
                &&& i + pattern@.len() <= text.len()
            },
            None => {
                &&& first_match(text@, pattern@) is None
                &&& forall|i: int| !#[trigger] occurs_at(text@, pattern@, i)
            },
        },
{
    if pattern.len() > text.len() {
        return None;
    }
    let last = text.len() - pattern.len();
    let mut i: usize = 0;
    loop
        invariant
            i <= last,
            last == text@.len() - pattern@.len(),
            forall|j: int| 0 <= j < i ==> !#[trigger] occurs_at(text@, pattern@, j),
        decreases last - i,
    {
        if matches_at(text, pattern, i) {
            proof {
                lemma_first_match_is(text@, pattern@, i as int);
            }
            return Some(i);
        }
        if i == last {
            return None;
        }
        i += 1;
    }
}

/// Writes `bytes` over `buf` from offset `at` on.
pub fn put<const N: usize>(buf: &mut [u8; N], at: usize, bytes: &[u8])
    requires
        at + bytes@.len() <= N,
    ensures
        final(buf)@ == old(buf)@.take(at as int) + bytes@ + old(buf)@.skip(at + bytes@.len()),
{
    let ghost before = buf@;
    let mut k: usize = 0;
    while k < bytes.len()
        invariant
            k <= bytes@.len(),
            at + bytes@.len() <= N,
            before.len() == N,
            buf@ =~= before.take(at as int) + bytes@.take(k as int) + before.skip(at + k),
        decreases bytes@.len() - k,
    {
        buf[at + k] = bytes[k];
        k += 1;
    }
    assert(bytes@.take(k as int) =~= bytes@);
}

/// `n` zero bytes are `n` bytes, each of them zero.
pub proof fn law_zeros(n: nat)
    ensures
        zeros(n).len() == n,
        forall|i: int| 0 <= i < n ==> #[trigger] zeros(n)[i] == 0,
{
}

/// A pattern occurs at an offset exactly where each of its bytes stands there.
pub proof fn law_occurs_at(text: Seq<u8>, pattern: Seq<u8>, i: int)
    ensures
        occurs_at(text, pattern, i) <==> 0 <= i && i + pattern.len() <= text.len() && forall|k: int|
            0 <= k < pattern.len() ==> text[i + k] == #[trigger] pattern[k],
{
    if occurs_at(text, pattern, i) {
        assert forall|k: int| 0 <= k < pattern.len() implies text[i + k] == #[trigger] pattern[k] by {
            assert(text.subrange(i, i + pattern.len())[k] == text[i + k]);
        }
    }
    if 0 <= i && i + pattern.len() <= text.len() && forall|k: int|
        0 <= k < pattern.len() ==> text[i + k] == #[trigger] pattern[k] {
        assert(text.subrange(i, i + pattern.len()) =~= pattern);
    }
}

/// Where a pattern occurs, it has a first occurrence.
proof fn lemma_has_first(text: Seq<u8>, pattern: Seq<u8>, i: int)
    requires
        occurs_at(text, pattern, i),
    ensures
        exists|j: int| is_first_match(text, pattern, j),
    decreases i,
{
    if exists|j: int| 0 <= j < i && #[trigger] occurs_at(text, pattern, j) {
        let j = choose|j: int| 0 <= j < i && #[trigger] occurs_at(text, pattern, j);
        lemma_has_first(text, pattern, j);
    } else {
        assert(is_first_match(text, pattern, i));
    }
}

/// The first match is an offset at which the pattern stands, and before which
/// it stands nowhere; there is none exactly where the pattern stands nowhere.
pub proof fn law_first_match(text: Seq<u8>, pattern: Seq<u8>)
    ensures
        match first_match(text, pattern) {
            Some(i) => {
                &&& 0 <= i <= text.len() - pattern.len()
                &&& text.subrange(i, i + pattern.len()) == pattern
                &&& forall|j: int|
                    0 <= j < i ==> #[trigger] text.subrange(j, j + pattern.len()) != pattern
            },
            None => forall|j: int|
                0 <= j <= text.len() - pattern.len() ==> #[trigger] text.subrange(
                    j,
                    j + pattern.len(),
                ) != pattern,
        },
{
    match first_match(text, pattern) {
        Some(i) => {
            assert(is_first_match(text, pattern, i));
            assert forall|j: int| 0 <= j < i implies #[trigger] text.subrange(j, j + pattern.len())
                != pattern by {
                assert(!occurs_at(text, pattern, j));
            }
        },
        None => {
            assert forall|j: int| 0 <= j <= text.len() - pattern.len() implies #[trigger] text.subrange(
                j,
                j + pattern.len(),
            ) != pattern by {
                if occurs_at(text, pattern, j) {
                    lemma_has_first(text, pattern, j);
                }
            }
        },
    }
}

/// A text in which the pattern does not stand is one piece. Otherwise the first
/// piece ends where the pattern first stands, and the other pieces are those of
/// what follows it.
pub proof fn law_split(front: Seq<u8>, pattern: Seq<u8>, rest: Seq<u8>)
    requires
        pattern.len() > 0,
    ensures
        (forall|j: int|
            0 <= j <= front.len() - pattern.len() ==> #[trigger] front.subrange(
                j,
                j + pattern.len(),
            ) != pattern) ==> split(front, pattern) == seq![front],
        (forall|j: int|
            0 <= j < front.len() ==> #[trigger] (front + pattern + rest).subrange(
                j,
                j + pattern.len(),
            ) != pattern) ==> split(front + pattern + rest, pattern) == seq![front] + split(
            rest,
            pattern,
        ),
{
    law_first_match(front, pattern);
    let text = front + pattern + rest;
    if forall|j: int|
        0 <= j < front.len() ==> #[trigger] text.subrange(j, j + pattern.len()) != pattern {
        assert forall|i: int| 0 <= i < front.len() implies !#[trigger] occurs_at(text, pattern, i) by {
            assert(text.subrange(i, i + pattern.len()) != pattern);
        }
        lemma_first_match_behind(front, pattern, rest);
    }
}

} // verus!
