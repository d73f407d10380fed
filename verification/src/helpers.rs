//! Buffer and text helpers shared by the decoders and the renderer.

use vstd::prelude::*;
use vstd::string::StringSliceAdditionalSpecFns;
use vstd::utf8::*;

verus! {

broadcast use vstd::utf8::group_utf8_lib;

/// Asks the allocator for room for `additional` more bytes, exactly.
/// Calls `Vec::try_reserve_exact`, which does nothing, and so succeeds, when
/// the capacity already suffices, as it always does for no additional bytes,
/// and which reports a capacity overflow when the bytes asked for would take
/// the vector beyond `isize::MAX` bytes. Otherwise whether the allocator
/// grants the room depends on the machine, and nothing more is promised of
/// the returned flag. The contents of the vector are left as they were
/// either way.
#[verifier::external_body]
fn try_reserve_exact_bytes(buffer: &mut Vec<u8>, additional: usize) -> (granted: bool)
    ensures
        final(buffer)@ == old(buffer)@,
        additional == 0 ==> granted,
        old(buffer)@.len() + additional > isize::MAX ==> !granted,
{
    buffer.try_reserve_exact(additional).is_ok()
}

/// What a buffer of `capacity` bytes becomes once the allocator has
/// answered: `Err(())` when the room was refused, else the buffer filled
/// with zeros up to `capacity` bytes.
fn zero_filled_if_granted(buffer: Vec<u8>, granted: bool, capacity: usize) -> (result: Result<
    Vec<u8>,
    (),
>)
    requires
        buffer@.len() == 0,
    ensures
        result is Ok <==> granted,
        result matches Ok(filled) ==> filled@ == Seq::new(capacity as nat, |i: int| 0u8),
{
    if !granted {
        return Err(());
    }
    let mut filled = buffer;
    filled.resize(capacity, 0u8);
    assert(filled@ =~= Seq::new(capacity as nat, |i: int| 0u8));
    Ok(filled)
}

/// Allocates a zero-filled buffer of `capacity` bytes without aborting when
/// the heap is exhausted: the allocation failure is reported as `Err(())`.
/// An empty buffer is always granted and one beyond `isize::MAX` bytes
/// always refused; for any other size the allocator decides.
pub fn try_heap_buffer(capacity: usize) -> (result: Result<Vec<u8>, ()>)
    ensures
        result matches Ok(buffer) ==> buffer@ == Seq::new(capacity as nat, |i: int| 0u8),
        capacity == 0 ==> result is Ok,
        capacity > isize::MAX ==> result is Err,
{
    let mut buffer: Vec<u8> = Vec::new();
    let granted = try_reserve_exact_bytes(&mut buffer, capacity);
    zero_filled_if_granted(buffer, granted, capacity)
}

/// The largest character boundary of the UTF-8 bytes `bytes` that is not
/// beyond `index` (the whole length when `index` reaches past the end).
pub open spec fn floor_boundary(bytes: Seq<u8>, index: int) -> int
    decreases index,
{
    if index >= bytes.len() {
        bytes.len() as int
    } else if index <= 0 {
        0
    } else if is_char_boundary(bytes, index) {
        index
    } else {
        floor_boundary(bytes, index - 1)
    }
}

/// The UTF-8 byte length of a character sequence.
pub open spec fn utf8_len(chars: Seq<char>) -> nat {
    encode_utf8(chars).len()
}

/// The encoding of joined texts is the joined encodings.
pub proof fn lemma_encode_utf8_concat(a: Seq<char>, b: Seq<char>)
    ensures
        encode_utf8(a + b) == encode_utf8(a) + encode_utf8(b),
        utf8_len(a + b) == utf8_len(a) + utf8_len(b),
    decreases a.len(),
{
    if a.len() == 0 {
        assert(a + b =~= b);
        assert(encode_utf8(a) =~= Seq::<u8>::empty());
        assert(encode_utf8(a) + encode_utf8(b) =~= encode_utf8(b));
    } else {
        lemma_encode_utf8_concat(a.drop_first(), b);
        assert((a + b).drop_first() =~= a.drop_first() + b);
        assert((a + b)[0] == a[0]);
        assert(encode_utf8(a + b) =~= encode_utf8(a) + encode_utf8(b));
    }
}

/// A non-empty text has a non-empty encoding.
pub proof fn lemma_nonempty_encoding(chars: Seq<char>)
    requires
        chars.len() > 0,
    ensures
        utf8_len(chars) > 0,
{
    reveal(encode_scalar);
}

proof fn lemma_floor_boundary(bytes: Seq<u8>, index: int)
    requires
        valid_utf8(bytes),
        index >= 0,
    ensures
        0 <= floor_boundary(bytes, index) <= bytes.len(),
        floor_boundary(bytes, index) <= index,
        is_char_boundary(bytes, floor_boundary(bytes, index)),
        forall|j: int|
            floor_boundary(bytes, index) < j <= index && j <= bytes.len()
                ==> !is_char_boundary(bytes, j),
    decreases index,
{
    is_char_boundary_start_end_of_seq(bytes);
    if index >= bytes.len() {
    } else if index <= 0 {
    } else if is_char_boundary(bytes, index) {
    } else {
        lemma_floor_boundary(bytes, index - 1);
    }
}

/// Index of the last character boundary of `source` at or before `index`.
pub fn floor_char_boundary(source: &str, index: usize) -> (cut: usize)
    ensures
        cut == floor_boundary(source.spec_bytes(), index as int),
        cut <= source.spec_bytes().len(),
        is_char_boundary(source.spec_bytes(), cut as int),
{
    proof {
        encode_utf8_valid_utf8(source@);
        lemma_floor_boundary(source.spec_bytes(), index as int);
    }
    let length = source.as_bytes().len();
    if index >= length {
        return length;
    }
    let mut i = index;
    while i > 0 && !source.is_char_boundary(i)
        invariant
            i <= index < source.spec_bytes().len(),
            valid_utf8(source.spec_bytes()),
            floor_boundary(source.spec_bytes(), i as int) == floor_boundary(
                source.spec_bytes(),
                index as int,
            ),
        decreases i,
    {
        i = i - 1;
    }
    proof {
        lemma_floor_boundary(source.spec_bytes(), i as int);
    }
    i
}

/// The longest prefix of `source` whose UTF-8 encoding fits in `N` bytes
/// without splitting a character.
pub fn truncate_string<const N: usize>(source: &str) -> (value: String)
    ensures
        encode_utf8(value@) == source.spec_bytes().subrange(
            0,
            floor_boundary(source.spec_bytes(), N as int),
        ),
        utf8_len(value@) <= N,
        source@.len() >= value@.len(),
        value@ == source@.subrange(0, value@.len() as int),
        utf8_len(source@) <= N ==> value@ == source@,
{
    let cut = floor_char_boundary(source, N);
    let (head, _tail) = source.split_at(cut);
    proof {
        let bytes = source.spec_bytes();
        encode_utf8_valid_utf8(source@);
        encode_utf8_decode_utf8(source@);
        encode_utf8_decode_utf8(head@);
        decode_utf8_split(bytes, cut as int);
        encode_utf8_decode_utf8(_tail@);
        lemma_floor_boundary(bytes, N as int);
        assert(source@ =~= head@ + _tail@);
        assert(head@ =~= source@.subrange(0, head@.len() as int));
        if utf8_len(source@) <= N {
            assert(_tail.spec_bytes() =~= Seq::<u8>::empty());
            assert(_tail@ =~= Seq::<char>::empty()) by {
                assert(encode_utf8(_tail@).len() == 0);
                if _tail@.len() > 0 {
                    lemma_nonempty_encoding(_tail@);
                }
            }
        }
    }
    head.to_owned()
}

} // verus!
