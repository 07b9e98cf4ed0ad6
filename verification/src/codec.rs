//! Positional codec for fixed-length arrays.
//!
//! An array of N elements is carried as an ordered sequence of exactly N
//! elements. Serializing emits the elements in index order and never
//! omits or reorders them. Deserializing consumes the first N elements of
//! the incoming sequence in order; a shorter input fails with a length
//! error naming the first missing index. Excess trailing elements are not
//! a codec-level error: they are left to the enclosing container format.

use vstd::prelude::*;

verus! {

/// Failure of a decode: the input sequence ended before the expected
/// element count was reached. `index` is the first missing index, which
/// equals the length of the short input.
#[derive(Clone, Copy, PartialEq, Eq, Structural, Debug)]
pub enum CodecError {
    InvalidLength { index: usize },
}

/// What serializing an array of elements produces: the same elements, in
/// index order.
pub open spec fn serialize_spec<T>(arr: Seq<T>) -> Seq<T> {
    arr
}

/// What deserializing with expected count `n` produces: the first `n`
/// input elements in order, or a length error naming the first missing
/// index when the input is shorter than `n`.
pub open spec fn deserialize_spec<T>(input: Seq<T>, n: nat) -> Result<Seq<T>, CodecError> {
    if input.len() >= n {
        Ok(input.subrange(0, n as int))
    } else {
        Err(CodecError::InvalidLength { index: input.len() as usize })
    }
}

/// Serialize a fixed-length array: emit its elements in index order.
pub fn serialize_array<T: Copy>(arr: &Vec<T>) -> (r: Vec<T>)
    ensures
        r@ == serialize_spec(arr@),
{
    let mut out: Vec<T> = Vec::new();
    let mut i: usize = 0;
    while i < arr.len()
        invariant
            i <= arr@.len(),
            out@ == arr@.subrange(0, i as int),
        decreases arr@.len() - i,
    {
        out.push(arr[i]);
        proof {
            assert(out@ =~= arr@.subrange(0, i + 1));
        }
        i = i + 1;
    }
    proof {
        assert(out@ =~= arr@);
    }
    out
}

/// Reconstruct an array of `N` elements from an incoming sequence.
///
/// A buffer of `N` placeholder values is built first and every slot is
/// then overwritten positionally from the input, so a placeholder never
/// survives into a successful result. An input shorter than `N` fails
/// with a length error naming the first missing index.
pub fn deserialize_array<T: Copy, const N: usize>(input: &Vec<T>, placeholder: T) -> (r: Result<
    Vec<T>,
    CodecError,
>)
    ensures
        (match r {
            Ok(arr) => deserialize_spec(input@, N as nat) == Ok::<Seq<T>, CodecError>(arr@)
                && arr@.len() == N,
            Err(e) => deserialize_spec(input@, N as nat) == Err::<Seq<T>, CodecError>(e),
        }),
        r is Ok <==> input@.len() >= N,
{
    let mut arr: Vec<T> = Vec::new();
    let mut i: usize = 0;
    while i < N
        invariant
            i <= N,
            arr@.len() == i,
            forall|j: int| 0 <= j < i ==> arr@[j] == placeholder,
        decreases N - i,
    {
        arr.push(placeholder);
        i = i + 1;
    }
    let mut k: usize = 0;
    while k < N
        invariant
            k <= N,
            arr@.len() == N,
            k <= input@.len(),
            forall|j: int| 0 <= j < k ==> arr@[j] == input@[j],
        decreases N - k,
    {
        if k >= input.len() {
            return Err(CodecError::InvalidLength { index: k });
        }
        arr.set(k, input[k]);
        k = k + 1;
    }
    proof {
        assert(arr@ =~= input@.subrange(0, N as int));
    }
    Ok(arr)
}

/// Round-trip law: deserializing a serialized array of length `n` with
/// expected count `n` yields the array back, for every element type.
pub proof fn lemma_round_trip<T>(arr: Seq<T>, n: nat)
    requires
        arr.len() == n,
    ensures
        deserialize_spec(serialize_spec(arr), n) == Ok::<Seq<T>, CodecError>(arr),
{
    assert(arr.subrange(0, n as int) =~= arr);
}

/// Length-fault law: deserializing an input shorter than the expected
/// count always fails, and the error names the first missing index,
/// which is the input's length.
pub proof fn lemma_length_fault<T>(input: Seq<T>, n: nat)
    requires
        input.len() < n,
        input.len() <= usize::MAX,
    ensures
        deserialize_spec(input, n) == Err::<Seq<T>, CodecError>(
            CodecError::InvalidLength { index: input.len() as usize },
        ),
{
}

} // verus!
