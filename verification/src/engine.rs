//! The byte transform: every byte is combined by XOR with the keystream byte
//! at the same offset, the keystream repeating with the period of the key.

use vstd::prelude::*;
use vstd::utf8::encode_utf8;

verus! {

/// The reason for which a transform was refused.
#[derive(Clone, Copy, Debug, PartialEq, Eq, Structural)]
pub enum TransformError {
    /// The key holds no byte, so there is no keystream to combine with.
    InvalidKey,
}

/// The keystream byte that meets offset `i`: the key repeats every
/// `key.len()` bytes.
pub open spec fn keystream_at(key: Seq<u8>, i: int) -> u8
    recommends
        key.len() > 0,
        0 <= i,
{
    key[i % (key.len() as int)]
}

/// The transform as a mathematical function: a sequence as long as `data`
/// whose byte at offset `i` is `data[i] XOR key[i mod key.len()]`.
pub open spec fn xor_stream(data: Seq<u8>, key: Seq<u8>) -> Seq<u8>
    recommends
        key.len() > 0,
{
    Seq::new(data.len(), |i: int| data[i] ^ keystream_at(key, i))
}

/// Combines `data` with the repeating keystream `key`.
///
/// An empty key is refused with [`TransformError::InvalidKey`], whatever the
/// data; every other key succeeds and gives exactly `xor_stream(data, key)`.
pub fn transform(data: &[u8], key: &[u8]) -> (out: Result<Vec<u8>, TransformError>)
    ensures
        key@.len() == 0 <==> out == Err::<Vec<u8>, TransformError>(TransformError::InvalidKey),
        key@.len() > 0 <==> out is Ok,
        out matches Ok(bytes) ==> bytes@ == xor_stream(data@, key@),
{
    if key.len() == 0 {
        return Err(TransformError::InvalidKey);
    }
    let mut bytes: Vec<u8> = Vec::with_capacity(data.len());
    let mut i: usize = 0;
    while i < data.len()
        invariant
            key@.len() > 0,
            i <= data@.len(),
            bytes@.len() == i,
            forall|j: int| 0 <= j < i ==> bytes@[j] == data@[j] ^ keystream_at(key@, j),
        decreases data@.len() - i,
    {
        let k: u8 = key[i % key.len()];
        bytes.push(data[i] ^ k);
        i += 1;
    }
    Ok(bytes)
}

/// The bytes that a textual key stands for: its UTF-8 encoding is non-empty
/// exactly when the text is.
pub proof fn lemma_key_bytes_empty_iff_text_empty(key: Seq<char>)
    ensures
        encode_utf8(key).len() == 0 <==> key.len() == 0,
{
}

/// What happens to the contents of one file: they are combined with the
/// keystream that the UTF-8 bytes of `key` repeat.
///
/// An empty key is refused with [`TransformError::InvalidKey`]; every other
/// key gives `xor_stream` of the data and the key's bytes.
pub fn dencrypt_bytes(data: &[u8], key: &str) -> (out: Result<Vec<u8>, TransformError>)
    ensures
        key@.len() == 0 <==> out == Err::<Vec<u8>, TransformError>(TransformError::InvalidKey),
        key@.len() > 0 <==> out is Ok,
        out matches Ok(bytes) ==> bytes@ == xor_stream(data@, encode_utf8(key@)),
{
    proof {
        lemma_key_bytes_empty_iff_text_empty(key@);
    }
    transform(data, key.as_bytes())
}

/// Length preservation: the transform gives as many bytes as it was given,
/// for every data and every key.
pub proof fn lemma_transform_preserves_length(data: Seq<u8>, key: Seq<u8>)
    ensures
        xor_stream(data, key).len() == data.len(),
{
}

/// Keystream periodicity: with a key of length `L`, the byte at every offset
/// `i` of the result is `data[i] XOR key[i mod L]`, where `i mod L` is a
/// place in the key, and the keystream byte met `L` offsets further on is
/// the same one.
pub proof fn lemma_transform_is_periodic_xor(data: Seq<u8>, key: Seq<u8>, i: int)
    requires
        key.len() > 0,
        0 <= i < data.len(),
    ensures
        0 <= i % (key.len() as int) < key.len(),
        xor_stream(data, key)[i] == data[i] ^ key[i % (key.len() as int)],
        keystream_at(key, i + key.len()) == keystream_at(key, i),
{
    let len = key.len() as int;
    assert((i + len) % len == i % len) by (nonlinear_arith)
        requires
            len > 0,
            0 <= i,
    ;
}

/// Combining twice with the same keystream byte gives every byte back.
pub(crate) proof fn lemma_xor_stream_twice(data: Seq<u8>, key: Seq<u8>)
    ensures
        xor_stream(xor_stream(data, key), key) == data,
{
    let twice = xor_stream(xor_stream(data, key), key);
    assert forall|i: int| 0 <= i < data.len() implies twice[i] == data[i] by {
        let d: u8 = data[i];
        let k: u8 = keystream_at(key, i);
        assert((d ^ k) ^ k == d) by (bit_vector);
    }
    assert(twice =~= data);
}

/// Involution: transforming twice with the same non-empty key gives the data
/// back, whatever its length.
pub proof fn lemma_transform_is_involution(data: Seq<u8>, key: Seq<u8>)
    requires
        key.len() > 0,
    ensures
        xor_stream(xor_stream(data, key), key) == data,
{
    lemma_xor_stream_twice(data, key);
}

} // verus!
