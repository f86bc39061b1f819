//! The fixed-width, little-endian byte form of the numbers in a name accumulator.

use vstd::prelude::*;

use num_bigint_dig::BigUint;

verus! {

/// The number of bytes in the fixed-width form.
pub const UINT_BYTE_SIZE: usize = 256;

/// `num_bigint_dig::BigUint`, whose digits stay hidden.
#[verifier::external_type_specification]
#[verifier::external_body]
pub struct ExBigUint(num_bigint_dig::BigUint);

/// The number that a `BigUint` holds.
pub uninterp spec fn biguint_value(uint: num_bigint_dig::BigUint) -> nat;

/// The number that `bytes` write down, least significant byte first.
pub open spec fn le_value(bytes: Seq<u8>) -> nat
    decreases bytes.len(),
{
    if bytes.len() == 0 {
        0
    } else {
        bytes[0] as nat + 256 * le_value(bytes.drop_first())
    }
}

/// The first number that the fixed-width form has no room for.
pub open spec fn uint_bound() -> nat {
    vstd::arithmetic::power::pow(256, UINT_BYTE_SIZE as nat) as nat
}

/// `BigUint::from_bytes_le`.
///
/// Trusted: the number is the one that the bytes write down, least significant byte first.
pub assume_specification[ num_bigint_dig::BigUint::from_bytes_le ](bytes: &[u8]) -> (uint:
    num_bigint_dig::BigUint)
    ensures
        biguint_value(uint) == le_value(bytes@),
;

/// `BigUint::to_bytes_le`.
///
/// Trusted: the bytes write the number down, least significant byte first, and as few of them
/// as can be: one for zero, and else none above the last that is not zero.
pub assume_specification[ num_bigint_dig::BigUint::to_bytes_le ](
    uint: &num_bigint_dig::BigUint,
) -> (bytes: Vec<u8>)
    ensures
        le_value(bytes@) == biguint_value(*uint),
        bytes@.len() >= 1,
        bytes@.len() > 1 ==> bytes@.last() != 0,
;

/// Pads a little-endian number with zeros to the fixed width.
fn pad(bytes: &Vec<u8>) -> (padded: [u8; UINT_BYTE_SIZE])
    requires
        bytes@.len() <= UINT_BYTE_SIZE,
    ensures
        le_value(padded@) == le_value(bytes@),
{
    let mut padded: [u8; UINT_BYTE_SIZE] = [0u8; UINT_BYTE_SIZE];
    let mut i: usize = 0;
    while i < bytes.len()
        invariant
            i <= bytes@.len() <= UINT_BYTE_SIZE,
            forall|j: int| 0 <= j < i ==> padded@[j] == bytes@[j],
            forall|j: int| i <= j < UINT_BYTE_SIZE ==> padded@[j] == 0,
        decreases bytes@.len() - i,
    {
        padded[i] = bytes[i];
        i += 1;
    }
    proof {
        lemma_padding(bytes@, padded@);
    }
    padded
}

/// Gives the fixed-width form of `state`.
pub fn to_bytes_helper(state: &BigUint) -> (bytes: [u8; UINT_BYTE_SIZE])
    requires
        biguint_value(*state) < uint_bound(),
    ensures
        le_value(bytes@) == biguint_value(*state),
{
    let bytes = state.to_bytes_le();
    proof {
        lemma_fits_iff(bytes@);
    }
    pad(&bytes)
}

/// Gives the fixed-width form of `uint`, if it has room for the number.
pub fn serialize(uint: &BigUint) -> (bytes: Option<[u8; UINT_BYTE_SIZE]>)
    ensures
        bytes is Some <==> biguint_value(*uint) < uint_bound(),
        bytes matches Some(bytes) ==> le_value(bytes@) == biguint_value(*uint),
{
    let shortest = uint.to_bytes_le();
    proof {
        lemma_fits_iff(shortest@);
    }
    if shortest.len() <= UINT_BYTE_SIZE {
        Some(to_bytes_helper(uint))
    } else {
        None
    }
}

/// Reads a number from its little-endian bytes, however many there are.
pub fn deserialize(bytes: &[u8]) -> (uint: BigUint)
    ensures
        biguint_value(uint) == le_value(bytes@),
{
    BigUint::from_bytes_le(bytes)
}

/// Zeros above the last byte do not change the number.
proof fn lemma_padding(bytes: Seq<u8>, padded: Seq<u8>)
    requires
        bytes.len() <= padded.len(),
        forall|j: int| 0 <= j < bytes.len() ==> padded[j] == bytes[j],
        forall|j: int| bytes.len() <= j < padded.len() ==> padded[j] == 0,
    ensures
        le_value(padded) == le_value(bytes),
    decreases padded.len(),
{
    if padded.len() > 0 {
        if bytes.len() > 0 {
            lemma_padding(bytes.drop_first(), padded.drop_first());
        } else {
            lemma_padding(bytes, padded.drop_first());
        }
    }
}

/// A number of `n` bytes is below `256^n`, and not below `256^(n - 1)` if its last byte is not
/// zero.
proof fn lemma_bounds(bytes: Seq<u8>)
    ensures
        le_value(bytes) < vstd::arithmetic::power::pow(256, bytes.len()),
        bytes.len() > 0 && bytes.last() != 0 ==> le_value(bytes)
            >= vstd::arithmetic::power::pow(256, (bytes.len() - 1) as nat),
    decreases bytes.len(),
{
    reveal(vstd::arithmetic::power::pow);
    if bytes.len() > 0 {
        lemma_bounds(bytes.drop_first());
        if bytes.len() > 1 {
            assert(bytes.drop_first().last() == bytes.last());
        }
    }
}

/// The shortest form of a number fits the fixed width exactly if the number does.
proof fn lemma_fits_iff(shortest: Seq<u8>)
    requires
        shortest.len() >= 1,
        shortest.len() > 1 ==> shortest.last() != 0,
    ensures
        shortest.len() <= UINT_BYTE_SIZE <==> le_value(shortest) < uint_bound(),
{
    lemma_bounds(shortest);
    if shortest.len() <= UINT_BYTE_SIZE {
        vstd::arithmetic::power::lemma_pow_increases(256, shortest.len(), UINT_BYTE_SIZE as nat);
    } else {
        vstd::arithmetic::power::lemma_pow_increases(
            256,
            UINT_BYTE_SIZE as nat,
            (shortest.len() - 1) as nat,
        );
    }
    vstd::arithmetic::power::lemma_pow_positive(256, UINT_BYTE_SIZE as nat);
}

/// Two byte strings of one length that write down one number are equal: the fixed-width form
/// of a number is the only one.
pub proof fn law_fixed_width_form_is_unique(left: Seq<u8>, right: Seq<u8>)
    requires
        left.len() == right.len(),
        le_value(left) == le_value(right),
    ensures
        left == right,
    decreases left.len(),
{
    if left.len() > 0 {
        law_fixed_width_form_is_unique(left.drop_first(), right.drop_first());
        assert(left =~= seq![left[0]] + left.drop_first());
        assert(right =~= seq![right[0]] + right.drop_first());
    }
}

/// A number that is written to its fixed-width form and read back is the same number.
pub proof fn law_read_gives_back_what_was_written(
    written: num_bigint_dig::BigUint,
    bytes: Seq<u8>,
    read: num_bigint_dig::BigUint,
)
    requires
        le_value(bytes) == biguint_value(written),
        biguint_value(read) == le_value(bytes),
    ensures
        biguint_value(read) == biguint_value(written),
{
}

} // verus!
