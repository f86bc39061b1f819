//! Digests and the nibbles that they are read by.

use vstd::prelude::*;
use vstd::std_specs::cmp::PartialEqSpec;

use sha3::Digest;

use crate::common::{HashOutput, HASH_BYTE_SIZE};
use crate::error::HamtError;
use crate::text::{decimal_string, hex_digit};

verus! {

/// The number of nibbles in a digest.
pub const MAX_CURSOR_DEPTH: usize = 64;

/// The nibble at position `index` of `digest`: the high half of a byte comes before its
/// low half.
pub open spec fn nibble_at(digest: Seq<u8>, index: int) -> u8
    recommends
        0 <= index < digest.len() * 2,
{
    if index % 2 == 0 {
        digest[index / 2] / 16
    } else {
        digest[index / 2] % 16
    }
}

/// The nibbles of `digest`, first to last.
pub open spec fn nibbles_of(digest: Seq<u8>) -> Seq<u8> {
    Seq::new(digest.len() * 2, |i: int| nibble_at(digest, i))
}

/// Two digests with the same nibbles are the same.
pub proof fn law_nibbles_tell_digests_apart(left: Seq<u8>, right: Seq<u8>)
    requires
        nibbles_of(left) == nibbles_of(right),
    ensures
        left == right,
{
    assert(nibbles_of(left).len() == left.len() * 2);
    assert(nibbles_of(right).len() == right.len() * 2);
    assert forall|i: int| 0 <= i < left.len() implies left[i] == right[i] by {
        assert(nibbles_of(left)[2 * i] == nibble_at(left, 2 * i));
        assert(nibbles_of(right)[2 * i] == nibble_at(right, 2 * i));
        assert(nibbles_of(left)[2 * i + 1] == nibble_at(left, 2 * i + 1));
        assert(nibbles_of(right)[2 * i + 1] == nibble_at(right, 2 * i + 1));
        assert((2 * i) / 2 == i && (2 * i + 1) / 2 == i);
    }
    assert(left =~= right);
}

/// The digest that SHA3-256 gives for `data`.
pub uninterp spec fn sha3_256(data: Seq<u8>) -> Seq<u8>;

/// Hashes `data` with `sha3::Sha3_256`: a fresh hasher, one `update`, then `finalize`.
///
/// Trusted: the digest depends on the bytes of `data` alone.
#[verifier::external_body]
fn sha3_256_digest(data: &[u8]) -> (digest: HashOutput)
    ensures
        digest@ == sha3_256(data@),
{
    let mut hasher = sha3::Sha3_256::default();
    hasher.update(data);
    hasher.finalize().into()
}

/// The ability to generate a digest of some data.
pub trait Hasher {
    /// The digest of `data`.
    spec fn digest_of(data: Seq<u8>) -> Seq<u8>;

    /// Generates the digest of `data`.
    fn hash(data: &[u8]) -> (digest: HashOutput)
        ensures
            digest@ == Self::digest_of(data@),
    ;
}

/// The SHA3-256 hash function.
pub struct Sha3_256;

impl Hasher for Sha3_256 {
    open spec fn digest_of(data: Seq<u8>) -> Seq<u8> {
        sha3_256(data)
    }

    fn hash(data: &[u8]) -> HashOutput {
        sha3_256_digest(data)
    }
}

/// A digest with a cursor that goes over its nibbles.
pub struct HashNibbles<'a> {
    pub digest: &'a HashOutput,
    cursor: usize,
}

impl<'a> HashNibbles<'a> {
    /// The bytes of the digest.
    pub closed spec fn bytes(&self) -> Seq<u8> {
        self.digest@
    }

    /// The position of the cursor.
    pub closed spec fn position(&self) -> usize {
        self.cursor
    }

    /// Creates a cursor over `digest` that starts at its first nibble.
    pub fn new(digest: &'a HashOutput) -> (nibbles: HashNibbles<'a>)
        ensures
            nibbles.bytes() == digest@,
            nibbles.position() == 0,
    {
        Self::with_cursor(digest, 0)
    }

    /// Creates a cursor over `digest` that starts at `cursor`.
    pub fn with_cursor(digest: &'a HashOutput, cursor: usize) -> (nibbles: HashNibbles<'a>)
        ensures
            nibbles.bytes() == digest@,
            nibbles.position() == cursor,
    {
        HashNibbles { digest, cursor }
    }

    /// Gives the next nibble and moves on, or `None` at the end.
    pub fn next(&mut self) -> (nibble: Option<u8>)
        ensures
            final(self).bytes() == old(self).bytes(),
            old(self).position() < MAX_CURSOR_DEPTH ==> {
                &&& nibble == Some(nibble_at(old(self).bytes(), old(self).position() as int))
                &&& final(self).position() == old(self).position() + 1
            },
            old(self).position() >= MAX_CURSOR_DEPTH ==> {
                &&& nibble is None
                &&& final(self).position() == old(self).position()
            },
    {
        if self.cursor >= MAX_CURSOR_DEPTH {
            return None;
        }
        let byte: u8 = self.digest[self.cursor / 2];
        let nibble: u8 = if self.cursor % 2 == 0 {
            byte >> 4
        } else {
            byte & 0b0000_1111
        };
        proof {
            lemma_halves(byte);
        }
        self.cursor += 1;
        Some(nibble)
    }

    /// Gives the next nibble, or an error at the end.
    pub fn try_next(&mut self) -> (nibble: Result<usize, HamtError>)
        ensures
            final(self).bytes() == old(self).bytes(),
            old(self).position() < MAX_CURSOR_DEPTH ==> {
                &&& nibble == Ok::<usize, HamtError>(
                    nibble_at(old(self).bytes(), old(self).position() as int) as usize,
                )
                &&& final(self).position() == old(self).position() + 1
            },
            old(self).position() >= MAX_CURSOR_DEPTH ==> {
                &&& nibble == Err::<usize, HamtError>(HamtError::CursorOutOfBounds)
                &&& final(self).position() == old(self).position()
            },
    {
        match self.next() {
            Some(nibble) => Ok(nibble as usize),
            None => Err(HamtError::CursorOutOfBounds),
        }
    }

    /// Gives the position of the cursor.
    pub fn get_cursor(&self) -> (cursor: usize)
        ensures
            cursor == self.position(),
    {
        self.cursor
    }

    /// Gives the text that stands for the cursor in diagnostics: all nibbles of the digest as
    /// hexadecimal digits, and the position.
    pub fn debug_string(&self) -> (text: String)
        ensures
            text@ == "HashNibbles { hash: \""@ + crate::text::hex_chars(nibbles_of(self.bytes()))
                + "\", cursor: "@ + crate::text::decimal_chars(self.position() as nat) + " }"@,
    {
        let mut hash = String::new();
        let mut nibbles = HashNibbles::with_cursor(self.digest, 0);
        let ghost all = nibbles_of(self.digest@);
        while nibbles.cursor < MAX_CURSOR_DEPTH
            invariant
                nibbles.cursor <= MAX_CURSOR_DEPTH,
                nibbles.digest == self.digest,
                all == nibbles_of(self.digest@),
                all.len() == MAX_CURSOR_DEPTH,
                hash@ == crate::text::hex_chars(all.take(nibbles.cursor as int)),
            decreases MAX_CURSOR_DEPTH - nibbles.cursor,
        {
            let ghost at = nibbles.cursor as int;
            if let Some(nibble) = nibbles.next() {
                assert(all.take(at + 1) =~= all.take(at).push(nibble));
                assert(crate::text::hex_chars(all.take(at + 1)) =~= crate::text::hex_chars(
                    all.take(at),
                ) + seq![crate::text::hex_char(nibble)]);
                hash.append(hex_digit(nibble));
            }
        }
        assert(all.take(MAX_CURSOR_DEPTH as int) =~= all);
        let mut text = "HashNibbles { hash: \"".to_owned();
        text.append(hash.as_str());
        text.append("\", cursor: ");
        let cursor = decimal_string(self.cursor);
        text.append(cursor.as_str());
        text.append(" }");
        text
    }
}

impl<'a> Clone for HashNibbles<'a> {
    fn clone(&self) -> (copy: Self)
        ensures
            copy.bytes() == self.bytes(),
            copy.position() == self.position(),
    {
        HashNibbles { digest: self.digest, cursor: self.cursor }
    }
}

/// The first nibbles of a digest: a position in a trie.
pub struct HashKey {
    pub digest: HashOutput,
    length: u8,
}

/// The number of nibbles of a key that claims `length` of them: no more than a digest holds.
pub open spec fn nibble_count(length: u8) -> int {
    if length <= MAX_CURSOR_DEPTH {
        length as int
    } else {
        MAX_CURSOR_DEPTH as int
    }
}

impl View for HashKey {
    type V = Seq<u8>;

    /// The nibbles of the key. A key that claims more nibbles than a digest holds has just
    /// those of the digest.
    open spec fn view(&self) -> Seq<u8> {
        nibbles_of(self.bytes()).take(nibble_count(self.length()))
    }
}

/// The bytes of a key of `length` nibbles after a nibble was pushed to its end.
pub open spec fn pushed(bytes: Seq<u8>, length: int, nibble: u8) -> Seq<u8> {
    bytes.update(
        length / 2,
        if length % 2 == 0 {
            (nibble % 16 * 16) as u8
        } else {
            (bytes[length / 2] / 16 * 16 + nibble % 16) as u8
        },
    )
}

/// The bytes and the length of a key after nibbles were pushed to its end, first to last, or
/// `None` where the key has no room for them.
pub open spec fn pushed_all(bytes: Seq<u8>, length: int, nibbles: Seq<u8>) -> Option<
    (Seq<u8>, int),
>
    decreases nibbles.len(),
{
    if nibbles.len() == 0 {
        Some((bytes, length))
    } else if length >= MAX_CURSOR_DEPTH {
        None
    } else {
        pushed_all(pushed(bytes, length, nibbles[0]), length + 1, nibbles.drop_first())
    }
}

/// A pushed nibble is the one at the end, and those before it stay.
proof fn lemma_pushed(bytes: Seq<u8>, length: int, nibble: u8)
    requires
        bytes.len() == HASH_BYTE_SIZE,
        0 <= length < MAX_CURSOR_DEPTH,
    ensures
        nibbles_of(pushed(bytes, length, nibble)).take(length + 1) == nibbles_of(bytes).take(
            length,
        ).push(nibble % 16),
{
    let after = pushed(bytes, length, nibble);
    assert forall|i: int| 0 <= i < length implies nibble_at(after, i) == nibble_at(bytes, i) by {}
    assert(nibble_at(after, length) == nibble % 16);
    assert(nibbles_of(after).take(length + 1) =~= nibbles_of(bytes).take(length).push(nibble % 16));
}

/// A key takes as many nibbles as a digest has room for, and no more. What is pushed, the low
/// half of each nibble, follows what was there, in order.
pub proof fn law_key_takes_the_nibbles_of_a_digest(
    bytes: Seq<u8>,
    length: int,
    nibbles: Seq<u8>,
)
    requires
        bytes.len() == HASH_BYTE_SIZE,
        0 <= length <= MAX_CURSOR_DEPTH,
    ensures
        pushed_all(bytes, length, nibbles) is Some <==> length + nibbles.len() <= MAX_CURSOR_DEPTH,
        pushed_all(bytes, length, nibbles) matches Some((after, count)) ==> {
            &&& after.len() == HASH_BYTE_SIZE
            &&& count == length + nibbles.len()
            &&& nibbles_of(after).take(count) == nibbles_of(bytes).take(length)
                + nibbles.map_values(|nibble: u8| nibble % 16)
        },
    decreases nibbles.len(),
{
    let low = nibbles.map_values(|nibble: u8| nibble % 16);
    if nibbles.len() == 0 {
        assert(nibbles_of(bytes).take(length) + low =~= nibbles_of(bytes).take(length));
    } else if length < MAX_CURSOR_DEPTH {
        let rest = nibbles.drop_first();
        lemma_pushed(bytes, length, nibbles[0]);
        law_key_takes_the_nibbles_of_a_digest(
            pushed(bytes, length, nibbles[0]),
            length + 1,
            rest,
        );
        assert(nibbles_of(bytes).take(length).push(nibbles[0] % 16) + rest.map_values(
            |nibble: u8| nibble % 16,
        ) =~= nibbles_of(bytes).take(length) + low);
    }
}

/// Pushing the nibbles of a key, first to last, onto a key without nibbles gives a key with the
/// same nibbles.
pub proof fn law_key_is_rebuilt_from_its_nibbles(key: HashKey)
    ensures
        pushed_all(Seq::new(HASH_BYTE_SIZE as nat, |i: int| 0u8), 0, key@) matches Some(
            (bytes, length),
        ) && nibbles_of(bytes).take(length) == key@,
{
    let empty: Seq<u8> = Seq::new(HASH_BYTE_SIZE as nat, |i: int| 0u8);
    key.lemma_nibbles();
    law_key_takes_the_nibbles_of_a_digest(empty, 0, key@);
    assert(nibbles_of(empty).take(0) + key@.map_values(|nibble: u8| nibble % 16) =~= key@);
}

/// Two keys are equal if they have as many nibbles and the same ones. What the digests hold
/// behind them does not matter.
pub proof fn law_equal_keys_have_equal_nibbles(left: HashKey, right: HashKey)
    ensures
        left.eq_spec(&right) <==> nibble_count(left.length()) == nibble_count(right.length())
            && forall|i: int|
            0 <= i < nibble_count(left.length()) ==> nibble_at(left.bytes(), i) == nibble_at(
                right.bytes(),
                i,
            ),
{
    left.lemma_nibbles();
    right.lemma_nibbles();
    if left@ == right@ {
        assert forall|i: int| 0 <= i < left@.len() implies nibble_at(left.bytes(), i) == nibble_at(
            right.bytes(),
            i,
        ) by {
            assert(left@[i] == right@[i]);
        }
    } else if left@.len() == right@.len() && forall|i: int|
        0 <= i < left@.len() ==> nibble_at(left.bytes(), i) == nibble_at(right.bytes(), i) {
        assert(left@ =~= right@);
    }
}

impl HashKey {
    /// The bytes that hold the nibbles, two to a byte: those of `digest`.
    pub closed spec fn bytes(&self) -> Seq<u8> {
        self.digest@
    }

    /// The number of nibbles that the key claims.
    pub closed spec fn length(&self) -> u8 {
        self.length
    }

    /// The bytes are those of a digest, and the nibbles are as many as the key claims, as far as
    /// a digest holds them.
    pub proof fn lemma_nibbles(&self)
        ensures
            self.bytes().len() == HASH_BYTE_SIZE,
            self@ == nibbles_of(self.bytes()).take(nibble_count(self.length())),
            self@.len() == nibble_count(self.length()),
            forall|i: int| 0 <= i < self@.len() ==> #[trigger] self@[i] < 16,
    {
    }

    /// Creates a key of the first `length` nibbles of `digest`.
    pub fn with_length(digest: HashOutput, length: u8) -> (key: HashKey)
        ensures
            key.bytes() == digest@,
            key.length() == length,
            key@ == nibbles_of(digest@).take(nibble_count(length)),
    {
        HashKey { digest, length }
    }

    /// Pushes a nibble to the end of the key: the low half of `nibble`. There has to be room for
    /// it in the digest.
    pub fn push(&mut self, nibble: u8)
        requires
            old(self).length() < MAX_CURSOR_DEPTH,
        ensures
            final(self).length() == old(self).length() + 1,
            final(self).bytes() == pushed(old(self).bytes(), old(self).length() as int, nibble),
            final(self)@ == old(self)@.push(nibble % 16),
    {
        let offset: usize = self.length as usize / 2;
        let before: u8 = self.digest[offset];
        let byte: u8 = if self.length as usize % 2 == 0 {
            nibble << 4
        } else {
            (before & 0xF0) | (nibble & 0x0F)
        };
        proof {
            lemma_push(before, nibble);
            lemma_pushed(self.bytes(), self.length as int, nibble);
        }
        self.digest[offset] = byte;
        self.length += 1;
        assert(self.bytes() =~= pushed(old(self).bytes(), old(self).length as int, nibble));
    }

    /// Gives the number of nibbles that the key claims.
    pub fn len(&self) -> (length: usize)
        ensures
            length == self.length(),
            self@.len() == nibble_count(self.length()),
    {
        self.length as usize
    }

    /// Tells whether the key has no nibbles.
    pub fn is_empty(&self) -> (empty: bool)
        ensures
            empty == (self@.len() == 0),
            empty == (self.length() == 0),
    {
        self.length == 0
    }

    /// Gives the nibble at `index`, if the key has one there.
    pub fn get(&self, index: u8) -> (nibble: Option<u8>)
        ensures
            nibble == if index < self@.len() {
                Some(self@[index as int])
            } else {
                None
            },
    {
        if index >= self.length {
            return None;
        }
        let offset: usize = index as usize / 2;
        if offset >= HASH_BYTE_SIZE {
            return None;
        }
        let byte: u8 = self.digest[offset];
        proof {
            lemma_halves(byte);
        }
        Some(
            if index % 2 == 0 {
                byte >> 4
            } else {
                byte & 0x0F
            },
        )
    }

    /// Creates an iterator over the nibbles of the key.
    pub fn iter(&self) -> (iterator: HashKeyIterator<'_>)
        ensures
            iterator.nibbles() == self@,
            iterator.nibbles().len() == nibble_count(self.length()),
            iterator.position() == 0,
    {
        HashKeyIterator { hash_key: self, cursor: 0 }
    }

    /// Gives the text that stands for the key in diagnostics: its nibbles as hexadecimal
    /// digits behind `0x`.
    pub fn debug_string(&self) -> (text: String)
        ensures
            text@ == "0x"@ + crate::text::hex_chars(self@),
    {
        let mut text = "0x".to_owned();
        let mut nibbles = self.iter();
        let ghost all = self@;
        assert(crate::text::hex_chars(all.take(0)) =~= Seq::<char>::empty());
        assert(text@ =~= "0x"@ + crate::text::hex_chars(all.take(0)));
        loop
            invariant
                nibbles.nibbles() == all,
                nibbles.position() <= all.len(),
                text@ == "0x"@ + crate::text::hex_chars(all.take(nibbles.position() as int)),
            ensures
                nibbles.position() == all.len(),
            decreases all.len() - nibbles.position(),
        {
            let ghost at = nibbles.position() as int;
            match nibbles.next() {
                Some(nibble) => {
                    assert(all.take(at + 1) =~= all.take(at).push(nibble));
                    assert(crate::text::hex_chars(all.take(at + 1)) =~= crate::text::hex_chars(
                        all.take(at),
                    ).push(crate::text::hex_char(nibble)));
                    text.append(hex_digit(nibble));
                    assert(text@ =~= "0x"@ + crate::text::hex_chars(all.take(at + 1)));
                },
                None => {
                    break;
                },
            }
        }
        assert(all.take(all.len() as int) =~= all);
        text
    }
}

impl Default for HashKey {
    /// Creates a key without nibbles.
    fn default() -> (key: Self)
        ensures
            key.length() == 0,
            key@ == Seq::<u8>::empty(),
            key.bytes() == Seq::new(HASH_BYTE_SIZE as nat, |i: int| 0u8),
    {
        let key = HashKey { digest: [0u8; HASH_BYTE_SIZE], length: 0 };
        assert(key.digest@ =~= Seq::new(HASH_BYTE_SIZE as nat, |i: int| 0u8));
        key
    }
}

impl Clone for HashKey {
    fn clone(&self) -> (copy: Self)
        ensures
            copy == *self,
    {
        HashKey { digest: self.digest, length: self.length }
    }
}

impl vstd::std_specs::cmp::PartialEqSpecImpl for HashKey {
    open spec fn obeys_eq_spec() -> bool {
        true
    }

    /// Two keys are equal when they have the same nibbles, whatever bytes follow them.
    open spec fn eq_spec(&self, other: &Self) -> bool {
        self@ == other@
    }
}

impl PartialEq for HashKey {
    fn eq(&self, other: &Self) -> (equal: bool) {
        let mut ours = self.iter();
        let mut theirs = other.iter();
        loop
            invariant
                ours.nibbles() == self@,
                theirs.nibbles() == other@,
                ours.position() == theirs.position(),
                ours.position() <= self@.len(),
                theirs.position() <= other@.len(),
                forall|i: int| 0 <= i < ours.position() ==> self@[i] == other@[i],
            decreases self@.len() - ours.position(),
        {
            match (ours.next(), theirs.next()) {
                (Some(a), Some(b)) => {
                    if a != b {
                        return false;
                    }
                },
                (None, None) => {
                    assert(self@ =~= other@);
                    return true;
                },
                _ => {
                    return false;
                },
            }
        }
    }
}

/// A cursor over the nibbles of a key.
pub struct HashKeyIterator<'a> {
    pub hash_key: &'a HashKey,
    cursor: u8,
}

impl<'a> HashKeyIterator<'a> {
    /// The nibbles that the cursor goes over.
    pub closed spec fn nibbles(&self) -> Seq<u8> {
        self.hash_key@
    }

    /// The position of the cursor.
    pub closed spec fn position(&self) -> u8 {
        self.cursor
    }

    /// Gives the next nibble and moves on, or `None` at the end.
    pub fn next(&mut self) -> (nibble: Option<u8>)
        ensures
            final(self).nibbles() == old(self).nibbles(),
            old(self).position() < old(self).nibbles().len() ==> {
                &&& nibble == Some(old(self).nibbles()[old(self).position() as int])
                &&& nibble->0 < 16
                &&& final(self).position() == old(self).position() + 1
            },
            old(self).position() >= old(self).nibbles().len() ==> {
                &&& nibble is None
                &&& final(self).position() == old(self).position()
            },
    {
        if self.cursor >= self.hash_key.length {
            return None;
        }
        match self.hash_key.get(self.cursor) {
            Some(nibble) => {
                self.cursor += 1;
                Some(nibble)
            },
            None => None,
        }
    }
}

impl<'a> Clone for HashKeyIterator<'a> {
    fn clone(&self) -> (copy: Self)
        ensures
            copy.nibbles() == self.nibbles(),
            copy.position() == self.position(),
    {
        HashKeyIterator { hash_key: self.hash_key, cursor: self.cursor }
    }
}

/// The two halves of a byte, by shifting and by dividing.
proof fn lemma_halves(byte: u8)
    ensures
        byte >> 4 == byte / 16,
        byte & 0b0000_1111 == byte % 16,
{
    assert(byte >> 4 == byte / 16) by (bit_vector);
    assert(byte & 0b0000_1111 == byte % 16) by (bit_vector);
}

/// What pushing `nibble` makes of a byte, in its even and in its odd half.
proof fn lemma_push(byte: u8, nibble: u8)
    ensures
        nibble << 4 == (nibble % 16) * 16,
        (byte & 0xF0) | (nibble & 0x0F) == byte / 16 * 16 + nibble % 16,
{
    assert(nibble << 4 == (nibble % 16) * 16) by (bit_vector);
    assert((byte & 0xF0) | (nibble & 0x0F) == byte / 16 * 16 + nibble % 16) by (bit_vector);
}

/// Two nibbles in a row are the halves of one byte, the high one first.
pub proof fn law_nibbles_are_the_halves_of_bytes(digest: Seq<u8>, index: int)
    requires
        0 <= index < digest.len(),
    ensures
        nibbles_of(digest).len() == 2 * digest.len(),
        nibbles_of(digest)[2 * index] < 16,
        nibbles_of(digest)[2 * index + 1] < 16,
        16 * nibbles_of(digest)[2 * index] + nibbles_of(digest)[2 * index + 1] == digest[index],
        nibbles_of(digest)[2 * index] == nibble_at(digest, 2 * index),
        nibbles_of(digest)[2 * index + 1] == nibble_at(digest, 2 * index + 1),
{
    assert((2 * index) / 2 == index && (2 * index + 1) / 2 == index);
}

/// A key has as many nibbles as it claims, and no more than a digest has. They are the first ones
/// of its bytes.
pub proof fn law_key_has_the_nibbles_that_it_claims(key: HashKey)
    ensures
        key.length() <= 64 ==> key@.len() == key.length(),
        key.length() > 64 ==> key@.len() == 64,
        forall|i: int| 0 <= i < key@.len() ==> #[trigger] key@[i] == nibbles_of(key.bytes())[i],
{
    key.lemma_nibbles();
}

} // verus!
