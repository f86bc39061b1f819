use wnfs::common::{HashOutput, HASH_BYTE_SIZE};
use wnfs::error::HamtError;
use wnfs::hash::{HashKey, HashNibbles, Hasher, Sha3_256, MAX_CURSOR_DEPTH};

#[test]
fn hash_nibbles_can_cursor_over_digest() {
    let key = {
        let mut bytes = [0u8; HASH_BYTE_SIZE];
        bytes[0] = 0b1000_1100;
        bytes[1] = 0b1010_1010;
        bytes[2] = 0b1011_1111;
        bytes[3] = 0b1111_1101;
        bytes
    };

    let hashnibbles = &mut HashNibbles::new(&key);
    let expected_nibbles = [
        0b1000, 0b1100, 0b1010, 0b1010, 0b1011, 0b1111, 0b1111, 0b1101,
    ];

    for expected in expected_nibbles.into_iter() {
        let got = hashnibbles.next().unwrap();
        assert_eq!(expected, got);
    }

    // Exhaust the cursor.
    for _ in 0..MAX_CURSOR_DEPTH - expected_nibbles.len() {
        let _ = hashnibbles.next();
    }

    assert_eq!(hashnibbles.next(), None);
}

#[test]
fn can_push_and_get_nibbles_from_hashkey() {
    let mut hashkey = HashKey::default();
    for i in 0..HASH_BYTE_SIZE {
        hashkey.push((i % 16) as u8);
        hashkey.push((15 - i % 16) as u8);
    }

    for i in 0..HASH_BYTE_SIZE {
        assert_eq!(hashkey.get(i as u8 * 2).unwrap(), (i % 16) as u8);
        assert_eq!(hashkey.get(i as u8 * 2 + 1).unwrap(), (15 - i % 16) as u8);
    }
}

fn counting_digest() -> HashOutput {
    let mut digest = [0u8; HASH_BYTE_SIZE];
    for (i, byte) in digest.iter_mut().enumerate() {
        *byte = i as u8;
    }
    digest
}

#[test]
fn nibbles_are_high_half_first() {
    let digest = counting_digest();
    let mut nibbles = HashNibbles::with_cursor(&digest, 60);
    assert_eq!(nibbles.get_cursor(), 60);
    assert_eq!(nibbles.try_next(), Ok(1));
    assert_eq!(nibbles.try_next(), Ok(14));
    assert_eq!(nibbles.try_next(), Ok(1));
    assert_eq!(nibbles.try_next(), Ok(15));
    assert_eq!(nibbles.try_next(), Err(HamtError::CursorOutOfBounds));
    assert_eq!(nibbles.try_next(), Err(HamtError::CursorOutOfBounds));
    assert_eq!(nibbles.get_cursor(), MAX_CURSOR_DEPTH);
}

#[test]
fn cursor_past_the_digest_gives_nothing() {
    let digest = counting_digest();
    let mut nibbles = HashNibbles::with_cursor(&digest, 1000);
    assert_eq!(nibbles.next(), None);
    assert_eq!(nibbles.get_cursor(), 1000);
}

#[test]
fn nibbles_are_shown_as_text() {
    let digest = counting_digest();
    let nibbles = HashNibbles::with_cursor(&digest, 7);
    assert_eq!(
        nibbles.debug_string(),
        "HashNibbles { hash: \"000102030405060708090A0B0C0D0E0F101112131415161718191A1B1C1D1E1F\", cursor: 7 }"
    );
    let copy = nibbles.clone();
    assert_eq!(copy.get_cursor(), 7);
}

#[test]
fn sha3_256_of_known_texts() {
    assert_eq!(
        Sha3_256::hash(b"abc"),
        [
            0x3a, 0x98, 0x5d, 0xa7, 0x4f, 0xe2, 0x25, 0xb2, 0x04, 0x5c, 0x17, 0x2d, 0x6b, 0xd3,
            0x90, 0xbd, 0x85, 0x5f, 0x08, 0x6e, 0x3e, 0x9d, 0x52, 0x5b, 0x46, 0xbf, 0xe2, 0x45,
            0x11, 0x43, 0x15, 0x32
        ]
    );
    assert_eq!(Sha3_256::hash(b"")[..4], [0xa7, 0xff, 0xc6, 0xf8]);
}

#[test]
fn empty_key_has_no_nibbles() {
    let key = HashKey::default();
    assert!(key.is_empty());
    assert_eq!(key.len(), 0);
    assert_eq!(key.get(0), None);
    assert_eq!(key.debug_string(), "0x");
    assert_eq!(key.iter().next(), None);
}

#[test]
fn key_with_length_ends_there() {
    let key = HashKey::with_length(counting_digest(), 5);
    assert_eq!(key.len(), 5);
    assert_eq!(key.get(4), Some(0));
    assert_eq!(key.get(3), Some(1));
    assert_eq!(key.get(5), None);
    assert_eq!(key.debug_string(), "0x00010");
}

#[test]
fn key_iterator_gives_each_nibble_once() {
    let mut key = HashKey::default();
    for nibble in [0xA, 0xB, 0x1C] {
        key.push(nibble);
    }
    let mut nibbles = key.iter();
    assert_eq!(nibbles.next(), Some(0xA));
    assert_eq!(nibbles.next(), Some(0xB));
    // Only the low half of what is pushed counts.
    assert_eq!(nibbles.next(), Some(0xC));
    assert_eq!(nibbles.next(), None);
    assert_eq!(key.debug_string(), "0xABC");
}

#[test]
fn keys_are_equal_nibble_by_nibble() {
    let mut digest = counting_digest();
    let left = HashKey::with_length(digest, 6);
    digest[3] = 0xFF;
    let right = HashKey::with_length(digest, 6);
    assert!(left == right);
    assert!(left != HashKey::with_length(digest, 7));
    assert!(left.clone() == left);
}

#[test]
fn digests_that_differ_differ_in_a_nibble() {
    let digest = counting_digest();
    let mut other = digest;
    other[31] ^= 0x10;
    let mut left = HashNibbles::new(&digest);
    let mut right = HashNibbles::new(&other);
    let mut differing = Vec::new();
    for i in 0..MAX_CURSOR_DEPTH {
        if left.next() != right.next() {
            differing.push(i);
        }
    }
    assert_eq!(differing, vec![62]);
}

#[test]
fn pushed_nibble_is_the_one_at_the_end() {
    let mut key = HashKey::with_length([0xFF; 32], 1);
    key.push(3);
    assert_eq!(key.len(), 2);
    assert_eq!(key.get(0), Some(0x0F));
    assert_eq!(key.get(1), Some(3));
    assert_eq!(key.digest[0], 0xF3);
    assert_eq!(key.digest[1..], [0xFF; 31]);
    key.push(0x47);
    assert_eq!(key.get(2), Some(7));
    assert_eq!(key.digest[1], 0x70);
    assert_eq!(key.digest[2..], [0xFF; 30]);
}

#[test]
fn empty_key_takes_the_nibbles_of_a_digest() {
    let mut key = HashKey::default();
    for i in 0..MAX_CURSOR_DEPTH {
        assert_eq!(key.len(), i);
        key.push(i as u8);
    }
    assert_eq!(key.len(), 64);
    for i in 0..64u8 {
        assert_eq!(key.get(i), Some(i % 16));
    }
    assert_eq!(key.get(64), None);
}

#[test]
fn key_is_rebuilt_from_its_nibbles() {
    for length in [0u8, 1, 7, 64, 200] {
        let key = HashKey::with_length(counting_digest(), length);
        let mut rebuilt = HashKey::default();
        let mut nibbles = key.iter();
        let mut count: u8 = 0;
        while let Some(nibble) = nibbles.next() {
            assert_eq!(key.get(count), Some(nibble));
            rebuilt.push(nibble);
            count += 1;
        }
        assert_eq!(count, length.min(64));
        assert!(rebuilt == key);
    }
}

#[test]
fn bytes_behind_a_key_do_not_matter() {
    assert!(HashKey::with_length([0xAB; 32], 1) == HashKey::with_length([0xAC; 32], 1));
    assert!(HashKey::with_length([0xAB; 32], 2) != HashKey::with_length([0xAC; 32], 2));
    assert!(HashKey::with_length([0xAB; 32], 1) != HashKey::with_length([0xAB; 32], 2));
}
