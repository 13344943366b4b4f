use rugmat::float::RawFloat;
use rugmat::rugmat::RugMat;
use rugmat::rugmat_io::LoadError;

fn sample() -> RugMat {
    let pi = RawFloat::from_parts(
        128,
        false,
        2,
        vec![0xc4c6628b80dc1cd1, 0xc90fdaa22168c234],
    )
    .unwrap();
    let minus_sqrt2 = RawFloat::from_parts(65, true, 1, vec![0x8000000000000000, 0xb504f333f9de6484]).unwrap();
    RugMat::from_vecvec(vec![
        vec![pi, RawFloat::zero(128), RawFloat::one(16)],
        vec![minus_sqrt2, RawFloat::one(4096), RawFloat::zero(64)],
    ])
}

fn assert_same(a: &RugMat, b: &RugMat) {
    assert_eq!(a.rows, b.rows);
    assert_eq!(a.cols, b.cols);
    assert_eq!(a.data, b.data);
}

#[test]
fn stored_matrix_loads_back() {
    let m = sample();
    let bytes = m.to_bytes();
    let back = RugMat::from_bytes(&bytes).expect("load failed");
    assert_same(&m, &back);
    for (a, b) in m.data.iter().zip(&back.data) {
        assert_eq!(a.prec(), b.prec());
    }
}

#[test]
fn empty_matrices_load_back() {
    for (rows, cols) in [(0usize, 0usize), (0, 4), (3, 0)] {
        let m = RugMat::new(rows, cols, 64);
        let bytes = m.to_bytes();
        assert_eq!(bytes.len(), 23 + 32);
        let back = RugMat::from_bytes(&bytes).unwrap();
        assert_same(&m, &back);
    }
}

#[test]
fn layout_is_header_body_trailer() {
    let m = RugMat::from_vecvec(vec![vec![RawFloat::one(64)]]);
    let bytes = m.to_bytes();
    assert_eq!(&bytes[..6], b"RUGMAT");
    assert_eq!(bytes[6], 1);
    assert_eq!(&bytes[7..15], &1u64.to_le_bytes());
    assert_eq!(&bytes[15..23], &1u64.to_le_bytes());
    assert_eq!(&bytes[23..31], &29u64.to_le_bytes());
    let entry: Vec<u8> = vec![
        64, 0, 0, 0, 1, 1, 0, 0, 0, 0, 0, 0, 0, 1, 0, 0, 0, 0, 0, 0, 0, 0, 0, 0, 0, 0, 0, 0, 0x80,
    ];
    assert_eq!(&bytes[31..60], &entry[..]);
    assert_eq!(bytes.len(), 60 + 32);
}

#[test]
fn dimensions_are_stored_rows_first() {
    let bytes = RugMat::new(2, 5, 64).to_bytes();
    assert_eq!(&bytes[7..15], &2u64.to_le_bytes());
    assert_eq!(&bytes[15..23], &5u64.to_le_bytes());
}

#[test]
fn trailer_is_the_hash_of_the_body() {
    let bytes = sample().to_bytes();
    let body = &bytes[23..bytes.len() - 32];
    assert_eq!(&bytes[bytes.len() - 32..], blake3::hash(body).as_bytes());
}

#[test]
fn trailer_of_an_empty_body_is_the_hash_of_nothing() {
    let bytes = RugMat::new(0, 0, 64).to_bytes();
    let expected: [u8; 32] = [
        0xaf, 0x13, 0x49, 0xb9, 0xf5, 0xf9, 0xa1, 0xa6, 0xa0, 0x40, 0x4d, 0xea, 0x36, 0xdc, 0xc9,
        0x49, 0x9b, 0xcb, 0x25, 0xc9, 0xad, 0xc1, 0x12, 0xb7, 0xcc, 0x9a, 0x93, 0xca, 0xe4, 0x1f,
        0x32, 0x62,
    ];
    assert_eq!(&bytes[23..], &expected[..]);
}

#[test]
fn any_changed_trailer_byte_is_a_checksum_mismatch() {
    let bytes = sample().to_bytes();
    for k in bytes.len() - 32..bytes.len() {
        for flip in [0x01u8, 0x80, 0xFF] {
            let mut bad = bytes.clone();
            bad[k] ^= flip;
            assert_eq!(RugMat::from_bytes(&bad).err(), Some(LoadError::ChecksumMismatch));
        }
    }
}

#[test]
fn changed_limb_is_a_checksum_mismatch() {
    let bytes = sample().to_bytes();
    let mut bad = bytes.clone();
    // Last byte of the body: the top byte of the last entry's limb.
    let at = bytes.len() - 33;
    bad[at] ^= 0x40;
    assert_eq!(RugMat::from_bytes(&bad).err(), Some(LoadError::ChecksumMismatch));
}

#[test]
fn any_truncation_ends_early() {
    let bytes = sample().to_bytes();
    for len in 0..bytes.len() {
        assert_eq!(
            RugMat::from_bytes(&bytes[..len]).err(),
            Some(LoadError::UnexpectedEof),
            "length {}",
            len
        );
    }
}

#[test]
fn truncation_before_the_last_entry_ends_early() {
    let m = sample();
    let bytes = m.to_bytes();
    let mut last = Vec::new();
    rugmat::float_serializer::write_float(&mut last, &m.data[m.data.len() - 1]);
    let cut = bytes.len() - 32 - last.len() - 8;
    assert_eq!(RugMat::from_bytes(&bytes[..cut]).err(), Some(LoadError::UnexpectedEof));
}

#[test]
fn bad_magic_is_rejected() {
    let mut bytes = sample().to_bytes();
    bytes[0] = b'X';
    assert_eq!(RugMat::from_bytes(&bytes).err(), Some(LoadError::BadMagic));
    let mut bytes = sample().to_bytes();
    bytes[5] = b't';
    assert_eq!(RugMat::from_bytes(&bytes).err(), Some(LoadError::BadMagic));
    assert_eq!(RugMat::from_bytes(b"RUGMAX").err(), Some(LoadError::BadMagic));
    assert_eq!(RugMat::from_bytes(b"RUGMA").err(), Some(LoadError::UnexpectedEof));
}

#[test]
fn other_versions_are_rejected() {
    for version in [0u8, 2, 255] {
        let mut bytes = sample().to_bytes();
        bytes[6] = version;
        assert_eq!(RugMat::from_bytes(&bytes).err(), Some(LoadError::UnsupportedVersion));
    }
    assert_eq!(RugMat::from_bytes(b"RUGMAT").err(), Some(LoadError::UnexpectedEof));
}

#[test]
fn entry_that_is_no_float_is_rejected() {
    // One entry of 21 bytes whose precision is zero.
    let mut bytes = Vec::new();
    bytes.extend_from_slice(b"RUGMAT");
    bytes.push(1);
    bytes.extend_from_slice(&1u64.to_le_bytes());
    bytes.extend_from_slice(&1u64.to_le_bytes());
    bytes.extend_from_slice(&21u64.to_le_bytes());
    bytes.extend_from_slice(&[0u8; 21]);
    bytes.extend_from_slice(&[0u8; 32]);
    assert_eq!(RugMat::from_bytes(&bytes).err(), Some(LoadError::InvalidEntry));
}

#[test]
fn entry_shorter_than_its_float_ends_early() {
    // The entry says 25 bytes, the float inside needs 29.
    let mut float = Vec::new();
    rugmat::float_serializer::write_float(&mut float, &RawFloat::one(64));
    let mut bytes = Vec::new();
    bytes.extend_from_slice(b"RUGMAT");
    bytes.push(1);
    bytes.extend_from_slice(&1u64.to_le_bytes());
    bytes.extend_from_slice(&1u64.to_le_bytes());
    bytes.extend_from_slice(&25u64.to_le_bytes());
    bytes.extend_from_slice(&float[..25]);
    bytes.extend_from_slice(&[0u8; 64]);
    assert_eq!(RugMat::from_bytes(&bytes).err(), Some(LoadError::UnexpectedEof));
}

#[test]
fn more_entries_than_bytes_ends_early() {
    let mut bytes = Vec::new();
    bytes.extend_from_slice(b"RUGMAT");
    bytes.push(1);
    bytes.extend_from_slice(&(u32::MAX as u64).to_le_bytes());
    bytes.extend_from_slice(&(u32::MAX as u64).to_le_bytes());
    bytes.extend_from_slice(&[0u8; 100]);
    let err = RugMat::from_bytes(&bytes).err();
    assert!(err == Some(LoadError::UnexpectedEof) || err == Some(LoadError::InvalidEntry));
}

#[test]
fn bytes_after_the_trailer_are_ignored() {
    let m = sample();
    let mut bytes = m.to_bytes();
    bytes.extend_from_slice(&[9, 9, 9]);
    assert_same(&m, &RugMat::from_bytes(&bytes).unwrap());
}

#[test]
fn entry_may_be_longer_than_its_float() {
    let mut float = Vec::new();
    rugmat::float_serializer::write_float(&mut float, &RawFloat::one(64));
    let mut body = Vec::new();
    body.extend_from_slice(&31u64.to_le_bytes());
    body.extend_from_slice(&float);
    body.extend_from_slice(&[7, 7]);
    let mut bytes = Vec::new();
    bytes.extend_from_slice(b"RUGMAT");
    bytes.push(1);
    bytes.extend_from_slice(&1u64.to_le_bytes());
    bytes.extend_from_slice(&1u64.to_le_bytes());
    bytes.extend_from_slice(&body);
    bytes.extend_from_slice(blake3::hash(&body).as_bytes());
    let m = RugMat::from_bytes(&bytes).unwrap();
    assert_eq!((m.rows, m.cols), (1, 1));
    assert!(m.data[0] == RawFloat::one(64));
}

#[test]
fn load_errors_are_told_apart() {
    assert!(!LoadError::UnexpectedEof.is_invalid_data());
    for e in [
        LoadError::BadMagic,
        LoadError::UnsupportedVersion,
        LoadError::InvalidEntry,
        LoadError::TooLarge,
        LoadError::ChecksumMismatch,
    ] {
        assert!(e.is_invalid_data());
    }
    assert_eq!(LoadError::BadMagic.message(), "bad magic");
    assert_eq!(LoadError::UnsupportedVersion.message(), "unsupported version");
    assert_eq!(LoadError::ChecksumMismatch.message(), "checksum mismatch");
}
