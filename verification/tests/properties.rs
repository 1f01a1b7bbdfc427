use uuid64::{normalize, Uuid, Uuid4, U64Error};

/// A few 128-bit payloads spread over the value range.
fn sample_values() -> Vec<u128> {
    vec![
        0,
        1,
        0x00000000000000800040000000000000,
        u128::MAX,
        0x0123456789abcdef0123456789abcdef,
        0xdeadbeefdeadbeefdeadbeefdeadbeef,
        1 << 127,
        (1 << 71) | (1 << 54),
    ]
}

#[test]
fn round_trip_all_text_encodings() {
    for v in sample_values() {
        let sut = Uuid4::from(v);
        let n = sut.uuid0();
        assert_eq!(n, normalize(v));
        let hex = sut.as_hex_string();
        assert_eq!(Uuid4::try_from(hex.as_str()).unwrap().uuid0(), n);
        let canonical = sut.as_uuid().unwrap();
        assert_eq!(Uuid4::try_from(canonical.as_str()).unwrap().uuid0(), n);
        let base64 = sut.as_base64().unwrap();
        assert_eq!(Uuid4::try_from(base64.as_str()).unwrap().uuid0(), n);
    }
}

#[test]
fn round_trip_binary_form() {
    for v in sample_values() {
        let sut = Uuid4::from(v);
        let n = sut.uuid0();
        let bytes = n.to_le_bytes();
        assert_eq!(Uuid4::from_bytes16(&bytes).uuid0(), n);
        assert_eq!(Uuid4::try_from_bytes(&bytes[..]).unwrap().uuid0(), n);
    }
}

#[test]
fn normalize_is_idempotent() {
    for v in sample_values() {
        assert_eq!(normalize(normalize(v)), normalize(v));
    }
}

#[test]
fn normalize_pins_version_and_variant() {
    assert_eq!(
        normalize(0xffffffffffffffffffffffffffffffff),
        0xffffffffffffffbfff4fffffffffffff
    );
    assert_eq!(normalize(0), 0x00000000000000800040000000000000);
    for v in sample_values() {
        let n = normalize(v);
        assert_eq!((n >> 52) & 0xf, 4, "version nibble");
        assert_eq!((n >> 70) & 3, 2, "variant bits");
        // Every other bit passes through unmodified.
        let mask = !((0xfu128 << 52) | (3u128 << 70));
        assert_eq!(n & mask, v & mask);
    }
}

#[test]
fn constructed_instances_carry_the_markers() {
    let mut rng = rand::thread_rng();
    let witnesses = vec![
        Uuid4::new(None),
        Uuid4::new(Some(&mut rng)),
        Uuid4::default(),
        Uuid4::from(u128::MAX),
        Uuid4::from(&[7u8; 16]),
        Uuid4::try_from("00000000000000800040000000000000").unwrap(),
    ];
    for sut in witnesses {
        let n = sut.uuid0();
        assert_eq!((n >> 52) & 0xf, 4);
        assert_eq!((n >> 70) & 3, 2);
    }
}

#[test]
fn length_dispatch_is_total() {
    for len in 0..100usize {
        let bytes = vec![b'0'; len];
        let r = Uuid4::try_from_bytes(&bytes);
        match len {
            16 | 22 | 32 | 36 => {
                // A recognized length never reports a length error.
                if let Err(e) = r {
                    assert!(!matches!(e, U64Error::InvalidStrLength(_)), "len {}", len);
                }
            }
            n => assert_eq!(r.unwrap_err(), U64Error::InvalidStrLength(n)),
        }
    }
}

#[test]
fn canonical_output_shape() {
    for v in sample_values() {
        let s = Uuid4::from(v).as_uuid().unwrap();
        assert_eq!(s.len(), 36);
        for (i, c) in s.chars().enumerate() {
            if i == 8 || i == 13 || i == 18 || i == 23 {
                assert_eq!(c, '-');
            } else {
                assert!(c.is_ascii_hexdigit() && c != '-');
            }
        }
    }
}

#[test]
fn fixed_size_decoders_match_dispatch() {
    let hex: &[u8; 32] = b"ffffffffffffffbfff4fffffffffffff";
    assert_eq!(
        Uuid4::from_hex32(hex).unwrap().uuid0(),
        0xffffffffffffffbfff4fffffffffffff
    );
    let canonical: &[u8; 36] = b"ffffffff-ffff-ffbf-ff4f-ffffffffffff";
    assert_eq!(
        Uuid4::from_canonical(canonical).unwrap().uuid0(),
        0xffffffffffffffbfff4fffffffffffff
    );
    let base64: &[u8; 22] = b"D_________v_9P________";
    assert_eq!(
        Uuid4::from_base64_22(base64).unwrap().uuid0(),
        0xffffffffffffffbfff4fffffffffffff
    );
}

#[test]
fn non_utf8_input_reports_utf8_error() {
    let mut bytes = [b'0'; 32];
    bytes[31] = 0xff;
    assert_eq!(
        Uuid4::try_from_bytes(&bytes[..]).unwrap_err(),
        U64Error::InvalidUtf8String
    );
    let mut bytes = [b'0'; 36];
    bytes[0] = 0xc3;
    assert_eq!(
        Uuid4::from_canonical(&bytes).unwrap_err(),
        U64Error::InvalidUtf8String
    );
}

#[test]
fn multibyte_utf8_is_valid_text_but_bad_hex() {
    // "é" encodes as two bytes, so the 32 bytes are valid UTF-8 but not hex.
    let mut s = String::from("é");
    s.push_str(&"0".repeat(30));
    assert_eq!(s.len(), 32);
    assert_eq!(
        Uuid4::try_from(s.as_str()).unwrap_err(),
        U64Error::InvalidHexString
    );
}

#[test]
fn uppercase_hex_digits_are_accepted() {
    let sut = Uuid4::try_from("FFFFFFFFFFFFFFBFFF4FFFFFFFFFFFFF").unwrap();
    assert_eq!(sut.uuid0(), 0xffffffffffffffbfff4fffffffffffff);
}

#[test]
fn canonical_decode_strips_first_four_hyphens_anywhere() {
    let d = "ffffffffffffffbfff4fffffffffffff";
    let expected = 0xffffffffffffffbfff4fffffffffffffu128;
    // Hyphens in the wrong places are tolerated: only the remainder counts.
    let scattered = format!("-{}-{}--{}", &d[..10], &d[10..20], &d[20..]);
    assert_eq!(scattered.len(), 36);
    assert_eq!(Uuid4::try_from(scattered.as_str()).unwrap().uuid0(), expected);
    // A fifth hyphen survives the strip and is not hex.
    let five = format!("-----{}", &d[..31]);
    assert_eq!(five.len(), 36);
    assert_eq!(
        Uuid4::try_from(five.as_str()).unwrap_err(),
        U64Error::InvalidUuidString
    );
    // Fewer than four hyphens: the remaining 35 digits all count, and the
    // leading zeros keep the value inside 128 bits.
    let one = format!("000{}-", d);
    assert_eq!(one.len(), 36);
    assert_eq!(Uuid4::try_from(one.as_str()).unwrap().uuid0(), expected);
    // Without enough leading zeros the remaining digits overflow.
    let overflowing = format!("00{}0-", d);
    assert_eq!(overflowing.len(), 36);
    assert_eq!(
        Uuid4::try_from(overflowing.as_str()).unwrap_err(),
        U64Error::InvalidUuidString
    );
}

#[test]
fn base64_rejects_standard_alphabet_padding() {
    for input in ["AAAAAAAAAAgABAAAAAAAA/", "AAAAAAAAAAgABAAAAAAAA=", "AAAAAAAAAAgABAAAAAAAA."] {
        assert_eq!(
            Uuid4::try_from(input).unwrap_err(),
            U64Error::InvalidBase64String
        );
    }
}

#[test]
fn base64_decode_ignores_the_four_padding_bits() {
    // 'E' is 000100 in the alphabet: its top four bits are padding, so the
    // decoded value equals the one for 'A' (000000).
    let a = Uuid4::try_from("AAAAAAAAAAgABAAAAAAAAA").unwrap();
    let e = Uuid4::try_from("EAAAAAAAAAgABAAAAAAAAA").unwrap();
    assert_eq!(a.uuid0(), e.uuid0());
}

#[test]
fn direct_access_bypasses_normalization() {
    let mut sut = Uuid4::default();
    sut.set_uuid0(123);
    assert_eq!(sut.uuid0(), 123);
    assert_eq!(sut.as_hex_string(), format!("{:0>32x}", 123u128));
}

#[test]
fn generated_values_have_the_encoded_lengths() {
    let sut = Uuid4::new(None);
    assert_eq!(sut.as_base64().unwrap().len(), 22);
    assert_eq!(sut.as_hex_string().len(), 32);
    assert_eq!(sut.as_uuid().unwrap().len(), 36);
}
