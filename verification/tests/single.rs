use stl_letters::{decode_single, encode_single};

#[test]
fn encode_gives_the_bits_of_the_float() {
    assert_eq!(encode_single(0), Some(0x0000_0000));
    assert_eq!(encode_single(1), Some(0x3F80_0000));
    assert_eq!(encode_single(-1), Some(0xBF80_0000));
    assert_eq!(encode_single(2), Some(0x4000_0000));
    assert_eq!(encode_single(3), Some(0x4040_0000));
    assert_eq!(encode_single(-6), Some(0xC0C0_0000));
    assert_eq!(encode_single(5), Some(0x40A0_0000));
    assert_eq!(encode_single(16_777_215), Some(0x4B7F_FFFF));
    assert_eq!(encode_single(16_777_216), Some(0x4B80_0000));
    assert_eq!(encode_single(-16_777_216), Some(0xCB80_0000));
}

#[test]
fn encode_agrees_with_the_machine() {
    let mut n: i64 = -16_777_216;
    while n <= 16_777_216 {
        assert_eq!(encode_single(n), Some((n as f32).to_bits()), "{}", n);
        n += 7;
    }
    for n in -70_000..=70_000i64 {
        assert_eq!(encode_single(n), Some((n as f32).to_bits()), "{}", n);
    }
    for e in 0..=24 {
        for d in [-2i64, -1, 0, 1, 2] {
            let n = (1i64 << e) + d;
            if n.abs() <= 16_777_216 {
                assert_eq!(encode_single(n), Some((n as f32).to_bits()), "{}", n);
                assert_eq!(encode_single(-n), Some((-n as f32).to_bits()), "{}", n);
            }
        }
    }
}

#[test]
fn encode_rejects_what_is_out_of_range() {
    assert_eq!(encode_single(16_777_217), None);
    assert_eq!(encode_single(-16_777_217), None);
    assert_eq!(encode_single(16_777_218), None);
    assert_eq!(encode_single(1 << 40), None);
    assert_eq!(encode_single(i64::MAX), None);
    assert_eq!(encode_single(i64::MIN), None);
}

#[test]
fn decode_gives_the_integer_of_the_float() {
    assert_eq!(decode_single(0x0000_0000), Some(0));
    assert_eq!(decode_single(0x8000_0000), Some(0));
    assert_eq!(decode_single(0x3F80_0000), Some(1));
    assert_eq!(decode_single(0xBF80_0000), Some(-1));
    assert_eq!(decode_single(0xC0C0_0000), Some(-6));
    assert_eq!(decode_single(0x4B7F_FFFF), Some(16_777_215));
    assert_eq!(decode_single(0x4B80_0000), Some(16_777_216));
    assert_eq!(decode_single(0xCB80_0000), Some(-16_777_216));
}

#[test]
fn decode_rejects_what_is_no_lattice_coordinate() {
    for value in [
        0.5f32,
        -0.5,
        1.5,
        0.75,
        1e-30,
        f32::MIN_POSITIVE,
        1.0e-45,
        16_777_218.0,
        -16_777_218.0,
        33_554_432.0,
        1e30,
        f32::MAX,
        f32::INFINITY,
        f32::NEG_INFINITY,
        f32::NAN,
        8_388_607.5,
        -3.25,
    ] {
        assert_eq!(decode_single(value.to_bits()), None, "{}", value);
    }
    assert_eq!(decode_single(0x0000_0001), None);
    assert_eq!(decode_single(0x8000_0001), None);
    assert_eq!(decode_single(0x7FC0_0000), None);
    assert_eq!(decode_single(0xFFFF_FFFF), None);
    assert_eq!(decode_single(0x4B80_0001), None);
}

#[test]
fn decode_agrees_with_the_machine() {
    let mut bits: u32 = 0;
    loop {
        let value = f32::from_bits(bits);
        let expected = if value.is_finite() && value.fract() == 0.0 && value.abs() <= 16_777_216.0 {
            Some(value as i64)
        } else {
            None
        };
        assert_eq!(decode_single(bits), expected, "{:#x}", bits);
        match bits.checked_add(65_521) {
            Some(next) => bits = next,
            None => break,
        }
    }
}

#[test]
fn decode_undoes_encode() {
    let mut n: i64 = -16_777_216;
    while n <= 16_777_216 {
        assert_eq!(decode_single(encode_single(n).unwrap()), Some(n));
        n += 13;
    }
    for n in [-16_777_216, -16_777_215, -1, 0, 1, 16_777_215, 16_777_216] {
        assert_eq!(decode_single(encode_single(n).unwrap()), Some(n));
    }
}
