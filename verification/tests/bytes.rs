use libspl::util::{pad_slice, HexToBytesError};
use libspl::{HexToBytes, Pad, Repeat, Side};
use rand::{thread_rng, Rng};

#[test]
fn left_padded() {
    let mut rng = thread_rng();
    let (a, b, c, d) = (
        rng.gen::<u8>(),
        rng.gen::<u8>(),
        rng.gen::<u8>(),
        rng.gen::<u8>(),
    );
    let string = [a, b, c, d];

    assert_eq!(
        [&[0u8; 28], &string as &[u8]].concat(),
        string.pad::<32>(Side::Left).to_vec()
    );
    assert_eq!(
        [&[b'1'; 28], &string as &[u8]].concat(),
        string.pad_with::<32>(Side::Left, b'1').to_vec(),
    );
}

#[test]
fn hexbytes() {
    assert_eq!(
        0x10203040u32.hex_to_bytes(),
        &[0x10u8, 0x20u8, 0x30u8, 0x40u8]
    );
}

#[test]
fn right_padded_hexbytes() {
    assert_eq!(
        &(0x12030i32.hex_to_bytes().pad::<4>(Side::Right)) as &[u8],
        &[0x01, 0x20, 0x30, 0]
    );
}

#[test]
fn pad_both() {
    let mut rng = thread_rng();
    let (a, b, c, d) = (
        rng.gen::<u8>(),
        rng.gen::<u8>(),
        rng.gen::<u8>(),
        rng.gen::<u8>(),
    );
    let string = [a, b, c, d];
    assert_eq!(
        string.pad_both::<8, 16>(),
        [0, 0, 0, 0, a, b, c, d, 0, 0, 0, 0, 0, 0, 0, 0]
    );

    assert_eq!(string.pad_both_with::<16, 8>(b'1'), *b"11111111");
}

#[test]
fn repeat_random() {
    let rand = thread_rng().gen::<u8>();
    let expected = {
        let mut r = rand as u64;
        for exponent in (2..=14).step_by(2) {
            r += rand as u64 * 0x10u64.pow(exponent);
        }
        r
    };
    let actual = u64::from_repeated(rand);
    assert_eq!(expected, actual);
}

#[test]
fn repeat_fills_every_unit() {
    let byte = 0x7fu8;
    assert_eq!(u16::from_repeated(byte), 0x7f7f);
    assert_eq!(u32::from_repeated(byte), 0x7f7f7f7f);
    assert_eq!(u64::from_repeated(byte), 0x7f7f7f7f7f7f7f7f);
    assert_eq!(u32::from_repeated(0xbeefu16), 0xbeefbeef);
    assert_eq!(u64::from_repeated(0xbeefu16), 0xbeefbeefbeefbeef);
    assert_eq!(u64::from_repeated(0xdeadbeefu32), 0xdeadbeefdeadbeef);
    assert_eq!(u64::from_repeated(0u8), 0);
    assert_eq!(u64::from_repeated(0xffu8), u64::MAX);
}

#[test]
fn hex_bytes_of_small_and_large_numbers() {
    assert_eq!(0u8.hex_to_bytes(), vec![0u8]);
    assert_eq!(0xfu8.hex_to_bytes(), vec![0x0fu8]);
    assert_eq!(0x100u16.hex_to_bytes(), vec![0x01u8, 0x00]);
    assert_eq!(0xabcu32.hex_to_bytes(), vec![0x0au8, 0xbc]);
    assert_eq!(
        u64::MAX.hex_to_bytes(),
        vec![0xffu8, 0xff, 0xff, 0xff, 0xff, 0xff, 0xff, 0xff]
    );
    assert_eq!((-1i32).hex_to_bytes(), vec![0xffu8, 0xff, 0xff, 0xff]);
    assert_eq!((-2i32).hex_to_bytes(), vec![0xffu8, 0xff, 0xff, 0xfe]);
    assert_eq!(i32::MIN.hex_to_bytes(), vec![0x80u8, 0, 0, 0]);
}

#[test]
fn hex_bytes_match_the_formatted_digits() {
    for n in [0u32, 1, 0x7f, 0xff, 0x100, 0x12030, 0xdead_beef, u32::MAX] {
        let mut digits = format!("{:x}", n);
        if digits.len() % 2 == 1 {
            digits = format!("0{}", digits);
        }
        let expected: Vec<u8> = digits
            .as_bytes()
            .chunks(2)
            .map(|pair| u8::from_str_radix(std::str::from_utf8(pair).unwrap(), 16).unwrap())
            .collect();
        assert_eq!(n.hex_to_bytes(), expected);
    }
}

#[test]
fn padding_cuts_longer_strings() {
    let bytes: Vec<u8> = vec![1, 2, 3, 4, 5];
    assert_eq!(bytes.clone().pad_with::<3>(Side::Right, 9), [1, 2, 3]);
    assert_eq!(bytes.clone().pad_with::<3>(Side::Left, 9), [3, 4, 5]);
    assert_eq!(bytes.clone().pad_with::<5>(Side::Left, 9), [1, 2, 3, 4, 5]);
    assert_eq!(bytes.clone().pad_with::<0>(Side::Left, 9), [0u8; 0]);
    assert_eq!(bytes.pad_with::<7>(Side::Right, 9), [1, 2, 3, 4, 5, 9, 9]);
    let empty: Vec<u8> = Vec::new();
    assert_eq!(empty.pad::<2>(Side::Left), [0, 0]);
    assert_eq!(pad_slice::<4>(&[7, 8], Side::Left, 1), [1, 1, 7, 8]);
}

#[test]
fn hex_bytes_of_negative_numbers_are_their_twos_complement() {
    assert_eq!((-1i8).hex_to_bytes(), vec![0xffu8]);
    assert_eq!((-128i8).hex_to_bytes(), vec![0x80u8]);
    assert_eq!((-2i16).hex_to_bytes(), vec![0xffu8, 0xfe]);
    assert_eq!((-1i64).hex_to_bytes(), vec![0xffu8; 8]);
    assert_eq!(5i64.hex_to_bytes(), vec![5u8]);
    assert_eq!(u128::MAX.hex_to_bytes(), vec![0xffu8; 16]);
    assert_eq!(0x1_00usize.hex_to_bytes(), vec![1u8, 0]);
    for n in [i64::MIN, -0x1234_5678_9abc, -1, 0, 1, 0x7f, i64::MAX] {
        let mut digits = format!("{:x}", n);
        if digits.len() % 2 == 1 {
            digits = format!("0{}", digits);
        }
        let expected: Vec<u8> = digits
            .as_bytes()
            .chunks(2)
            .map(|pair| u8::from_str_radix(std::str::from_utf8(pair).unwrap(), 16).unwrap())
            .collect();
        assert_eq!(n.hex_to_bytes(), expected);
    }
}

#[test]
fn repeat_into_signed_integers() {
    let byte = 0x7fu8;
    assert_eq!(i32::from_repeated(byte as i8), 0x7f7f7f7f);
    assert_eq!(i16::from_repeated(0x12i8), 0x1212);
    assert_eq!(i64::from_repeated(0x12u8), 0x1212121212121212);
    assert_eq!(i64::from_repeated(0x1234i16), 0x1234123412341234);
    assert_eq!(i16::from_repeated(0xffu8), -1);
    assert_eq!(i16::from_repeated(0x80u8), -32640);
    assert_eq!(i32::from_repeated(0xffffu16), -1);
    assert_eq!(i128::from_repeated(1u64), (1i128 << 64) + 1);
    assert_eq!(i128::from_repeated(u64::MAX), -1);
}

#[test]
fn repeat_of_a_negative_unit_is_the_unit() {
    assert_eq!(i32::from_repeated(-1i8), -1);
    assert_eq!(i32::from_repeated(-128i8), -128);
    assert_eq!(i64::from_repeated(-2i32), -2);
    assert_eq!(i128::from_repeated(-5i64), -5);
    assert_eq!(i16::from_repeated(i8::MIN), -128);
}

#[test]
fn repeat_into_128_bits() {
    assert_eq!(u128::from_repeated(0xabu8), 0xabababab_abababab_abababab_ababababu128);
    assert_eq!(u128::from_repeated(0xbeefu16), 0xbeefbeef_beefbeef_beefbeef_beefbeefu128);
    assert_eq!(u128::from_repeated(0xdeadbeefu32), 0xdeadbeef_deadbeef_deadbeef_deadbeefu128);
    assert_eq!(u128::from_repeated(u64::MAX), u128::MAX);
    assert_eq!(u128::from_repeated(0u8), 0);
    assert_eq!(i128::from_repeated(0x7fi8), 0x7f7f7f7f_7f7f7f7f_7f7f7f7f_7f7f7f7fi128);
}

#[test]
fn repeat_agrees_with_shifting_and_or_ing() {
    for from in i8::MIN..=i8::MAX {
        let mut v = from as i32;
        let mut r = v;
        for _ in 1..4 {
            v <<= 8;
            r |= v;
        }
        assert_eq!(i32::from_repeated(from), r);
    }
    for from in u8::MIN..=u8::MAX {
        let mut v = from as i16;
        let r = v;
        v <<= 8;
        assert_eq!(i16::from_repeated(from), r | v);

        let mut v = from as u128;
        let mut r = v;
        for _ in 1..16 {
            v <<= 8;
            r |= v;
        }
        assert_eq!(u128::from_repeated(from), r);
    }
}

#[test]
fn hex_bytes_of_the_widest_signed_numbers() {
    assert_eq!((-1i128).hex_to_bytes(), vec![0xffu8; 16]);
    assert_eq!(i128::MIN.hex_to_bytes()[0], 0x80);
    assert_eq!(i128::MIN.hex_to_bytes().len(), 16);
    assert_eq!(i128::MAX.hex_to_bytes()[0], 0x7f);
    assert_eq!(7i128.hex_to_bytes(), vec![7u8]);
    assert_eq!(0x1_02isize.hex_to_bytes(), vec![1u8, 2]);
    let all = (-1isize).hex_to_bytes();
    assert_eq!(all.len(), std::mem::size_of::<isize>());
    assert!(all.iter().all(|byte| *byte == 0xff));
    for n in [isize::MIN, -77, isize::MAX] {
        let mut digits = format!("{:x}", n);
        if digits.len() % 2 == 1 {
            digits = format!("0{}", digits);
        }
        let expected: Vec<u8> = digits
            .as_bytes()
            .chunks(2)
            .map(|pair| u8::from_str_radix(std::str::from_utf8(pair).unwrap(), 16).unwrap())
            .collect();
        assert_eq!(n.hex_to_bytes(), expected);
    }
}

#[test]
fn hex_errors_are_told_apart() {
    assert_ne!(HexToBytesError::ParseError, HexToBytesError::UTF8Error);
    assert_eq!(HexToBytesError::ParseError, HexToBytesError::ParseError);
}
