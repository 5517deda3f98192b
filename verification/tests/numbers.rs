use flvparse::number::{be_i16, be_i24, be_u16, be_u24, be_u32, be_u64, be_u8, be_value, bits, take};
use flvparse::Error;

type NomError<'a> = nom::error::Error<&'a [u8]>;

const SAMPLES: [&[u8]; 10] = [
    &[],
    &[0x00],
    &[0xff],
    &[0x01, 0x02],
    &[0x80, 0x00, 0x00],
    &[0xff, 0xff, 0xff, 0xff],
    &[0x7f, 0xff, 0xff, 0x00, 0x01],
    &[0x12, 0x34, 0x56, 0x78, 0x9a, 0xbc, 0xde, 0xf0],
    &[0xff, 0xff, 0xff, 0xff, 0xff, 0xff, 0xff, 0xff, 0xaa],
    &[0x40, 0x68, 0x50, 0x8b, 0x43, 0x95, 0x81, 0x06, 0x24, 0xdd],
];

#[test]
fn take_splits_after_width() {
    let input = &[1u8, 2, 3, 4, 5][..];
    assert_eq!(take(input, 0), Ok((input, &b""[..])));
    assert_eq!(take(input, 2), Ok((&[3u8, 4, 5][..], &[1u8, 2][..])));
    assert_eq!(take(input, 5), Ok((&b""[..], input)));
    assert_eq!(take(input, 6), Err(Error::Truncated { needed: 6 }));
}

#[test]
fn be_value_of_up_to_eight_bytes() {
    assert_eq!(be_value(&[]), 0);
    assert_eq!(be_value(&[0x12]), 0x12);
    assert_eq!(be_value(&[0x12, 0x34, 0x56]), 0x12_3456);
    assert_eq!(be_value(&[0xff; 8]), u64::MAX);
    assert_eq!(be_value(&[0x01, 0, 0, 0, 0, 0, 0, 0]), 1 << 56);
}

#[test]
fn readers_give_exact_values() {
    assert_eq!(be_u8(&[0xab, 1]), Ok((&[1u8][..], 0xab)));
    assert_eq!(be_u16(&[0x01, 0x02, 9]), Ok((&[9u8][..], 0x0102)));
    assert_eq!(be_u24(&[0x00, 0x04, 0x06]), Ok((&b""[..], 1030)));
    assert_eq!(be_u24(&[0xff, 0xff, 0xff]), Ok((&b""[..], 16_777_215)));
    assert_eq!(be_u32(&[0x00, 0x00, 0x04, 0x11, 7]), Ok((&[7u8][..], 1041)));
    assert_eq!(be_u32(&[0xff, 0xff, 0xff, 0xff]), Ok((&b""[..], u32::MAX)));
    assert_eq!(
        be_u64(&[0x40, 0x68, 0x50, 0x8b, 0x43, 0x95, 0x81, 0x06]),
        Ok((&b""[..], 194.517f64.to_bits()))
    );
    assert_eq!(be_i16(&[0x00, 0x08]), Ok((&b""[..], 8)));
    assert_eq!(be_i16(&[0xff, 0xff]), Ok((&b""[..], -1)));
    assert_eq!(be_i16(&[0x80, 0x00]), Ok((&b""[..], i16::MIN)));
    assert_eq!(be_i16(&[0x7f, 0xff]), Ok((&b""[..], i16::MAX)));
    assert_eq!(be_i24(&[0xff, 0xff, 0xff]), Ok((&b""[..], -1)));
    assert_eq!(be_i24(&[0x80, 0x00, 0x00]), Ok((&b""[..], -8_388_608)));
    assert_eq!(be_i24(&[0x7f, 0xff, 0xff]), Ok((&b""[..], 8_388_607)));
    assert_eq!(be_i24(&[0x00, 0x00, 0x2a, 1]), Ok((&[1u8][..], 42)));
}

#[test]
fn readers_name_their_width_when_short() {
    assert_eq!(be_u8(&[]), Err(Error::Truncated { needed: 1 }));
    assert_eq!(be_u16(&[1]), Err(Error::Truncated { needed: 2 }));
    assert_eq!(be_u24(&[1, 2]), Err(Error::Truncated { needed: 3 }));
    assert_eq!(be_u32(&[1, 2, 3]), Err(Error::Truncated { needed: 4 }));
    assert_eq!(be_u64(&[1, 2, 3, 4, 5, 6, 7]), Err(Error::Truncated { needed: 8 }));
    assert_eq!(be_i16(&[]), Err(Error::Truncated { needed: 2 }));
    assert_eq!(be_i24(&[0xff, 0xff]), Err(Error::Truncated { needed: 3 }));
}

#[test]
fn unsigned_readers_agree_with_nom() {
    for input in SAMPLES {
        assert_eq!(be_u8(input).ok(), nom::number::streaming::be_u8::<_, NomError>(input).ok());
        assert_eq!(be_u16(input).ok(), nom::number::streaming::be_u16::<_, NomError>(input).ok());
        assert_eq!(be_u24(input).ok(), nom::number::streaming::be_u24::<_, NomError>(input).ok());
        assert_eq!(be_u32(input).ok(), nom::number::streaming::be_u32::<_, NomError>(input).ok());
        assert_eq!(be_u64(input).ok(), nom::number::streaming::be_u64::<_, NomError>(input).ok());
    }
}

#[test]
fn signed_readers_agree_with_nom() {
    for input in SAMPLES {
        assert_eq!(be_i16(input).ok(), nom::number::streaming::be_i16::<_, NomError>(input).ok());
        assert_eq!(be_i24(input).ok(), nom::number::streaming::be_i24::<_, NomError>(input).ok());
    }
}

#[test]
fn eight_bytes_are_the_bits_of_noms_double() {
    for input in SAMPLES {
        let ours = be_u64(input).ok();
        let theirs = nom::number::streaming::be_f64::<_, NomError>(input).ok();
        assert_eq!(ours.map(|(rest, bits)| (rest, bits)), theirs.map(|(rest, x)| (rest, x.to_bits())));
    }
}

#[test]
fn bits_extracts_fields() {
    assert_eq!(bits(0xaf, 4, 4), 10);
    assert_eq!(bits(0xaf, 2, 2), 3);
    assert_eq!(bits(0xaf, 1, 1), 1);
    assert_eq!(bits(0xaf, 0, 1), 1);
    assert_eq!(bits(0x17, 4, 4), 1);
    assert_eq!(bits(0x17, 0, 4), 7);
    assert_eq!(bits(0b0000_0101, 2, 1), 1);
    assert_eq!(bits(0b0000_0101, 1, 1), 0);
    assert_eq!(bits(0xff, 0, 8), 0xff);
    assert_eq!(bits(0xff, 0, 0), 0);
    assert_eq!(bits(0x80, 7, 1), 1);
    assert_eq!(bits(0x80, 8, 0), 0);
}

#[test]
fn bits_match_shift_and_mask_on_every_byte() {
    for byte in 0..=255u8 {
        for low in 0..8u8 {
            for width in 1..=(8 - low) {
                let mask = ((1u16 << width) - 1) as u8;
                assert_eq!(bits(byte, low, width), (byte >> low) & mask);
            }
        }
    }
}
