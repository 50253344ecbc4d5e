use metalshaper::char6::{char6_decode, read_char6};
use metalshaper::cursor::BitCursor;
use metalshaper::error::DecodeError;
use metalshaper::vbr::read_vbr;

#[test]
fn bits_come_least_significant_first() {
    let mut cursor = BitCursor::new(vec![0b1011_0111]);
    assert_eq!(cursor.read_bits(1), Ok(0b1));
    assert_eq!(cursor.read_bits(2), Ok(0b11));
    assert_eq!(cursor.read_bits(5), Ok(0b10110));
    assert_eq!(cursor.position_in_bits(), 8);
    assert!(cursor.is_exhausted());
}

#[test]
fn a_read_runs_on_into_the_low_bits_of_the_next_byte() {
    let mut cursor = BitCursor::new(vec![0xa5, 0x3c]);
    assert_eq!(cursor.read_bits(4), Ok(0x5));
    assert_eq!(cursor.read_bits(8), Ok(0xca));
    assert_eq!(cursor.read_bits(4), Ok(0x3));
}

#[test]
fn a_read_of_64_bits_is_the_little_endian_word() {
    let mut cursor = BitCursor::new(vec![0x01, 0x02, 0x03, 0x04, 0x05, 0x06, 0x07, 0x08, 0xff]);
    assert_eq!(cursor.read_bits(64), Ok(0x0807_0605_0403_0201));
    assert_eq!(cursor.position_in_bits(), 64);
    assert_eq!(cursor.read_bits(8), Ok(0xff));
}

#[test]
fn an_unaligned_read_of_64_bits() {
    let mut cursor = BitCursor::new(vec![0xff, 0x00, 0x00, 0x00, 0x00, 0x00, 0x00, 0x00, 0x0f]);
    assert_eq!(cursor.read_bits(4), Ok(0xf));
    assert_eq!(cursor.read_bits(64), Ok(0xf000_0000_0000_000f));
    assert_eq!(cursor.position_in_bits(), 68);
}

#[test]
fn a_read_of_no_bits_is_zero_and_stays() {
    let mut cursor = BitCursor::new(vec![0xff]);
    assert_eq!(cursor.read_bits(0), Ok(0));
    assert_eq!(cursor.position_in_bits(), 0);
    let mut empty = BitCursor::new(vec![]);
    assert_eq!(empty.read_bits(0), Ok(0));
    assert!(empty.is_exhausted());
}

#[test]
fn a_read_past_the_end_fails_and_consumes_nothing() {
    let mut cursor = BitCursor::new(vec![0xab, 0xcd]);
    assert_eq!(cursor.read_bits(3), Ok(0x3));
    assert_eq!(cursor.read_bits(14), Err(DecodeError::UnexpectedEndOfStream));
    assert_eq!(cursor.position_in_bits(), 3);
    assert_eq!(cursor.read_bits(13), Ok(0x19b5));
    assert_eq!(cursor.read_bits(1), Err(DecodeError::UnexpectedEndOfStream));
    assert_eq!(cursor.position_in_bits(), 16);
}

#[test]
fn a_read_of_more_than_64_bits_is_refused() {
    let mut cursor = BitCursor::new(vec![0; 16]);
    assert_eq!(cursor.read_bits(65), Err(DecodeError::InvalidBitWidth));
    assert_eq!(cursor.read_bits(u32::MAX), Err(DecodeError::InvalidBitWidth));
    assert_eq!(cursor.position_in_bits(), 0);
}

#[test]
fn skip_moves_on_or_fails_and_stays() {
    let mut cursor = BitCursor::new(vec![0x00, 0x80, 0x01]);
    assert_eq!(cursor.skip(15), Ok(()));
    assert_eq!(cursor.position_in_bits(), 15);
    assert_eq!(cursor.read_bits(2), Ok(0b11));
    assert_eq!(cursor.skip(8), Err(DecodeError::UnexpectedEndOfStream));
    assert_eq!(cursor.position_in_bits(), 17);
    assert_eq!(cursor.skip(7), Ok(()));
    assert_eq!(cursor.skip(0), Ok(()));
    assert!(cursor.is_exhausted());
}

#[test]
fn skip_of_whole_bytes_from_a_byte_boundary() {
    let mut cursor = BitCursor::new(vec![1, 2, 3, 4, 5]);
    assert_eq!(cursor.skip(24), Ok(()));
    assert_eq!(cursor.read_bits(8), Ok(4));
    assert_eq!(cursor.skip(16), Err(DecodeError::UnexpectedEndOfStream));
    assert_eq!(cursor.position_in_bits(), 32);
    assert_eq!(cursor.read_bits(8), Ok(5));
}

#[test]
fn align_goes_to_the_next_multiple_of_32() {
    let mut cursor = BitCursor::new(vec![0, 0, 0, 0, 0x5a, 0, 0, 0, 0x77]);
    assert_eq!(cursor.align_to_32(), Ok(()));
    assert_eq!(cursor.position_in_bits(), 0);
    assert_eq!(cursor.read_bits(5), Ok(0));
    assert_eq!(cursor.align_to_32(), Ok(()));
    assert_eq!(cursor.position_in_bits(), 32);
    assert_eq!(cursor.align_to_32(), Ok(()));
    assert_eq!(cursor.position_in_bits(), 32);
    assert_eq!(cursor.read_bits(8), Ok(0x5a));
    assert_eq!(cursor.align_to_32(), Ok(()));
    assert_eq!(cursor.position_in_bits(), 64);
    assert_eq!(cursor.read_bits(8), Ok(0x77));
}

#[test]
fn align_past_the_end_fails_and_stays() {
    let mut cursor = BitCursor::new(vec![0xff, 0xff, 0xff]);
    assert_eq!(cursor.read_bits(1), Ok(1));
    assert_eq!(cursor.align_to_32(), Err(DecodeError::UnexpectedEndOfStream));
    assert_eq!(cursor.position_in_bits(), 1);
    assert_eq!(cursor.read_bits(7), Ok(0x7f));
}

#[test]
fn vbr_17_in_chunks_of_4() {
    let mut cursor = BitCursor::new(vec![0x29]);
    assert_eq!(read_vbr(&mut cursor, 4), Ok(17));
    assert_eq!(cursor.position_in_bits(), 8);
}

#[test]
fn vbr_in_one_chunk() {
    let mut cursor = BitCursor::new(vec![0x05]);
    assert_eq!(read_vbr(&mut cursor, 4), Ok(5));
    assert_eq!(cursor.position_in_bits(), 4);
    let mut eight = BitCursor::new(vec![0x7f, 0x00]);
    assert_eq!(read_vbr(&mut eight, 8), Ok(127));
    assert_eq!(eight.position_in_bits(), 8);
}

#[test]
fn vbr_is_not_canonical() {
    // 1 with a continuation flag, then an empty last chunk: still 1.
    let mut cursor = BitCursor::new(vec![0x09]);
    assert_eq!(read_vbr(&mut cursor, 4), Ok(1));
    assert_eq!(cursor.position_in_bits(), 8);
}

#[test]
fn vbr_in_chunks_of_8_over_three_bytes() {
    // 0x12345 = payloads 0x45, 0x46, 0x04, seven bits each.
    let mut cursor = BitCursor::new(vec![0xc5, 0xc6, 0x04]);
    assert_eq!(read_vbr(&mut cursor, 8), Ok(0x12345));
    assert_eq!(cursor.position_in_bits(), 24);
}

#[test]
fn vbr_width_1_overflows_whatever_the_buffer() {
    assert_eq!(read_vbr(&mut BitCursor::new(vec![]), 1), Err(DecodeError::VbrOverflow));
    assert_eq!(read_vbr(&mut BitCursor::new(vec![0x00]), 1), Err(DecodeError::VbrOverflow));
    assert_eq!(read_vbr(&mut BitCursor::new(vec![0xff; 8]), 1), Err(DecodeError::VbrOverflow));
    assert_eq!(read_vbr(&mut BitCursor::new(vec![0x29]), 0), Err(DecodeError::VbrOverflow));
}

#[test]
fn vbr_width_33_overflows_whatever_the_buffer() {
    assert_eq!(read_vbr(&mut BitCursor::new(vec![]), 33), Err(DecodeError::VbrOverflow));
    assert_eq!(read_vbr(&mut BitCursor::new(vec![0x00; 16]), 33), Err(DecodeError::VbrOverflow));
    assert_eq!(read_vbr(&mut BitCursor::new(vec![0xff; 16]), 33), Err(DecodeError::VbrOverflow));
    assert_eq!(read_vbr(&mut BitCursor::new(vec![0x29]), u64::MAX), Err(DecodeError::VbrOverflow));
}

#[test]
fn vbr_widths_2_and_32_are_accepted() {
    let mut narrow = BitCursor::new(vec![0b0000_0111]);
    assert_eq!(read_vbr(&mut narrow, 2), Ok(0b11));
    assert_eq!(narrow.position_in_bits(), 4);
    let mut wide = BitCursor::new(vec![0x78, 0x56, 0x34, 0x12]);
    assert_eq!(read_vbr(&mut wide, 32), Ok(0x1234_5678));
    assert_eq!(wide.position_in_bits(), 32);
}

#[test]
fn vbr_cut_short_is_an_end_of_stream() {
    let mut cursor = BitCursor::new(vec![0x80]);
    assert_eq!(read_vbr(&mut cursor, 8), Err(DecodeError::UnexpectedEndOfStream));
    let mut none = BitCursor::new(vec![]);
    assert_eq!(read_vbr(&mut none, 4), Err(DecodeError::UnexpectedEndOfStream));
}

#[test]
fn vbr_that_never_ends_overflows() {
    // Chunks of 2 bits, each with the flag set: 64 of them reach bit 64.
    let mut cursor = BitCursor::new(vec![0xff; 32]);
    assert_eq!(read_vbr(&mut cursor, 2), Err(DecodeError::VbrOverflow));
}

#[test]
fn vbr_fills_all_64_bits() {
    // 63 chunks `11`, then the last chunk `01`.
    let mut bytes = vec![0xff; 15];
    bytes.push(0x7f);
    let mut cursor = BitCursor::new(bytes);
    assert_eq!(read_vbr(&mut cursor, 2), Ok(u64::MAX));
    assert_eq!(cursor.position_in_bits(), 128);
}

#[test]
fn vbr_drops_payload_above_bit_63() {
    // Chunks of 32 bits: two empty ones with the flag, then payload 7 at bit 62.
    let bytes = vec![0, 0, 0, 0x80, 0, 0, 0, 0x80, 0x07, 0, 0, 0];
    let mut cursor = BitCursor::new(bytes);
    assert_eq!(read_vbr(&mut cursor, 32), Ok(0xc000_0000_0000_0000));
}

#[test]
fn vbr_chunk_that_would_start_at_bit_93_overflows() {
    let bytes = vec![0, 0, 0, 0x80, 0, 0, 0, 0x80, 0, 0, 0, 0x80, 0, 0, 0, 0];
    let mut cursor = BitCursor::new(bytes);
    assert_eq!(read_vbr(&mut cursor, 32), Err(DecodeError::VbrOverflow));
}

#[test]
fn char6_boundaries() {
    assert_eq!(char6_decode(0), Ok(b'a'));
    assert_eq!(char6_decode(25), Ok(b'z'));
    assert_eq!(char6_decode(52), Ok(b'0'));
    assert_eq!(char6_decode(61), Ok(b'9'));
    assert_eq!(char6_decode(62), Ok(b'.'));
    assert_eq!(char6_decode(63), Ok(b'_'));
    assert_eq!(char6_decode(0), Ok(0x61));
    assert_eq!(char6_decode(25), Ok(0x7a));
    assert_eq!(char6_decode(52), Ok(0x30));
    assert_eq!(char6_decode(61), Ok(0x39));
}

#[test]
fn char6_second_range_repeats_the_lower_case_letters() {
    assert_eq!(char6_decode(26), Ok(b'a'));
    assert_eq!(char6_decode(38), Ok(b'm'));
    assert_eq!(char6_decode(51), Ok(b'z'));
}

#[test]
fn char6_code_above_63_is_invalid() {
    assert_eq!(char6_decode(64), Err(DecodeError::InvalidChar6));
    assert_eq!(char6_decode(u64::MAX), Err(DecodeError::InvalidChar6));
}

#[test]
fn read_char6_takes_six_bits() {
    // Codes 0, 25, 52, 63 packed least significant bit first.
    // 000000 011001 110100 111111 -> bits 0..24
    let word: u32 = 0 | (25 << 6) | (52 << 12) | (63 << 18);
    let bytes = vec![(word & 0xff) as u8, ((word >> 8) & 0xff) as u8, ((word >> 16) & 0xff) as u8];
    let mut cursor = BitCursor::new(bytes);
    assert_eq!(read_char6(&mut cursor), Ok(b'a'));
    assert_eq!(cursor.position_in_bits(), 6);
    assert_eq!(read_char6(&mut cursor), Ok(b'z'));
    assert_eq!(read_char6(&mut cursor), Ok(b'0'));
    assert_eq!(read_char6(&mut cursor), Ok(b'_'));
    assert_eq!(cursor.position_in_bits(), 24);
    assert_eq!(read_char6(&mut cursor), Err(DecodeError::UnexpectedEndOfStream));
}

#[test]
fn read_char6_of_codes_61_and_62() {
    let word: u32 = 61 | (62 << 6);
    let mut cursor = BitCursor::new(vec![(word & 0xff) as u8, (word >> 8) as u8]);
    assert_eq!(read_char6(&mut cursor), Ok(b'9'));
    assert_eq!(read_char6(&mut cursor), Ok(b'.'));
    assert_eq!(read_char6(&mut cursor), Err(DecodeError::UnexpectedEndOfStream));
    assert_eq!(cursor.position_in_bits(), 12);
}

#[test]
fn every_read_is_the_sum_of_its_bits() {
    let bytes: Vec<u8> = (0..24u32).map(|i| (i * 73 + 41) as u8).collect();
    let total = 8 * bytes.len() as u64;
    for start in 0..70u32 {
        for n in 0..=64u32 {
            let mut expected: u64 = 0;
            for i in 0..n {
                let at = (start + i) as usize;
                let bit = (bytes[at / 8] >> (at % 8)) & 1;
                expected |= u64::from(bit) << i;
            }
            let mut cursor = BitCursor::new(bytes.clone());
            assert_eq!(cursor.skip(start), Ok(()));
            assert_eq!(cursor.read_bits(n), Ok(expected));
            assert_eq!(cursor.position_in_bits(), u64::from(start + n));
            assert_eq!(cursor.is_exhausted(), u64::from(start + n) == total);
        }
    }
}

#[test]
fn reads_in_a_row_go_on_where_the_last_one_ended() {
    let bytes: Vec<u8> = (0..40u32).map(|i| (i * 151 + 7) as u8).collect();
    let mut cursor = BitCursor::new(bytes.clone());
    let mut at: usize = 0;
    for step in 0..60u32 {
        let n = (step * 7 + 3) % 23;
        if at + n as usize > 8 * bytes.len() {
            assert_eq!(cursor.read_bits(n), Err(DecodeError::UnexpectedEndOfStream));
            assert_eq!(cursor.position_in_bits(), at as u64);
            continue;
        }
        let mut expected: u64 = 0;
        for i in 0..n as usize {
            let bit = (bytes[(at + i) / 8] >> ((at + i) % 8)) & 1;
            expected |= u64::from(bit) << i;
        }
        assert_eq!(cursor.read_bits(n), Ok(expected));
        at += n as usize;
        assert_eq!(cursor.position_in_bits(), at as u64);
    }
}

#[test]
fn long_skips_from_any_position() {
    let bytes: Vec<u8> = (0..64u32).map(|i| (i * 29 + 3) as u8).collect();
    for start in [0u32, 1, 7, 8, 13, 32] {
        for n in [0u32, 1, 8, 63, 64, 65, 100, 128, 200, 256, 300] {
            let mut cursor = BitCursor::new(bytes.clone());
            assert_eq!(cursor.skip(start), Ok(()));
            assert_eq!(cursor.skip(n), Ok(()));
            let at = (start + n) as usize;
            assert_eq!(cursor.position_in_bits(), at as u64);
            let mut expected: u64 = 0;
            for i in 0..8 {
                let bit = (bytes[(at + i) / 8] >> ((at + i) % 8)) & 1;
                expected |= u64::from(bit) << i;
            }
            assert_eq!(cursor.read_bits(8), Ok(expected));
        }
    }
    let mut cursor = BitCursor::new(bytes);
    assert_eq!(cursor.skip(513), Err(DecodeError::UnexpectedEndOfStream));
    assert_eq!(cursor.skip(u32::MAX), Err(DecodeError::UnexpectedEndOfStream));
    assert_eq!(cursor.skip(512), Ok(()));
    assert!(cursor.is_exhausted());
}
