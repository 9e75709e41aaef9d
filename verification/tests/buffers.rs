use tower_ff::buffers::{
    u64_from_le_bytes, u64_to_le_bytes, BufferError, MulBuffer, R2Buffer, RBuffer, SerBuffer,
};

#[test]
fn test_mul_buffer_new_and_get() {
    type Buf = MulBuffer<4>;
    let buf = Buf::new([1u64, 2u64, 3u64, 4u64], [5u64, 6u64, 7u64, 8u64]);

    assert_eq!(*buf.get(0), 1);
    assert_eq!(*buf.get(3), 4);
    assert_eq!(*buf.get(4), 5);
    assert_eq!(*buf.get(7), 8);
}

#[test]
fn test_mul_buffer_get_mut() {
    type Buf = MulBuffer<4>;
    let mut buf = Buf::zeroed();
    *buf.get_mut(2) = 42;
    assert_eq!(buf.b0[2], 42);

    *buf.get_mut(5) = 99;
    assert_eq!(buf.b1[1], 99);
}

#[test]
fn test_ser_buffer_zeroed_and_get() {
    type Ser = SerBuffer<2>;
    let buf = Ser::zeroed();
    assert_eq!(*buf.get(0), 0);
    assert_eq!(*buf.get(15), 0);
    assert_eq!(*buf.get(16), 0); // Check the `last` byte
}

#[test]
fn test_ser_buffer_copy_from_u8_slice() {
    type Ser = SerBuffer<2>;
    let mut buf = Ser::zeroed();
    let data: &[u8] = &[1, 2, 3, 4, 5, 6, 7, 8, 9, 10, 11, 12, 13, 14, 15, 16, 17];
    buf.copy_from_u8_slice(data);

    assert_eq!(buf.buffers[0], [1, 2, 3, 4, 5, 6, 7, 8]);
    assert_eq!(buf.buffers[1], [9, 10, 11, 12, 13, 14, 15, 16]);
    assert_eq!(buf.last, 17);
}

#[test]
fn test_ser_buffer_copy_from_u64_slice() {
    type Ser = SerBuffer<2>;
    let mut buf = Ser::zeroed();
    let data: &[u64; 2] = &[0x123456789ABCDEF0, 0x0FEDCBA987654321];
    buf.copy_from_u64_slice(data);

    assert_eq!(buf.buffers[0], 0x123456789ABCDEF0u64.to_le_bytes());
    assert_eq!(buf.buffers[1], 0x0FEDCBA987654321u64.to_le_bytes());
}

#[test]
fn test_rbuffer_get_bit() {
    // Create an instance of RBuffer
    let buf = RBuffer([0x0, 0x8000000000000000], 0x1); // Second value has MSB set, and last has LSB set

    assert!(!buf.get_bit(63)); // Check the 63rd bit of the first part
    assert!(buf.get_bit(127)); // Check the MSB of the second part
    assert!(buf.get_bit(128)); // Check the LSB of the third part
}

#[test]
fn test_ser_buffer_write_and_read() {
    type Ser = SerBuffer<2>;
    let buf = Ser::zeroed();
    let mut data = Vec::new();
    buf.write_up_to(&mut data, 16);

    let mut new_buf = Ser::zeroed();
    new_buf
        .read_exact_up_to(&data[..], 16)
        .expect("Failed to read buffer");

    assert_eq!(buf.buffers, new_buf.buffers);
    assert_eq!(buf.last, new_buf.last);
}

#[test]
fn test_mul_buffer_correctness() {
    type Buf = MulBuffer<10>;
    let temp = Buf::new([10u64; 10], [20u64; 10]);

    for i in 0..20 {
        if i < 10 {
            assert_eq!(temp[i], 10);
        } else {
            assert_eq!(temp[i], 20);
        }
    }
}

#[test]
#[should_panic]
fn test_mul_buffer_soundness() {
    type Buf = MulBuffer<10>;
    let temp = Buf::new([10u64; 10], [10u64; 10]);

    for i in 20..21 {
        // indexing `temp[20]` should panic
        assert_eq!(temp[i], 10);
    }
}

#[test]
fn r2buffer_selects_word_by_position() {
    let buf = R2Buffer([0x1, 0x0], [0x0, 0x8000000000000000], 0x2);
    assert!(buf.get_bit(0));
    assert!(!buf.get_bit(1));
    assert!(!buf.get_bit(128));
    assert!(buf.get_bit(255));
    assert!(!buf.get_bit(256));
    assert!(buf.get_bit(257));
    assert_eq!(buf.num_bits(), 4 * 64 + 2);
}

#[test]
fn read_from_short_source_reports_eof() {
    let mut buf = SerBuffer::<2>::zeroed();
    let data = [7u8; 12];
    assert_eq!(buf.read_exact_up_to(&data, 16), Err(BufferError::UnexpectedEof));
    assert_eq!(buf.buffers[0], [7u8; 8]);
    assert_eq!(buf.buffers[1], [0u8; 8]);
}

fn round_trip<const N: usize>() {
    let mut buf = SerBuffer::<N>::zeroed();
    let mut source = Vec::new();
    for i in 0..(8 * N + 1) {
        source.push((i * 37 + 11) as u8);
    }
    buf.copy_from_u8_slice(&source);
    for k in (8 * (N - 1) + 1)..=(8 * N + 1) {
        let mut data = Vec::new();
        buf.write_up_to(&mut data, k);
        assert_eq!(data.len(), k);
        assert_eq!(&data[..], &source[..k]);

        // a buffer that agrees with the written one behind the first k bytes
        let mut same_tail = buf;
        for i in 0..k {
            *same_tail.get_mut(i) = 0;
        }
        same_tail.read_exact_up_to(&data, k).unwrap();
        assert_eq!(same_tail.buffers, buf.buffers);
        assert_eq!(same_tail.last, buf.last);

        // a zeroed buffer takes the first k bytes and keeps its zeros
        let mut fresh = SerBuffer::<N>::zeroed();
        fresh.read_exact_up_to(&data, k).unwrap();
        for i in 0..(8 * N + 1) {
            let expected = if i < k { source[i] } else { 0 };
            assert_eq!(*fresh.get(i), expected);
        }
    }
}

#[test]
fn write_then_read_round_trips_for_every_length() {
    round_trip::<1>();
    round_trip::<2>();
    round_trip::<3>();
}

#[test]
fn mul_buffer_is_the_two_halves_in_a_row() {
    let buf = MulBuffer::<4>::new([1, 2, 3, 4], [5, 6, 7, 8]);
    let mut seen = Vec::new();
    for i in 0..8 {
        seen.push(buf[i]);
    }
    assert_eq!(seen, vec![1, 2, 3, 4, 5, 6, 7, 8]);
}

#[test]
fn seventeen_bytes_carry_the_metadata_byte() {
    let mut buf = SerBuffer::<2>::zeroed();
    *buf.get_mut(16) = 0x80;
    *buf.get_mut(3) = 9;

    let mut sixteen = Vec::new();
    buf.write_up_to(&mut sixteen, 16);
    assert_eq!(sixteen.len(), 16);
    let mut back = SerBuffer::<2>::zeroed();
    back.read_exact_up_to(&sixteen, 16).unwrap();
    assert_eq!(back.buffers, buf.buffers);
    assert_eq!(back.last, 0);

    let mut seventeen = Vec::new();
    buf.write_up_to(&mut seventeen, 17);
    assert_eq!(seventeen.len(), 17);
    assert_eq!(seventeen[16], 0x80);
    let mut back = SerBuffer::<2>::zeroed();
    back.read_exact_up_to(&seventeen, 17).unwrap();
    assert_eq!(back.buffers, buf.buffers);
    assert_eq!(back.last, 0x80);
}

#[test]
fn part_of_the_last_limb_is_transferred() {
    let mut buf = SerBuffer::<2>::zeroed();
    buf.copy_from_u8_slice(&[1, 2, 3, 4, 5, 6, 7, 8, 9, 10, 11, 12, 13, 14, 15, 16, 17]);
    let mut data = vec![0xee];
    buf.write_up_to(&mut data, 11);
    assert_eq!(data, vec![0xee, 1, 2, 3, 4, 5, 6, 7, 8, 9, 10, 11]);

    let mut back = SerBuffer::<2>::zeroed();
    back.read_exact_up_to(&data[1..], 11).unwrap();
    assert_eq!(back.buffers[0], [1, 2, 3, 4, 5, 6, 7, 8]);
    assert_eq!(back.buffers[1], [9, 10, 11, 0, 0, 0, 0, 0]);
    assert_eq!(back.last, 0);
}

#[test]
fn short_sources_stop_the_read_at_a_unit() {
    // the last limb is asked for in full but the source ends inside it
    let mut buf = SerBuffer::<2>::zeroed();
    assert_eq!(buf.read_exact_up_to(&[5u8; 15], 17), Err(BufferError::UnexpectedEof));
    assert_eq!(buf.buffers[0], [5u8; 8]);
    assert_eq!(buf.buffers[1], [0u8; 8]);
    // the limbs are there but the metadata byte is not
    let mut buf = SerBuffer::<2>::zeroed();
    assert_eq!(buf.read_exact_up_to(&[5u8; 16], 17), Err(BufferError::UnexpectedEof));
    assert_eq!(buf.buffers, [[5u8; 8]; 2]);
    assert_eq!(buf.last, 0);
    // nothing at all
    let mut buf = SerBuffer::<2>::zeroed();
    assert_eq!(buf.read_exact_up_to(&[], 9), Err(BufferError::UnexpectedEof));
    assert_eq!(buf.buffers, [[0u8; 8]; 2]);
}

#[test]
fn copy_from_bytes_keeps_what_the_source_does_not_reach() {
    let mut buf = SerBuffer::<2>::zeroed();
    buf.copy_from_u8_slice(&[9u8; 17]);
    buf.copy_from_u8_slice(&[1, 2, 3]);
    assert_eq!(buf.buffers[0], [1, 2, 3, 9, 9, 9, 9, 9]);
    assert_eq!(buf.buffers[1], [9u8; 8]);
    assert_eq!(buf.last, 9);
    // a source that runs past the metadata chunk: the first byte of its
    // final chunk is kept
    let mut long = vec![0u8; 26];
    long[16] = 0x11;
    long[24] = 0x22;
    buf.copy_from_u8_slice(&long);
    assert_eq!(buf.last, 0x22);
}

#[test]
fn limbs_are_little_endian() {
    let mut buf = SerBuffer::<2>::zeroed();
    buf.copy_from_u64_slice(&[0x0102030405060708, 0xffeeddccbbaa9988]);
    assert_eq!(buf.buffers[0], [8, 7, 6, 5, 4, 3, 2, 1]);
    assert_eq!(*buf.get(8), 0x88);
    assert_eq!(buf[15], 0xff);
    let big = buf.to_bigint();
    assert_eq!(big.0, [0x0102030405060708, 0xffeeddccbbaa9988]);
    assert_eq!(u64_to_le_bytes(0x0102030405060708), [8, 7, 6, 5, 4, 3, 2, 1]);
    assert_eq!(u64_from_le_bytes(&[8, 7, 6, 5, 4, 3, 2, 1]), 0x0102030405060708);
}

#[test]
fn bit_length_counts_to_the_highest_bit_of_the_trailing_word() {
    assert_eq!(RBuffer::<2>([0, 0], 0).num_bits(), 128);
    assert_eq!(RBuffer::<2>([0, 0], 1).num_bits(), 129);
    assert_eq!(RBuffer::<2>([0, 0], u64::MAX).num_bits(), 192);
    assert_eq!(RBuffer::<0>([], 0b101).num_bits(), 3);
    assert_eq!(R2Buffer::<1>([0], [0], 0b1000).num_bits(), 132);
    assert!(RBuffer::<1>([2], 0).get_bit(1));
    assert!(!RBuffer::<1>([2], 0).get_bit(0));
}
