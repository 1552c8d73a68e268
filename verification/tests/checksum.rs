/// The plain reference computation: sum 16-bit big-endian words, fold the
/// carries, complement.
fn reference_checksum(data: &[u8]) -> u16 {
    let mut sum: u64 = 0;
    let mut i = 0;
    while i < data.len() {
        let hi = data[i] as u64;
        let lo = if i + 1 < data.len() { data[i + 1] as u64 } else { 0 };
        sum += (hi << 8) | lo;
        i += 2;
    }
    while sum > 0xffff {
        sum = (sum & 0xffff) + (sum >> 16);
    }
    !(sum as u16)
}

#[test]
fn checksum() {
    let bytes: Vec<u8> = vec![
        0x12, 0x34, 0x56, 0x78, 0x9A, 0xBC, 0xDE, 0xF0, 0x12, 0x34, 0x00, 0x00, 0x9A, 0xBC, 0xDE,
        0xF0, 0x12, 0x34, 0x56, 0x78,
    ];
    let result = ipstack::checksum::checksum(bytes.as_slice());
    assert_eq!(0x2918, result);
}

#[test]
fn checksum_odd_length() {
    // the odd trailing byte counts as the high byte of a zero-padded word
    let bytes: Vec<u8> = vec![0x01, 0x02, 0x03];
    assert_eq!(
        ipstack::checksum::checksum(bytes.as_slice()),
        reference_checksum(bytes.as_slice())
    );
    assert_eq!(ipstack::checksum::checksum(bytes.as_slice()), !(0x0102u16 + 0x0300u16));
}

#[test]
fn checksum_matches_reference() {
    // a spread of pseudo-random buffers of odd and even length
    let mut state: u32 = 0x12345678;
    for len in 0..40usize {
        let mut bytes: Vec<u8> = Vec::new();
        for _ in 0..len {
            state = state.wrapping_mul(1664525).wrapping_add(1013904223);
            bytes.push((state >> 24) as u8);
        }
        assert_eq!(
            ipstack::checksum::checksum(bytes.as_slice()),
            reference_checksum(bytes.as_slice())
        );
    }
}

#[test]
fn checksum_empty() {
    assert_eq!(ipstack::checksum::checksum(&[]), 0xffff);
}
