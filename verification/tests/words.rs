use xxhash64::words::{as_u32s, as_u64_arrays, as_u64s, read_u32, read_u64, split};

fn pattern(len: usize) -> Vec<u8> {
    (0..len).map(|i| ((i * 7 + 3) & 0xff) as u8).collect()
}

fn joined(parts: (&[u8], &[u8], &[u8])) -> Vec<u8> {
    let mut all = parts.0.to_vec();
    all.extend_from_slice(parts.1);
    all.extend_from_slice(parts.2);
    all
}

fn u64s_written_back(middle: &[u8]) -> Vec<u8> {
    let mut bytes = Vec::new();
    for i in 0..middle.len() / 8 {
        bytes.extend_from_slice(&read_u64(middle, i).to_le_bytes());
    }
    bytes
}

fn u32s_written_back(middle: &[u8]) -> Vec<u8> {
    let mut bytes = Vec::new();
    for i in 0..middle.len() / 4 {
        bytes.extend_from_slice(&read_u32(middle, i).to_le_bytes());
    }
    bytes
}

#[test]
fn u64_words_partition_every_length_and_lead() {
    for len in 0..=64usize {
        let data = pattern(len);
        for lead in 0..8usize {
            let (head, middle, tail) = as_u64s(&data, lead);
            assert_eq!(head.len(), lead.min(len));
            assert!(head.len() < 8 && tail.len() < 8);
            assert_eq!(middle.len() % 8, 0);
            assert_eq!(middle.len(), (len - head.len()) / 8 * 8);
            assert_eq!(head.len() + middle.len() + tail.len(), len);
            let mut again = head.to_vec();
            again.extend_from_slice(&u64s_written_back(middle));
            again.extend_from_slice(tail);
            assert_eq!(again, data);
        }
    }
}

#[test]
fn u32_words_partition_every_length_and_lead() {
    for len in 0..=64usize {
        let data = pattern(len);
        for lead in 0..4usize {
            let (head, middle, tail) = as_u32s(&data, lead);
            assert_eq!(head.len(), lead.min(len));
            assert!(head.len() < 4 && tail.len() < 4);
            assert_eq!(middle.len(), (len - head.len()) / 4 * 4);
            assert_eq!(head.len() + middle.len() + tail.len(), len);
            let mut again = head.to_vec();
            again.extend_from_slice(&u32s_written_back(middle));
            again.extend_from_slice(tail);
            assert_eq!(again, data);
        }
    }
}

#[test]
fn u64_arrays_partition_every_length_and_lead() {
    for len in 0..=64usize {
        let data = pattern(len);
        for lead in 0..32usize {
            let (head, middle, tail) = as_u64_arrays(&data, lead);
            assert_eq!(head.len(), lead.min(len));
            assert!(head.len() < 32 && tail.len() < 32);
            assert_eq!(middle.len(), (len - head.len()) / 32 * 32);
            assert_eq!(head.len() + middle.len() + tail.len(), len);
            let mut again = head.to_vec();
            again.extend_from_slice(&u64s_written_back(middle));
            again.extend_from_slice(tail);
            assert_eq!(again, data);
        }
    }
}

#[test]
fn split_of_forty_bytes() {
    let data = pattern(40);
    let (head, middle, tail) = as_u64_arrays(&data, 0);
    assert_eq!((head.len(), middle.len(), tail.len()), (0, 32, 8));
    assert_eq!(middle, &data[..32]);
    assert_eq!(tail, &data[32..]);
    let (head, middle, tail) = as_u64_arrays(&data, 5);
    assert_eq!((head.len(), middle.len(), tail.len()), (5, 32, 3));
    assert_eq!(head, &data[..5]);
    assert_eq!(middle, &data[5..37]);
    assert_eq!(tail, &data[37..]);
    let (head, middle, tail) = as_u64_arrays(&data, 9);
    assert_eq!((head.len(), middle.len(), tail.len()), (9, 0, 31));
    assert_eq!(tail, &data[9..]);
}

#[test]
fn split_of_short_input_is_all_head_or_all_tail() {
    let data = pattern(3);
    let (head, middle, tail) = as_u64s(&data, 5);
    assert_eq!((head.len(), middle.len(), tail.len()), (3, 0, 0));
    let (head, middle, tail) = as_u64s(&data, 0);
    assert_eq!((head.len(), middle.len(), tail.len()), (0, 0, 3));
    let empty: [u8; 0] = [];
    let (head, middle, tail) = as_u64s(&empty, 3);
    assert_eq!((head.len(), middle.len(), tail.len()), (0, 0, 0));
}

#[test]
fn lead_counts_modulo_the_width() {
    let data = pattern(30);
    assert_eq!(joined(as_u64s(&data, 11)), data);
    let (head, middle, tail) = as_u64s(&data, 11);
    assert_eq!((head.len(), middle.len(), tail.len()), (3, 24, 3));
    let (head, middle, tail) = split(&data, 8, 8);
    assert_eq!((head.len(), middle.len(), tail.len()), (0, 24, 6));
}

#[test]
fn split_by_any_width() {
    let data = pattern(50);
    for width in 1..=50usize {
        for lead in 0..width {
            let parts = split(&data, lead, width);
            assert_eq!(parts.0.len(), lead);
            assert!(parts.2.len() < width);
            assert_eq!(parts.1.len() % width, 0);
            assert_eq!(joined(parts), data);
        }
    }
}

#[test]
fn words_are_little_endian() {
    let data = pattern(64);
    assert_eq!(read_u64(&data, 0), 0x342D261F18110A03);
    assert_eq!(read_u64(&data, 1), 0x6C655E575049423B);
    assert_eq!(read_u32(&data[3..], 0), 0x2D261F18);
    assert_eq!(read_u32(&[1, 0, 0, 0], 0), 1);
    assert_eq!(read_u32(&[0, 0, 0, 1], 0), 0x01000000);
    assert_eq!(read_u64(&[0, 0, 0, 0, 0, 0, 0, 0x80], 0), 0x8000000000000000);
    assert_eq!(read_u64(&[0xff, 0, 0, 0, 0, 0, 0, 0], 0), 0xff);
}
