use aprocess::codec::{decode_audio, encode_audio};

#[test]
fn encode_single_sample_little_endian() {
    let samples: Vec<u32> = vec![1];
    assert_eq!(encode_audio(&samples), vec![1, 0, 0, 0]);
}

#[test]
fn encode_orders_bytes_least_significant_first() {
    let samples: Vec<u32> = vec![0x0102_0304];
    assert_eq!(encode_audio(&samples), vec![4, 3, 2, 1]);
}

#[test]
fn encode_concatenates_samples_in_order() {
    let samples: Vec<u32> = vec![1, 0x0000_0200];
    assert_eq!(encode_audio(&samples), vec![1, 0, 0, 0, 0, 2, 0, 0]);
}

#[test]
fn encode_empty_frame() {
    let samples: Vec<u32> = Vec::new();
    assert_eq!(encode_audio(&samples), Vec::<u8>::new());
}

#[test]
fn decode_reads_little_endian() {
    let bytes: Vec<u8> = vec![4, 3, 2, 1];
    assert_eq!(decode_audio(&bytes), Some(vec![0x0102_0304]));
}

#[test]
fn decode_rejects_ragged_length() {
    let bytes: Vec<u8> = vec![1, 2, 3];
    assert_eq!(decode_audio(&bytes), None);
    let bytes: Vec<u8> = vec![1, 2, 3, 4, 5];
    assert_eq!(decode_audio(&bytes), None);
}

#[test]
fn decode_empty_frame() {
    let bytes: Vec<u8> = Vec::new();
    assert_eq!(decode_audio(&bytes), Some(Vec::<u32>::new()));
}

#[test]
fn decode_inverts_encode() {
    let samples: Vec<u32> = vec![0, 1, 0xffff_ffff, 0x8000_0000, 123_456_789];
    let bytes = encode_audio(&samples);
    assert_eq!(decode_audio(&bytes), Some(samples));
}
