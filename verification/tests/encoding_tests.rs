use mining_coordinator::encoding::{
    bytes_from, decode_fields, extract_body, has_commitment_tag, CommitmentFields, BODY_LEN,
    HASH_LEN, TAG_0, TAG_1, TAG_2, TAG_LEN,
};

fn sample_body() -> Vec<u8> {
    let mut body: Vec<u8> = (0u8..32).collect();
    body.extend_from_slice(&[0x01, 0x02, 0x03, 0x04]);
    body.extend_from_slice(&[0x0a, 0x0b]);
    body
}

#[test]
fn layout_constants() {
    assert_eq!(TAG_LEN, 3);
    assert_eq!(HASH_LEN, 32);
    assert_eq!(BODY_LEN, 38);
    assert_eq!([TAG_0, TAG_1, TAG_2], [0x4d, 0x4d, 0x43]);
}

#[test]
fn tag_is_recognized_at_the_start_only() {
    assert!(has_commitment_tag(&[0x4d, 0x4d, 0x43, 0x00]));
    assert!(has_commitment_tag(&[0x4d, 0x4d, 0x43]));
    assert!(!has_commitment_tag(&[0x00, 0x4d, 0x4d, 0x43]));
    assert!(!has_commitment_tag(&[0x4d, 0x4d, 0x44, 0x00]));
    assert!(!has_commitment_tag(&[0x4d, 0x43, 0x4d]));
}

#[test]
fn short_payloads_carry_no_tag() {
    assert!(!has_commitment_tag(&[]));
    assert!(!has_commitment_tag(&[0x4d]));
    assert!(!has_commitment_tag(&[0x4d, 0x4d]));
}

#[test]
fn extract_body_strips_the_tag() {
    assert_eq!(extract_body(&[0x4d, 0x4d, 0x43, 7, 8, 9]), Some(vec![7, 8, 9]));
    assert_eq!(extract_body(&[0x4d, 0x4d, 0x43]), Some(vec![]));
    assert_eq!(extract_body(&[1, 2, 3, 4]), None);
    assert_eq!(extract_body(&[]), None);
}

#[test]
fn bytes_from_copies_the_tail() {
    assert_eq!(bytes_from(&[1, 2, 3, 4], 0), vec![1, 2, 3, 4]);
    assert_eq!(bytes_from(&[1, 2, 3, 4], 3), vec![4]);
    assert_eq!(bytes_from(&[1, 2, 3, 4], 4), Vec::<u8>::new());
    assert_eq!(bytes_from(&[1, 2, 3, 4], 5), Vec::<u8>::new());
    assert_eq!(bytes_from(&[], usize::MAX), Vec::<u8>::new());
}

#[test]
fn decode_reads_big_endian_fields() {
    let fields = decode_fields(&sample_body()).unwrap();
    assert_eq!(
        fields,
        CommitmentFields {
            block_hash: (0u8..32).collect(),
            parent_height: 16_909_060,
            parent_index: 2_571,
        }
    );
}

#[test]
fn decode_reaches_the_largest_values() {
    let body = vec![0xffu8; 38];
    let fields = decode_fields(&body).unwrap();
    assert_eq!(fields.block_hash, vec![0xffu8; 32]);
    assert_eq!(fields.parent_height, u32::MAX);
    assert_eq!(fields.parent_index, u16::MAX);
}

#[test]
fn decode_reads_low_bytes_last() {
    let mut body = vec![0u8; 38];
    body[35] = 1;
    body[37] = 1;
    let fields = decode_fields(&body).unwrap();
    assert_eq!(fields.parent_height, 1);
    assert_eq!(fields.parent_index, 1);
    body[35] = 0;
    body[32] = 1;
    body[37] = 0;
    body[36] = 1;
    let fields = decode_fields(&body).unwrap();
    assert_eq!(fields.parent_height, 16_777_216);
    assert_eq!(fields.parent_index, 256);
}

#[test]
fn decode_refuses_other_lengths() {
    assert_eq!(decode_fields(&[]), None);
    assert_eq!(decode_fields(&vec![0u8; 37]), None);
    assert_eq!(decode_fields(&vec![0u8; 39]), None);
}
