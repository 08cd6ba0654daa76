use sm3::sm3_digest::SM3Digest;
use sm3::sm3_utils::binary_to_hex_string;
use sm3::sm3_utils::SM3Utils;

fn hex_lower(digest: [u8; 32]) -> String {
    binary_to_hex_string(digest, b'a')
}

#[test]
fn empty_input_digest() {
    let digest = SM3Utils::sm3_data_digest(&[]);
    assert_eq!(
        hex_lower(digest),
        "1ab21d8355cfa17f8e61194831e81a8f22bec8c728fefb747ed035eb5082aa2b"
    );
}

#[test]
fn abc_reference_vector() {
    let digest = SM3Utils::sm3_data_digest(b"abc");
    assert_eq!(
        hex_lower(digest),
        "66c7f0f462eeedd9d1f2d46bdc10e4e24167c4875cf2f7a2297da02b8f4ba8e0"
    );
}

#[test]
fn abcd_sixteen_times_reference_vector() {
    let data: Vec<u8> = b"abcd".iter().copied().cycle().take(64).collect();
    assert_eq!(data.len(), 64);
    let digest = SM3Utils::sm3_data_digest(&data);
    assert_eq!(
        hex_lower(digest),
        "debe9ff92275b8a138604889c18e5a4d6fdb70e5387e5765293dcba39c0c5732"
    );
}

#[test]
fn digest_extraction_is_idempotent() {
    let mut sm3 = SM3Digest::new();
    sm3.push_data(b"some input worth hashing");
    sm3.compute_digest();
    let first = sm3.get_digest_bytes();
    let second = sm3.get_digest_bytes();
    assert_eq!(first, second);
}

#[test]
fn chunking_does_not_change_the_digest() {
    let data: Vec<u8> = (0u32..200).map(|i| (i * 7 + 3) as u8).collect();
    let whole = SM3Utils::sm3_data_digest(&data);

    let mut byte_by_byte = SM3Digest::new();
    for b in &data {
        byte_by_byte.push_data(&[*b]);
    }
    byte_by_byte.compute_digest();
    assert_eq!(byte_by_byte.get_digest_bytes(), whole);

    let mut sevens = SM3Digest::new();
    for chunk in data.chunks(7) {
        sevens.push_data(chunk);
    }
    sevens.compute_digest();
    assert_eq!(sevens.get_digest_bytes(), whole);

    let mut uneven = SM3Digest::new();
    uneven.push_data(&data[..1]);
    uneven.push_data(&data[1..64]);
    uneven.push_data(&data[64..64]);
    uneven.push_data(&data[64..130]);
    uneven.push_data(&data[130..]);
    uneven.compute_digest();
    assert_eq!(uneven.get_digest_bytes(), whole);
}

#[test]
fn empty_pushes_change_nothing() {
    let mut with_empties = SM3Digest::new();
    with_empties.push_data(&[]);
    with_empties.push_data(b"abc");
    with_empties.push_data(&[]);
    with_empties.compute_digest();
    assert_eq!(
        hex_lower(with_empties.get_digest_bytes()),
        "66c7f0f462eeedd9d1f2d46bdc10e4e24167c4875cf2f7a2297da02b8f4ba8e0"
    );
}

#[test]
fn padding_boundary_55_bytes() {
    let digest = SM3Utils::sm3_data_digest(&[b'a'; 55]);
    assert_eq!(
        hex_lower(digest),
        "288337eef51eec62e7544d7270424c8dbe656254c99852870a73b2453a6a7fb1"
    );
}

#[test]
fn padding_boundary_56_bytes() {
    let digest = SM3Utils::sm3_data_digest(&[b'a'; 56]);
    assert_eq!(
        hex_lower(digest),
        "ba00ebedaab54065a5fd4f9f56326016203166bcee3eed44ea868d59d67aa3c8"
    );
}

#[test]
fn padding_boundary_63_bytes() {
    let digest = SM3Utils::sm3_data_digest(&[b'a'; 63]);
    assert_eq!(
        hex_lower(digest),
        "587308543551881ebd70d27ad358ff5dcdf24ac54822e2f7b7c3edce0985d21b"
    );
}

#[test]
fn padding_boundary_64_bytes() {
    let digest = SM3Utils::sm3_data_digest(&[b'a'; 64]);
    assert_eq!(
        hex_lower(digest),
        "616ec433c359e7c2b19f360e2b8f2a1b6e9ed76b8dc1a7d207b31a5341c611e9"
    );
}

#[test]
fn bit_length_spanning_several_counter_bytes() {
    // 8192 bytes is 65536 bits: the big-endian length field occupies more
    // than two bytes, checking the length encoding beyond the low byte.
    let digest = SM3Utils::sm3_data_digest(&[b'b'; 8192]);
    assert_eq!(
        hex_lower(digest),
        "4f2e50ed146da7661b648cbc9d4b5f85834df816840394409db326182abcba12"
    );

    let data: Vec<u8> = (0u32..70000).map(|i| (i * 31 + 7) as u8).collect();
    let digest = SM3Utils::sm3_data_digest(&data);
    assert_eq!(
        hex_lower(digest),
        "b5938067cebe6f37d618e5738cd43eda5da567dd71597ba07ab364aab7e6144a"
    );
}

#[test]
fn streaming_matches_one_call_across_block_boundary() {
    let data: Vec<u8> = (0u32..150).map(|i| i as u8).collect();
    let whole = SM3Utils::sm3_data_digest(&data);
    let mut sm3 = SM3Digest::new();
    sm3.push_data(&data[..40]);
    sm3.push_data(&data[40..100]);
    sm3.push_data(&data[100..]);
    sm3.compute_digest();
    assert_eq!(sm3.get_digest_bytes(), whole);
}

#[test]
fn hex_rendering_lower_and_upper() {
    let digest = SM3Utils::sm3_data_digest(b"abc");
    assert_eq!(
        binary_to_hex_string(digest, b'a'),
        "66c7f0f462eeedd9d1f2d46bdc10e4e24167c4875cf2f7a2297da02b8f4ba8e0"
    );
    assert_eq!(
        binary_to_hex_string(digest, b'A'),
        "66C7F0F462EEEDD9D1F2D46BDC10E4E24167C4875CF2F7A2297DA02B8F4BA8E0"
    );
}

#[test]
fn hex_rendering_covers_all_nibbles() {
    let mut bytes = [0u8; 32];
    for (i, b) in bytes.iter_mut().enumerate() {
        *b = (i * 8 + i / 2) as u8;
    }
    let rendered = binary_to_hex_string(bytes, b'a');
    let expected: String = bytes.iter().map(|b| format!("{:02x}", b)).collect();
    assert_eq!(rendered, expected);
}
