use dumbarp::common::{csum_replace2, tos_with_dscp, FlowKey, IPPROTO_TCP, IPPROTO_UDP};

fn full_checksum(header: &[u8; 20]) -> u16 {
    let mut sum = 0u32;
    for word in header.chunks(2) {
        sum += u32::from(u16::from_be_bytes([word[0], word[1]]));
    }
    while sum >> 16 != 0 {
        sum = (sum & 0xffff) + (sum >> 16);
    }
    !(sum as u16)
}

fn sample_header(tos: u8) -> [u8; 20] {
    let mut h = [0u8; 20];
    h[0] = 0x45;
    h[1] = tos;
    h[2..4].copy_from_slice(&1500u16.to_be_bytes());
    h[4..6].copy_from_slice(&0xabcdu16.to_be_bytes());
    h[6..8].copy_from_slice(&0x4000u16.to_be_bytes());
    h[8] = 64;
    h[9] = IPPROTO_TCP;
    h[10..12].copy_from_slice(&[0, 0]);
    h[12..16].copy_from_slice(&[203, 0, 113, 7]);
    h[16..20].copy_from_slice(&[110, 110, 110, 110]);
    let c = full_checksum(&h);
    h[10..12].copy_from_slice(&c.to_be_bytes());
    h
}

#[test]
fn incremental_checksum_matches_full_recompute() {
    for old_dscp in 0u8..64 {
        for new_dscp in 0u8..64 {
            let old_tos = old_dscp << 2;
            let new_tos = new_dscp << 2;

            let old_header = sample_header(old_tos);
            let stored = u16::from_be_bytes([old_header[10], old_header[11]]);

            let old_word = ((old_header[0] as u16) << 8) | old_tos as u16;
            let new_word = ((old_header[0] as u16) << 8) | new_tos as u16;
            let incremental = csum_replace2(stored, old_word, new_word);

            let mut expected_header = old_header;
            expected_header[1] = new_tos;
            expected_header[10..12].copy_from_slice(&[0, 0]);
            let expected = full_checksum(&expected_header);

            assert_eq!(
                incremental, expected,
                "dscp {old_dscp} -> {new_dscp} produced a wrong checksum"
            );
        }
    }
}

#[test]
fn incremental_checksum_preserves_ecn_bits() {
    for ecn in 0u8..4 {
        let old_tos = (7 << 2) | ecn;
        let new_tos = tos_with_dscp(old_tos, 0);
        assert_eq!(new_tos & 0x03, ecn);

        let header = sample_header(old_tos);
        let stored = u16::from_be_bytes([header[10], header[11]]);
        let old_word = ((header[0] as u16) << 8) | old_tos as u16;
        let new_word = ((header[0] as u16) << 8) | new_tos as u16;

        let mut expected_header = header;
        expected_header[1] = new_tos;
        expected_header[10..12].copy_from_slice(&[0, 0]);

        assert_eq!(
            csum_replace2(stored, old_word, new_word),
            full_checksum(&expected_header)
        );
    }
}

#[test]
fn tos_with_dscp_replaces_only_the_dscp_bits() {
    assert_eq!(tos_with_dscp(0b1111_1111, 0), 0b0000_0011);
    assert_eq!(tos_with_dscp(0b0000_0010, 63), 0b1111_1110);
    assert_eq!(tos_with_dscp(0, 7), 7 << 2);
}

#[test]
fn flow_key_reversed_is_an_involution() {
    let key = FlowKey::new(0x0a00_0001, 0x0a00_0002, 1234, 80, IPPROTO_TCP);
    let back = key.reversed().reversed();
    assert_eq!(key, back);
    assert_eq!(key.reversed().src, key.dst);
    assert_eq!(key.reversed().sport, key.dport);
}

#[test]
fn flow_key_padding_is_always_zeroed() {
    let key = FlowKey::new(1, 2, 3, 4, IPPROTO_UDP);
    assert_eq!(key._pad, [0; 3]);
    assert_eq!(key.reversed()._pad, [0; 3]);
}

#[test]
fn checksum_of_known_words() {
    assert_eq!(csum_replace2(0xb1e6, 0x4500, 0x451c), 0xb1ca);
    assert_eq!(csum_replace2(0xffff, 0x0000, 0x0000), 0x0000);
    assert_eq!(csum_replace2(0x0000, 0xffff, 0x0000), 0x0000);
}
