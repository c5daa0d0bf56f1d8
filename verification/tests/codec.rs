use mca_rs::codec::{bits_for, pack_indices, unpack_indices};

#[test]
fn bits_for_known_palette_sizes() {
    assert_eq!(bits_for(1), 4);
    assert_eq!(bits_for(2), 4);
    assert_eq!(bits_for(15), 4);
    assert_eq!(bits_for(16), 4);
    assert_eq!(bits_for(17), 5);
    assert_eq!(bits_for(32), 5);
    assert_eq!(bits_for(33), 6);
    assert_eq!(bits_for(255), 8);
    assert_eq!(bits_for(256), 8);
    assert_eq!(bits_for(257), 9);
    assert_eq!(bits_for(4096), 12);
}

fn roundtrip(p: usize) {
    let indices: Vec<usize> = (0..4096).map(|i| (i * 7 + 3) % p).collect();
    let words = pack_indices(p, &indices);
    let bits = bits_for(p);
    let per = 64 / bits;
    assert_eq!(words.len(), (4096 + per - 1) / per);
    let unpacked = unpack_indices(p, &words).expect("packed data must unpack");
    assert_eq!(unpacked, indices);
}

#[test]
fn roundtrip_p2() {
    roundtrip(2);
}

#[test]
fn roundtrip_p15() {
    roundtrip(15);
}

#[test]
fn roundtrip_p16() {
    roundtrip(16);
}

#[test]
fn roundtrip_p17() {
    roundtrip(17);
}

#[test]
fn roundtrip_p255() {
    roundtrip(255);
}

#[test]
fn roundtrip_p256() {
    roundtrip(256);
}

#[test]
fn roundtrip_p4096() {
    roundtrip(4096);
}

#[test]
fn unpack_rejects_short_data() {
    // Palette of 2 needs 256 words; one fewer must be rejected.
    assert!(unpack_indices(2, &vec![0u64; 255]).is_none());
    assert!(unpack_indices(2, &vec![0u64; 256]).is_some());
}

#[test]
fn unpack_rejects_out_of_range_index() {
    let mut words = vec![0u64; 256];
    // The very last 4-bit slot of the last word holds 3 >= 2.
    words[255] |= 3u64 << 60;
    assert!(unpack_indices(2, &words).is_none());
}

#[test]
fn unpack_reads_word_boundary_padding() {
    // With 5-bit indices, 12 fit in a word and the top 4 bits are padding:
    // garbage there must not change any decoded index.
    let p = 17;
    let indices: Vec<usize> = (0..4096).map(|i| i % p).collect();
    let mut words = pack_indices(p, &indices);
    for w in words.iter_mut() {
        *w |= 0xf000_0000_0000_0000;
    }
    let unpacked = unpack_indices(p, &words).expect("padding must be ignored");
    assert_eq!(unpacked, indices);
}
