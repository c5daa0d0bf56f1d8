use mca_rs::region::Region;
use mca_rs::region::RegionParseError;

use nbt_rs::serialize_nbt;
use nbt_rs::types::{NbtArray, NbtCompound, NbtList, NbtString, NbtTag};
use std::collections::HashMap;

fn nbt_str(s: &str) -> NbtString {
    NbtString::try_from(s.to_string()).unwrap()
}

fn compound(entries: Vec<(&str, NbtTag)>) -> NbtCompound {
    let mut m: HashMap<NbtString, NbtTag> = HashMap::new();
    for (k, v) in entries {
        m.insert(nbt_str(k), v);
    }
    NbtCompound::from(m)
}

fn palette_entry(name: &str) -> NbtCompound {
    compound(vec![("Name", NbtTag::String(nbt_str(name)))])
}

fn section_compound(names: Vec<&str>, data: Option<Vec<i64>>) -> NbtCompound {
    let palette: Vec<NbtCompound> = names.into_iter().map(palette_entry).collect();
    let mut fields = vec![(
        "palette",
        NbtTag::List(NbtList::Compound(NbtArray::try_from(palette).unwrap())),
    )];
    if let Some(d) = data {
        fields.push(("data", NbtTag::LongArray(NbtArray::try_from(d).unwrap())));
    }
    compound(vec![("block_states", NbtTag::Compound(compound(fields)))])
}

fn chunk_payload(y_pos: i32, sections: Vec<NbtCompound>) -> Vec<u8> {
    let root = compound(vec![
        ("yPos", NbtTag::Int(y_pos)),
        (
            "sections",
            NbtTag::List(NbtList::Compound(NbtArray::try_from(sections).unwrap())),
        ),
    ]);
    let body = serialize_nbt(&nbt_str(""), &root);
    let mut payload = Vec::new();
    payload.extend_from_slice(&(body.len() as u32).to_be_bytes());
    payload.push(3u8); // uncompressed
    payload.extend_from_slice(&body);
    payload
}

/// A region whose cells hold the given payloads, one sector run per cell.
fn region_bytes(cells: Vec<(usize, usize, Vec<u8>)>) -> Vec<u8> {
    let mut bytes = vec![0u8; 8192];
    let mut next_sector: usize = 2;
    for (x, z, payload) in cells {
        let sectors = (payload.len() + 4095) / 4096;
        let j = x + z * 32;
        bytes[4 * j] = ((next_sector >> 16) & 0xff) as u8;
        bytes[4 * j + 1] = ((next_sector >> 8) & 0xff) as u8;
        bytes[4 * j + 2] = (next_sector & 0xff) as u8;
        bytes[4 * j + 3] = sectors as u8;
        bytes[4096 + 4 * j + 3] = 1; // nonzero timestamp
        let mut padded = payload.clone();
        padded.resize(sectors * 4096, 0);
        assert_eq!(bytes.len(), next_sector * 4096);
        bytes.extend_from_slice(&padded);
        next_sector += sectors;
    }
    bytes
}

#[test]
fn test_parse_empty_region() {
    let bytes = vec![0u8; 8192];
    let region = Region::parse_bytes(&bytes).unwrap();

    assert_eq!(region.count_chunks(), 0);
}

#[test]
fn empty_region_has_no_chunks_anywhere() {
    let bytes = vec![0u8; 8192];
    let region = Region::parse_bytes(&bytes).unwrap();
    for x in 0..32 {
        for z in 0..32 {
            assert!(region.get_chunk(x, z).is_none());
        }
    }
}

#[test]
fn short_buffer_is_input_too_short() {
    let r = Region::parse_bytes(&vec![0u8; 100]);
    assert!(matches!(r, Err(RegionParseError::InputTooShort(100))));
    let r = Region::parse_bytes(&[]);
    assert!(matches!(r, Err(RegionParseError::InputTooShort(0))));
}

#[test]
fn unaligned_buffer_is_input_invalid_size() {
    let r = Region::parse_bytes(&vec![0u8; 8193]);
    assert!(matches!(r, Err(RegionParseError::InputInvalidSize(8193))));
}

#[test]
fn region_with_one_chunk() {
    let payload = chunk_payload(0, vec![section_compound(vec!["minecraft:stone"], None)]);
    let bytes = region_bytes(vec![(3, 5, payload)]);
    let region = Region::parse_bytes(&bytes).unwrap();
    assert_eq!(region.count_chunks(), 1);
    let chunk = region.get_chunk(3, 5).unwrap();
    let block = chunk.get(0, 0, 0).unwrap();
    assert_eq!(block.get_name(), "minecraft:stone");
    assert!(region.get_chunk(5, 3).is_none());
    assert!(region.get_chunk(32, 0).is_none());
    assert!(region.get_chunk(0, 32).is_none());
}

#[test]
fn corrupt_cell_degrades_to_absent_only() {
    // Cell (0, 0): a valid single-palette chunk. Cell (1, 0): a chunk whose
    // index array holds values out of the palette's range.
    let good = chunk_payload(0, vec![section_compound(vec!["minecraft:dirt"], None)]);
    let bad = chunk_payload(
        0,
        vec![section_compound(
            vec!["minecraft:air", "minecraft:stone"],
            Some(vec![0x5555_5555_5555_5555u64 as i64; 256]),
        )],
    );
    let bytes = region_bytes(vec![(0, 0, good), (1, 0, bad)]);
    let region = Region::parse_bytes(&bytes).unwrap();
    assert_eq!(region.count_chunks(), 1);
    assert!(region.get_chunk(0, 0).is_some());
    assert!(region.get_chunk(1, 0).is_none());
}

#[test]
fn out_of_range_sector_offset_degrades_to_absent() {
    let mut bytes = vec![0u8; 8192];
    // Offset far beyond the end of the buffer, nonzero sector count.
    bytes[0] = 0x00;
    bytes[1] = 0xff;
    bytes[2] = 0x00;
    bytes[3] = 4;
    bytes[4096 + 3] = 1;
    let region = Region::parse_bytes(&bytes).unwrap();
    assert_eq!(region.count_chunks(), 0);
    assert!(region.get_chunk(0, 0).is_none());
}
