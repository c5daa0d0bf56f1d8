use mca_rs::chunk::ChunkParseError;
use mca_rs::parse_chunk;

use nbt_rs::serialize_nbt;
use nbt_rs::types::{NbtArray, NbtCompound, NbtList, NbtString, NbtTag};
use std::collections::HashMap;
use std::io::Write;

fn nbt_str(s: &str) -> NbtString {
    NbtString::try_from(s.to_string()).unwrap()
}

fn compound(entries: Vec<(&str, NbtTag)>) -> NbtCompound {
    let mut m: HashMap<NbtString, NbtTag> = HashMap::new();
    for (k, v) in entries {
        m.insert(nbt_str(k), v);
    }
    NbtCompound::from(m)
}

fn palette_entry(name: &str) -> NbtCompound {
    compound(vec![("Name", NbtTag::String(nbt_str(name)))])
}

fn section_compound(names: Vec<&str>, data: Option<Vec<i64>>) -> NbtCompound {
    let palette: Vec<NbtCompound> = names.into_iter().map(palette_entry).collect();
    let mut fields = vec![(
        "palette",
        NbtTag::List(NbtList::Compound(NbtArray::try_from(palette).unwrap())),
    )];
    if let Some(d) = data {
        fields.push(("data", NbtTag::LongArray(NbtArray::try_from(d).unwrap())));
    }
    compound(vec![("block_states", NbtTag::Compound(compound(fields)))])
}

fn root_compound(y_pos: i32, sections: Vec<NbtCompound>) -> NbtCompound {
    compound(vec![
        ("yPos", NbtTag::Int(y_pos)),
        (
            "sections",
            NbtTag::List(NbtList::Compound(NbtArray::try_from(sections).unwrap())),
        ),
    ])
}

fn frame(tag: u8, body: &[u8]) -> Vec<u8> {
    let mut payload = Vec::new();
    payload.extend_from_slice(&(body.len() as u32).to_be_bytes());
    payload.push(tag);
    payload.extend_from_slice(body);
    payload
}

fn raw_payload(root: &NbtCompound) -> Vec<u8> {
    frame(3, &serialize_nbt(&nbt_str(""), root))
}

#[test]
fn too_short_payloads() {
    assert!(matches!(
        parse_chunk(&[]),
        Err(ChunkParseError::InputTooShort(5, 0))
    ));
    assert!(matches!(
        parse_chunk(&[0, 0, 0, 9]),
        Err(ChunkParseError::InputTooShort(5, 4))
    ));
    // Declared body of 100 bytes, but only the header is present.
    assert!(matches!(
        parse_chunk(&[0, 0, 0, 100, 3]),
        Err(ChunkParseError::InputTooShort(104, 5))
    ));
}

#[test]
fn unsupported_compression_tag() {
    let body = serialize_nbt(&nbt_str(""), &root_compound(0, vec![]));
    let payload = frame(7, &body);
    assert!(matches!(
        parse_chunk(&payload),
        Err(ChunkParseError::UnsupportedCompression)
    ));
}

#[test]
fn corrupt_stream_is_decompression_failed() {
    let payload = frame(1, &[1, 2, 3, 4, 5, 6, 7, 8]);
    assert!(matches!(
        parse_chunk(&payload),
        Err(ChunkParseError::DecompressionFailed(_))
    ));
    let payload = frame(2, &[1, 2, 3, 4, 5, 6, 7, 8]);
    assert!(matches!(
        parse_chunk(&payload),
        Err(ChunkParseError::DecompressionFailed(_))
    ));
}

#[test]
fn malformed_document_is_parse_failed() {
    let payload = frame(3, &[0xff, 0x00, 0x13]);
    assert!(matches!(
        parse_chunk(&payload),
        Err(ChunkParseError::ParseFailed(_))
    ));
}

#[test]
fn gzip_payload_roundtrips() {
    let body = serialize_nbt(
        &nbt_str(""),
        &root_compound(0, vec![section_compound(vec!["minecraft:stone"], None)]),
    );
    let mut enc = flate2::write::GzEncoder::new(Vec::new(), flate2::Compression::default());
    enc.write_all(&body).unwrap();
    let compressed = enc.finish().unwrap();
    let chunk = parse_chunk(&frame(1, &compressed)).unwrap();
    assert_eq!(chunk.get(0, 0, 0).unwrap().get_name(), "minecraft:stone");
}

#[test]
fn zlib_payload_roundtrips() {
    let body = serialize_nbt(
        &nbt_str(""),
        &root_compound(0, vec![section_compound(vec!["minecraft:stone"], None)]),
    );
    let mut enc = flate2::write::ZlibEncoder::new(Vec::new(), flate2::Compression::default());
    enc.write_all(&body).unwrap();
    let compressed = enc.finish().unwrap();
    let chunk = parse_chunk(&frame(2, &compressed)).unwrap();
    assert_eq!(chunk.get(0, 0, 0).unwrap().get_name(), "minecraft:stone");
}

#[test]
fn missing_y_pos_is_invalid_field() {
    let root = compound(vec![(
        "sections",
        NbtTag::List(NbtList::Compound(NbtArray::try_from(vec![]).unwrap())),
    )]);
    let r = parse_chunk(&raw_payload(&root));
    match r {
        Err(ChunkParseError::InvalidField(f)) => assert_eq!(f, "yPos"),
        other => panic!("expected InvalidField, got {:?}", other),
    }
}

#[test]
fn missing_sections_is_invalid_field() {
    let root = compound(vec![("yPos", NbtTag::Int(0))]);
    let r = parse_chunk(&raw_payload(&root));
    match r {
        Err(ChunkParseError::InvalidField(f)) => assert_eq!(f, "sections"),
        other => panic!("expected InvalidField, got {:?}", other),
    }
}

#[test]
fn empty_palette_is_invalid_palette() {
    let section = compound(vec![(
        "block_states",
        NbtTag::Compound(compound(vec![(
            "palette",
            NbtTag::List(NbtList::Compound(NbtArray::try_from(vec![]).unwrap())),
        )])),
    )]);
    let r = parse_chunk(&raw_payload(&root_compound(0, vec![section])));
    assert!(matches!(r, Err(ChunkParseError::InvalidPalette)));
}

#[test]
fn missing_data_for_multi_entry_palette_is_invalid_field() {
    let section = section_compound(vec!["minecraft:air", "minecraft:stone"], None);
    let r = parse_chunk(&raw_payload(&root_compound(0, vec![section])));
    match r {
        Err(ChunkParseError::InvalidField(f)) => assert_eq!(f, "data"),
        other => panic!("expected InvalidField, got {:?}", other),
    }
}

#[test]
fn short_data_is_invalid_section_data() {
    let section = section_compound(
        vec!["minecraft:air", "minecraft:stone"],
        Some(vec![0i64; 255]),
    );
    let r = parse_chunk(&raw_payload(&root_compound(0, vec![section])));
    assert!(matches!(r, Err(ChunkParseError::InvalidSectionData)));
}

#[test]
fn out_of_range_index_is_invalid_section_data() {
    let section = section_compound(
        vec!["minecraft:air", "minecraft:stone"],
        Some(vec![0x5555_5555_5555_5555u64 as i64; 256]),
    );
    let r = parse_chunk(&raw_payload(&root_compound(0, vec![section])));
    assert!(matches!(r, Err(ChunkParseError::InvalidSectionData)));
}

#[test]
fn single_entry_palette_fills_section_and_ignores_data() {
    // The garbage long array would be rejected as index data, but a
    // single-entry palette never reads it.
    let section = section_compound(vec!["minecraft:bedrock"], Some(vec![-1i64; 3]));
    let chunk = parse_chunk(&raw_payload(&root_compound(0, vec![section]))).unwrap();
    for x in 0..16u8 {
        for z in 0..16u8 {
            for y in 0..16i16 {
                let b = chunk.get(x, y, z).unwrap();
                assert_eq!(b.get_name(), "minecraft:bedrock");
                assert!(b.get_properties().is_none());
            }
        }
    }
}

#[test]
fn two_entry_palette_resolves_packed_indices() {
    // 4-bit indices, alternating 0 and 1 in every word.
    let words = vec![0x1010_1010_1010_1010u64 as i64; 256];
    let section = section_compound(vec!["minecraft:air", "minecraft:stone"], Some(words));
    let chunk = parse_chunk(&raw_payload(&root_compound(0, vec![section]))).unwrap();
    assert_eq!(chunk.get(0, 0, 0).unwrap().get_name(), "minecraft:air");
    assert_eq!(chunk.get(1, 0, 0).unwrap().get_name(), "minecraft:stone");
    assert_eq!(chunk.get(2, 0, 0).unwrap().get_name(), "minecraft:air");
    assert_eq!(chunk.get(15, 15, 15).unwrap().get_name(), "minecraft:stone");
}

#[test]
fn palette_properties_are_kept() {
    let entry = compound(vec![
        ("Name", NbtTag::String(nbt_str("minecraft:oak_stairs"))),
        (
            "Properties",
            NbtTag::Compound(compound(vec![(
                "facing",
                NbtTag::String(nbt_str("north")),
            )])),
        ),
    ]);
    let section = compound(vec![(
        "block_states",
        NbtTag::Compound(compound(vec![(
            "palette",
            NbtTag::List(NbtList::Compound(NbtArray::try_from(vec![entry]).unwrap())),
        )])),
    )]);
    let chunk = parse_chunk(&raw_payload(&root_compound(0, vec![section]))).unwrap();
    let block = chunk.get(0, 0, 0).unwrap();
    assert_eq!(block.get_name(), "minecraft:oak_stairs");
    let props = block.get_properties().as_ref().unwrap();
    assert_eq!(
        props.get("facing"),
        Some(&NbtTag::String(nbt_str("north")))
    );
}

#[test]
fn extreme_y_pos_is_accepted() {
    // Any well-typed yPos decodes; cells beyond the 16-bit coordinate space
    // are simply unreachable through get, and get_section still works.
    let section = section_compound(vec!["minecraft:stone"], None);
    let chunk = parse_chunk(&raw_payload(&root_compound(3000, vec![section]))).unwrap();
    assert_eq!(chunk.get_y_range(), (48000, 48016));
    assert!(chunk.get(0, 32767, 0).is_none());
    assert!(chunk.get(0, -32768, 0).is_none());
    let s = chunk.get_section(3000).unwrap();
    assert_eq!(s.get_block(0, 0, 0).unwrap().get_name(), "minecraft:stone");
    assert!(chunk.get_section(3001).is_none());

    let low = parse_chunk(&raw_payload(&root_compound(
        -2_000_000,
        vec![section_compound(vec!["minecraft:air"], None)],
    )))
    .unwrap();
    assert_eq!(low.get_y_range(), (-32_000_000, -31_999_984));
    assert!(low.get(0, 0, 0).is_none());
}

#[test]
fn coordinate_mapping_across_24_sections() {
    // yPos = -4 with 24 single-entry sections: Y range is [-64, 320).
    let sections: Vec<NbtCompound> = (0..24)
        .map(|i| {
            let name = format!("s{}", i);
            section_compound(vec![name.as_str()], None)
        })
        .collect();
    let chunk = parse_chunk(&raw_payload(&root_compound(-4, sections))).unwrap();

    assert_eq!(chunk.get_y_range(), (-64, 320));

    // Bottom cell of section 0 and top cell of section 23.
    assert_eq!(chunk.get(0, -64, 0).unwrap().get_name(), "s0");
    assert_eq!(chunk.get(0, 319, 0).unwrap().get_name(), "s23");
    assert_eq!(chunk.get(5, 0, 5).unwrap().get_name(), "s4");

    // Outside the Y range, or outside x, z in [0, 16): none.
    assert!(chunk.get(0, -65, 0).is_none());
    assert!(chunk.get(0, 320, 0).is_none());
    assert!(chunk.get(16, 0, 0).is_none());
    assert!(chunk.get(0, 0, 16).is_none());

    // Sections by vertical index.
    let s = chunk.get_section(-4).unwrap();
    assert_eq!(s.get_block(0, 0, 0).unwrap().get_name(), "s0");
    let s = chunk.get_section(19).unwrap();
    assert_eq!(s.get_block(15, 15, 15).unwrap().get_name(), "s23");
    assert!(chunk.get_section(-5).is_none());
    assert!(chunk.get_section(20).is_none());

    // Section-level bounds checking.
    let s = chunk.get_section(0).unwrap();
    assert!(s.get_block(16, 0, 0).is_none());
    assert!(s.get_block(0, 16, 0).is_none());
    assert!(s.get_block(0, 0, 16).is_none());
}
