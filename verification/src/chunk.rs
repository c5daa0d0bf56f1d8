//! One decoded chunk: a vertical stack of sections, and the decoder that
//! assembles it from a located payload.

use vstd::prelude::*;
use vstd::string::StringExecFns;

verus! {

use crate::block::Block;
use crate::codec;
use crate::compress;
use crate::nbt;
use crate::section::Section;
use crate::section::spec_pos;

/// Why decoding one chunk payload failed.
#[derive(Debug)]
pub enum ChunkParseError {
    /// The payload is shorter than the header or its declared body needs
    /// (expected, actual).
    InputTooShort(usize, usize),
    /// The compression tag is not one of the supported codecs.
    UnsupportedCompression,
    /// The compressed body is truncated or corrupt.
    DecompressionFailed(String),
    /// The decompressed bytes are not a well-formed NBT document.
    ParseFailed(nbt_rs::error::ParseError),
    /// A required field is missing or has the wrong declared type.
    InvalidField(String),
    /// The palette is empty or larger than a section.
    InvalidPalette,
    /// The index data is too short or holds an out-of-range index.
    InvalidSectionData,
}

/// The big-endian 32-bit integer at offset `i` of `s`.
pub open spec fn be32_at(s: Seq<u8>, i: int) -> int {
    s[i] * 0x1000000 + s[i + 1] * 0x10000 + s[i + 2] * 0x100 + s[i + 3]
}

/// `v` clamped to the largest value a `usize` can hold.
pub open spec fn clamp_usize(v: int) -> int {
    if v > usize::MAX {
        usize::MAX as int
    } else {
        v
    }
}

/// Whether a payload holds its 5-byte inner header and the declared body.
pub open spec fn payload_framing_ok(s: Seq<u8>) -> bool {
    s.len() >= 5 && s.len() >= be32_at(s, 0) + 5
}

/// The compression tag of a framed payload.
pub open spec fn payload_tag(s: Seq<u8>) -> u8 {
    s[4]
}

/// The compressed body of a framed payload.
pub open spec fn payload_body(s: Seq<u8>) -> Seq<u8> {
    s.subrange(5, 5 + be32_at(s, 0))
}

/// The long array reinterpreted as unsigned 64-bit words.
pub open spec fn as_words(s: Seq<i64>) -> Seq<u64> {
    s.map(|_i: int, x: i64| x as u64)
}

/// The integer field of a compound under `name`: `None` when the field is
/// missing or not an Int.
pub open spec fn field_int(c: nbt_rs::types::NbtCompound, name: Seq<char>) -> Option<i32> {
    match nbt::compound_field(c, name) {
        Option::Some(t) => nbt::tag_int(t),
        Option::None => Option::None,
    }
}

/// The compound field of a compound under `name`: `None` when missing or
/// not a compound.
pub open spec fn field_compound(c: nbt_rs::types::NbtCompound, name: Seq<char>) -> Option<
    nbt_rs::types::NbtCompound,
> {
    match nbt::compound_field(c, name) {
        Option::Some(t) => nbt::tag_compound(t),
        Option::None => Option::None,
    }
}

/// The list-of-compound field of a compound under `name`: `None` when
/// missing, not a list, or a list of another kind.
pub open spec fn field_compound_list(c: nbt_rs::types::NbtCompound, name: Seq<char>) -> Option<
    Seq<nbt_rs::types::NbtCompound>,
> {
    match nbt::compound_field(c, name) {
        Option::Some(t) => match nbt::tag_list(t) {
            Option::Some(l) => match nbt::list_compounds(l) {
                Option::Some(a) => Option::Some(nbt::compound_array_values(a)),
                Option::None => Option::None,
            },
            Option::None => Option::None,
        },
        Option::None => Option::None,
    }
}

/// The long-array field of a compound under `name`: `None` when missing or
/// not a long array.
pub open spec fn field_long_array(c: nbt_rs::types::NbtCompound, name: Seq<char>) -> Option<
    Seq<i64>,
> {
    match nbt::compound_field(c, name) {
        Option::Some(t) => match nbt::tag_long_array(t) {
            Option::Some(a) => Option::Some(nbt::long_array_values(a)),
            Option::None => Option::None,
        },
        Option::None => Option::None,
    }
}

/// The string field of a compound under `name`, as its characters: `None`
/// when missing or not a string.
pub open spec fn field_string_chars(c: nbt_rs::types::NbtCompound, name: Seq<char>) -> Option<
    Seq<char>,
> {
    match nbt::compound_field(c, name) {
        Option::Some(t) => match nbt::tag_string(t) {
            Option::Some(s) => Option::Some(nbt::string_chars(s)),
            Option::None => Option::None,
        },
        Option::None => Option::None,
    }
}

/// The voxel name a palette entry declares.
pub open spec fn entry_name_chars(e: nbt_rs::types::NbtCompound) -> Option<Seq<char>> {
    field_string_chars(e, "Name"@)
}

/// The optional state properties a palette entry declares; a wrong-typed
/// `Properties` field reads as none.
pub open spec fn entry_properties(e: nbt_rs::types::NbtCompound) -> Option<
    nbt_rs::types::NbtCompound,
> {
    field_compound(e, "Properties"@)
}

/// Whether a decoded `Block` is exactly what a palette entry declares.
pub open spec fn block_matches(b: Block, e: nbt_rs::types::NbtCompound) -> bool {
    &&& entry_name_chars(e) matches Some(n) && b.spec_name()@ == n
    &&& b.spec_properties() == entry_properties(e)
}

/// Whether every palette entry declares a string `Name`.
pub open spec fn palette_names_ok(pal: Seq<nbt_rs::types::NbtCompound>) -> bool {
    forall|j: int| 0 <= j < pal.len() ==> (#[trigger] entry_name_chars(pal[j])) is Some
}

/// How decoding a document (or one of its sections) ends: a missing or
/// wrong-typed required field, an invalid palette, invalid index data, or
/// success.
pub enum DocOutcome {
    MissingField(Seq<char>),
    BadPalette,
    BadData,
    Decoded,
}

/// How decoding one section compound ends, with the checks in the order the
/// decoder makes them.
pub open spec fn section_outcome(sc: nbt_rs::types::NbtCompound) -> DocOutcome {
    match field_compound(sc, "block_states"@) {
        Option::None => DocOutcome::MissingField("block_states"@),
        Option::Some(bs) => match field_compound_list(bs, "palette"@) {
            Option::None => DocOutcome::MissingField("palette"@),
            Option::Some(pal) => if !palette_names_ok(pal) {
                DocOutcome::MissingField("Name"@)
            } else if pal.len() > 1 && field_long_array(bs, "data"@) is None {
                DocOutcome::MissingField("data"@)
            } else if pal.len() == 0 || pal.len() > 4096 {
                DocOutcome::BadPalette
            } else if pal.len() == 1 {
                DocOutcome::Decoded
            } else if !codec::spec_section_data_ok(
                pal.len() as int,
                as_words(field_long_array(bs, "data"@).unwrap()),
            ) {
                DocOutcome::BadData
            } else {
                DocOutcome::Decoded
            },
        },
    }
}

/// The palette entry that fills cell `i` of a decoded section: entry 0 for a
/// single-entry palette, the `i`-th unpacked index otherwise.
pub open spec fn section_cell_entry(sc: nbt_rs::types::NbtCompound, i: int) -> int {
    let bs = field_compound(sc, "block_states"@).unwrap();
    let pal = field_compound_list(bs, "palette"@).unwrap();
    if pal.len() == 1 {
        0
    } else {
        codec::spec_unpacked(
            pal.len() as int,
            as_words(field_long_array(bs, "data"@).unwrap()),
        )[i] as int
    }
}

/// Whether a decoded `Section` holds exactly what a section compound
/// declares: 4096 cells, each the palette entry its packed index selects.
pub open spec fn section_matches(s: Section, sc: nbt_rs::types::NbtCompound) -> bool {
    let bs = field_compound(sc, "block_states"@).unwrap();
    let pal = field_compound_list(bs, "palette"@).unwrap();
    &&& s@.len() == 4096
    &&& forall|i: int| 0 <= i < 4096 ==> block_matches(#[trigger] s@[i], pal[section_cell_entry(sc, i)])
}

/// How decoding a list of sections ends: the first failing section's
/// outcome, in order, or success when all decode.
pub open spec fn sections_outcome(secs: Seq<nbt_rs::types::NbtCompound>) -> DocOutcome
    decreases secs.len(),
{
    if secs.len() == 0 {
        DocOutcome::Decoded
    } else if !(section_outcome(secs[0]) is Decoded) {
        section_outcome(secs[0])
    } else {
        sections_outcome(secs.subrange(1, secs.len() as int))
    }
}

proof fn lemma_sections_outcome_skip(secs: Seq<nbt_rs::types::NbtCompound>, i: int)
    requires
        0 <= i <= secs.len(),
        forall|k: int| 0 <= k < i ==> (#[trigger] section_outcome(secs[k])) is Decoded,
    ensures
        sections_outcome(secs) == sections_outcome(secs.subrange(i, secs.len() as int)),
    decreases i,
{
    if i > 0 {
        let tail = secs.subrange(1, secs.len() as int);
        assert forall|k: int| 0 <= k < i - 1 implies (#[trigger] section_outcome(tail[k]))
            is Decoded by {
            assert(tail[k] == secs[k + 1]);
        }
        lemma_sections_outcome_skip(tail, i - 1);
        assert(tail.subrange(i - 1, tail.len() as int) =~= secs.subrange(i, secs.len() as int));
        assert(section_outcome(secs[0]) is Decoded);
        assert(sections_outcome(secs) == sections_outcome(tail));
    } else {
        assert(secs.subrange(0, secs.len() as int) =~= secs);
    }
}

/// How decoding a whole chunk document ends, with the checks in the order
/// the decoder makes them: `yPos`, then `sections`, then each section in
/// order. A missing-field outcome arises only from a field that is absent
/// or has the wrong declared type.
pub open spec fn doc_outcome(root: nbt_rs::types::NbtCompound) -> DocOutcome {
    match field_int(root, "yPos"@) {
        Option::None => DocOutcome::MissingField("yPos"@),
        Option::Some(y) => match field_compound_list(root, "sections"@) {
            Option::None => DocOutcome::MissingField("sections"@),
            Option::Some(secs) => sections_outcome(secs),
        },
    }
}

/// Whether a decoded `Chunk` holds exactly what a document declares: its
/// `yPos`, and one matching section per `sections` entry, in order.
pub open spec fn chunk_matches_doc(c: Chunk, root: nbt_rs::types::NbtCompound) -> bool {
    &&& field_int(root, "yPos"@) matches Some(y) && c.spec_y_pos() == y
    &&& field_compound_list(root, "sections"@) matches Some(secs) && c.spec_sections().len()
        == secs.len() && (forall|k: int|
        0 <= k < secs.len() ==> section_matches(#[trigger] c.spec_sections()[k], secs[k]))
}

/// Whether a framed payload decodes all the way to a chunk: framing holds,
/// the body decompresses, the bytes parse as a document, and the document
/// decodes.
pub open spec fn chunk_decodes(s: Seq<u8>) -> bool {
    &&& payload_framing_ok(s)
    &&& compress::spec_inflate(payload_tag(s), payload_body(s)) matches Some(d)
        && nbt::nbt_parses(d) && doc_outcome(nbt::nbt_root(d)) is Decoded
}

/// Whether a decoded `Chunk` holds exactly what a framed payload declares.
pub open spec fn chunk_matches_payload(c: Chunk, s: Seq<u8>) -> bool {
    chunk_matches_doc(
        c,
        nbt::nbt_root(compress::spec_inflate(payload_tag(s), payload_body(s)).unwrap()),
    )
}

/// A vertical stack of sections; `y_pos` is the vertical index of the
/// bottom section, in units of 16-block sections.
#[derive(Debug, Clone, PartialEq)]
pub struct Chunk {
    pub(crate) y_pos: i32,
    pub(crate) sections: Vec<Section>,
}

impl Chunk {
    /// The vertical index of the bottom section.
    pub closed spec fn spec_y_pos(&self) -> int {
        self.y_pos as int
    }

    /// The stack of sections, bottom to top.
    pub closed spec fn spec_sections(&self) -> Seq<Section> {
        self.sections@
    }

    /// Well-formedness: every section is well-formed, and the section count
    /// stays within what one NBT list can declare (a machine limit, not a
    /// restriction on any decodable document).
    pub open spec fn wf(&self) -> bool {
        &&& self.spec_sections().len() <= 0x7fff_ffff
        &&& forall|i: int|
            0 <= i < self.spec_sections().len() ==> (#[trigger] self.spec_sections()[i]).wf()
    }

    /// The half-open range of world Y coordinates this chunk covers.
    pub fn get_y_range(&self) -> (r: (i64, i64))
        requires
            self.wf(),
        ensures
            r.0 == self.spec_y_pos() * 16,
            r.1 == self.spec_y_pos() * 16 + self.spec_sections().len() * 16,
    {
        let start: i64 = (self.y_pos as i64) * 16;
        let end: i64 = start + (self.sections.len() as i64) * 16;
        (start, end)
    }

    /// The voxel at world coordinates `(x, y, z)`, or `None` when `x` or
    /// `z` is outside `[0, 16)` or `y` outside the chunk's Y range.
    pub fn get(&self, x: u8, y: i16, z: u8) -> (r: Option<&Block>)
        requires
            self.wf(),
        ensures
            match &r {
                Some(b) => {
                    &&& x < 16
                    &&& z < 16
                    &&& self.spec_y_pos() * 16 <= y < self.spec_y_pos() * 16
                        + self.spec_sections().len() * 16
                    &&& *b == self.spec_sections()[(y - self.spec_y_pos() * 16) / 16]@[spec_pos(
                        x as int,
                        (y - self.spec_y_pos() * 16) % 16,
                        z as int,
                    )]
                },
                None => !(x < 16 && z < 16 && self.spec_y_pos() * 16 <= y < self.spec_y_pos() * 16
                    + self.spec_sections().len() * 16),
            },
    {
        if x >= 16 || z >= 16 {
            return None;
        }
        let start: i64 = (self.y_pos as i64) * 16;
        let len16: i64 = (self.sections.len() as i64) * 16;
        if (y as i64) < start || (y as i64) >= start + len16 {
            return None;
        }
        let local_y: i64 = (y as i64) - start;
        let section: usize = (local_y / 16) as usize;
        let within: u8 = (local_y % 16) as u8;
        let r = self.sections[section].get_block(x, within, z);
        proof {
            assert(self.spec_sections()[section as int].wf());
            assert(within < 16);
        }
        r
    }

    /// The section at vertical section index `y`, or `None` when `y` is out
    /// of range.
    pub fn get_section(&self, y: i32) -> (r: Option<&Section>)
        requires
            self.wf(),
        ensures
            match &r {
                Some(s) => self.spec_y_pos() <= y < self.spec_y_pos()
                    + self.spec_sections().len() && *s == self.spec_sections()[y
                    - self.spec_y_pos()],
                None => !(self.spec_y_pos() <= y < self.spec_y_pos()
                    + self.spec_sections().len()),
            },
    {
        let d: i64 = (y as i64) - (self.y_pos as i64);
        if d < 0 || d >= self.sections.len() as i64 {
            return None;
        }
        Some(&self.sections[d as usize])
    }
}

/// Builds one section from its decoded palette and its optional raw index
/// data, enforcing the palette and index-array invariants: the palette must
/// have 1 to 4096 entries; a single-entry palette fills every cell with
/// that entry and ignores `data` entirely; a larger palette requires `data`
/// to be present, long enough, and free of out-of-range indices.
pub fn build_section(palette: Vec<Block>, data: Option<Vec<i64>>) -> (r: Result<
    Section,
    ChunkParseError,
>)
    ensures
        ({
            let p = palette@.len() as int;
            let dwords = (match data {
                Option::Some(d) => as_words(d@),
                Option::None => Seq::<u64>::empty(),
            });
            let dok = data is Some && codec::spec_section_data_ok(p, dwords);
            &&& ((r matches Err(e) && e == ChunkParseError::InvalidPalette) <==> (p == 0 || p
                > 4096))
            &&& ((r matches Err(e) && e matches ChunkParseError::InvalidField(f) && f@ == "data"@)
                <==> (2 <= p <= 4096 && data is None))
            &&& ((r matches Err(e) && e == ChunkParseError::InvalidSectionData) <==> (2 <= p
                <= 4096 && data is Some && !dok))
            &&& (p == 1 ==> (r matches Ok(s) && s@ == Seq::new(4096, |i: int| palette@[0])))
            &&& ((2 <= p <= 4096 && dok) ==> (r matches Ok(s) && s@ == Seq::new(
                4096,
                |i: int| palette@[codec::spec_unpacked(p, dwords)[i] as int],
            )))
            &&& (r matches Ok(s) ==> s.wf() && s@.len() == 4096)
        }),
{
    let p = palette.len();
    if p == 0 || p > 4096 {
        return Err(ChunkParseError::InvalidPalette);
    }
    if p == 1 {
        let mut cells: Vec<usize> = Vec::new();
        let mut i: usize = 0;
        while i < 4096
            invariant
                i <= 4096,
                cells@.len() == i,
                forall|j: int| 0 <= j < i ==> (#[trigger] cells@[j]) == 0,
            decreases 4096 - i,
        {
            cells.push(0);
            i = i + 1;
        }
        let s = Section::from_parts(palette, cells);
        proof {
            assert(s@ =~= Seq::new(4096, |i: int| palette@[0]));
        }
        return Ok(s);
    }
    let d = match data {
        Some(d) => d,
        None => {
            return Err(ChunkParseError::InvalidField(String::from_str("data")));
        },
    };
    let mut words: Vec<u64> = Vec::new();
    let mut i: usize = 0;
    while i < d.len()
        invariant
            i <= d@.len(),
            words@.len() == i,
            forall|j: int| 0 <= j < i ==> (#[trigger] words@[j]) == (d@[j] as u64),
        decreases d@.len() - i,
    {
        words.push(d[i] as u64);
        i = i + 1;
    }
    proof {
        assert(words@ =~= as_words(d@));
    }
    match codec::unpack_indices(p, &words) {
        Some(cells) => {
            let ghost pal = palette@;
            let s = Section::from_parts(palette, cells);
            proof {
                assert(s@ =~= Seq::new(
                    4096,
                    |i: int| pal[codec::spec_unpacked(p as int, as_words(d@))[i] as int],
                ));
            }
            Ok(s)
        },
        None => Err(ChunkParseError::InvalidSectionData),
    }
}

/// Looks up an integer field of a compound.
fn get_int_field(c: &nbt_rs::types::NbtCompound, name: &str) -> (r: Option<i32>)
    ensures
        r == field_int(*c, name@),
{
    match c.get(name) {
        Some(t) => match t.as_int() {
            Some(v) => Some(*v),
            None => None,
        },
        None => None,
    }
}

/// Looks up a list-of-compound field of a compound and copies it out.
fn get_compound_list_field(c: &nbt_rs::types::NbtCompound, name: &str) -> (r: Option<
    Vec<nbt_rs::types::NbtCompound>,
>)
    ensures
        r is Some <==> field_compound_list(*c, name@) is Some,
        r matches Some(v) ==> Some(v@) == field_compound_list(*c, name@),
        r matches Some(v) ==> v@.len() <= 0x7fff_ffff,
{
    match c.get(name) {
        Some(t) => match t.as_list() {
            Some(l) => match l.as_compound() {
                Some(a) => Some(nbt::compound_array_items(a)),
                None => None,
            },
            None => None,
        },
        None => None,
    }
}

/// Decodes one section compound: its `block_states` palette and, when the
/// palette has more than one entry, its packed `data` long array. The
/// result is classified exactly by `section_outcome`, and a decoded section
/// holds exactly what the compound declares.
fn decode_section(section: &nbt_rs::types::NbtCompound) -> (r: Result<Section, ChunkParseError>)
    ensures
        ({
            let out = section_outcome(*section);
            &&& (r is Ok <==> out is Decoded)
            &&& (r matches Ok(s) ==> s.wf() && section_matches(s, *section))
            &&& (out matches DocOutcome::MissingField(n) ==> (r matches Err(e) && e matches
                ChunkParseError::InvalidField(f) && f@ == n))
            &&& (out is BadPalette ==> r == Err::<Section, ChunkParseError>(
                ChunkParseError::InvalidPalette,
            ))
            &&& (out is BadData ==> r == Err::<Section, ChunkParseError>(
                ChunkParseError::InvalidSectionData,
            ))
            &&& (r matches Err(e) ==> (e matches ChunkParseError::InvalidField(_) || e
                == ChunkParseError::InvalidPalette || e == ChunkParseError::InvalidSectionData))
        }),
{
    let block_states = match section.get("block_states") {
        Some(t) => match t.as_compound() {
            Some(c) => c,
            None => {
                return Err(ChunkParseError::InvalidField(String::from_str("block_states")));
            },
        },
        None => {
            return Err(ChunkParseError::InvalidField(String::from_str("block_states")));
        },
    };
    let palette_entries = match get_compound_list_field(block_states, "palette") {
        Some(v) => v,
        None => {
            return Err(ChunkParseError::InvalidField(String::from_str("palette")));
        },
    };
    let mut palette: Vec<Block> = Vec::new();
    let mut i: usize = 0;
    while i < palette_entries.len()
        invariant
            field_compound(*section, "block_states"@) == Some(*block_states),
            field_compound_list(*block_states, "palette"@) == Some(palette_entries@),
            i <= palette_entries@.len(),
            palette@.len() == i,
            forall|j: int|
                0 <= j < i ==> (#[trigger] entry_name_chars(palette_entries@[j])) is Some,
            forall|j: int| 0 <= j < i ==> block_matches(#[trigger] palette@[j], palette_entries@[j]),
        decreases palette_entries@.len() - i,
    {
        let entry = &palette_entries[i];
        let name = match entry.get("Name") {
            Some(t) => match t.as_string() {
                Some(s) => nbt::string_value(s),
                None => {
                    proof {
                        assert(entry_name_chars(palette_entries@[i as int]) is None);
                    }
                    return Err(ChunkParseError::InvalidField(String::from_str("Name")));
                },
            },
            None => {
                proof {
                    assert(entry_name_chars(palette_entries@[i as int]) is None);
                }
                return Err(ChunkParseError::InvalidField(String::from_str("Name")));
            },
        };
        let properties = match entry.get("Properties") {
            Some(t) => match t.as_compound() {
                Some(c) => Some(c.clone()),
                None => None,
            },
            None => None,
        };
        let b = Block::new(name, properties);
        proof {
            assert(block_matches(b, palette_entries@[i as int]));
        }
        palette.push(b);
        i = i + 1;
    }
    let data = if palette.len() > 1 {
        match block_states.get("data") {
            Some(t) => match t.as_long_array() {
                Some(a) => Some(nbt::long_array_items(a)),
                None => None,
            },
            None => None,
        }
    } else {
        None
    };
    proof {
        if palette.len() > 1 {
            assert(data is Some <==> field_long_array(*block_states, "data"@) is Some);
        }
    }
    if palette.len() > 1 && data.is_none() {
        return Err(ChunkParseError::InvalidField(String::from_str("data")));
    }
    let ghost pal = palette_entries@;
    let ghost palv = palette@;
    let ghost dopt = data;
    let r = build_section(palette, data);
    proof {
        let out = section_outcome(*section);
        let p = palv.len() as int;
        if 2 <= p <= 4096 {
            let dwords = as_words(dopt.unwrap()@);
            assert(Some(dopt.unwrap()@) == field_long_array(*block_states, "data"@));
            if codec::spec_section_data_ok(p, dwords) {
                assert(out is Decoded);
                match &r {
                    Result::Ok(s) => {
                        assert forall|i2: int| 0 <= i2 < 4096 implies block_matches(
                            #[trigger] s@[i2],
                            pal[section_cell_entry(*section, i2)],
                        ) by {
                            let idx = codec::spec_unpacked(p, dwords)[i2] as int;
                            assert(codec::spec_index_at(dwords, codec::spec_bits_for(p), i2) < p);
                            assert(s@[i2] == palv[idx]);
                            assert(block_matches(palv[idx], pal[idx]));
                            assert(section_cell_entry(*section, i2) == idx);
                        }
                        assert(section_matches(*s, *section));
                    },
                    Result::Err(_) => {},
                }
            }
        } else if p == 1 {
            assert(out is Decoded);
            match &r {
                Result::Ok(s) => {
                    assert forall|i2: int| 0 <= i2 < 4096 implies block_matches(
                        #[trigger] s@[i2],
                        pal[section_cell_entry(*section, i2)],
                    ) by {
                        assert(s@[i2] == palv[0]);
                        assert(block_matches(palv[0], pal[0]));
                    }
                    assert(section_matches(*s, *section));
                },
                Result::Err(_) => {},
            }
        } else {
            assert(out is BadPalette);
        }
    }
    r
}

/// Clamps a 64-bit count to what `usize` can report.
fn clamp_to_usize(v: u64) -> (r: usize)
    ensures
        r as int == clamp_usize(v as int),
{
    if v > usize::MAX as u64 {
        usize::MAX
    } else {
        v as usize
    }
}

/// Decodes one located chunk payload: reads the 5-byte inner header
/// (big-endian body length, then a compression tag), decompresses the body,
/// parses the NBT document, and assembles the chunk's sections.
pub fn parse_chunk(bytes: &[u8]) -> (r: Result<Chunk, ChunkParseError>)
    ensures
        ({
            let n = bytes@.len() as int;
            let l = be32_at(bytes@, 0);
            &&& ((r matches Err(e) && e matches ChunkParseError::InputTooShort(exp, act)) <==> !payload_framing_ok(bytes@))
            &&& (r matches Err(e) ==> (e matches ChunkParseError::InputTooShort(exp, act) ==> {
                &&& act == bytes@.len()
                &&& exp as int == (if n < 5 {
                    5
                } else if n < l + 4 {
                    clamp_usize(l + 4)
                } else {
                    clamp_usize(l + 5)
                })
            }))
            &&& (payload_framing_ok(bytes@) ==> {
                let tag = payload_tag(bytes@);
                let inflated = compress::spec_inflate(tag, payload_body(bytes@));
                &&& ((r matches Err(e) && e == ChunkParseError::UnsupportedCompression) <==> !(tag
                    == 1 || tag == 2 || tag == 3))
                &&& ((r matches Err(e) && e matches ChunkParseError::DecompressionFailed(_)) <==> (
                (tag == 1 || tag == 2) && inflated is None))
                &&& ((r matches Err(e) && e matches ChunkParseError::ParseFailed(_)) <==> (inflated
                    is Some && !nbt::nbt_parses(inflated.unwrap())))
                &&& ((inflated is Some && nbt::nbt_parses(inflated.unwrap())) ==> {
                    let out = doc_outcome(nbt::nbt_root(inflated.unwrap()));
                    &&& ((r matches Err(e) && e matches ChunkParseError::InvalidField(f)) <==> out
                        matches DocOutcome::MissingField(_))
                    &&& (r matches Err(e) ==> (e matches ChunkParseError::InvalidField(f) ==> (out
                        matches DocOutcome::MissingField(n) && f@ == n)))
                    &&& ((r matches Err(e) && e == ChunkParseError::InvalidPalette) <==> out
                        is BadPalette)
                    &&& ((r matches Err(e) && e == ChunkParseError::InvalidSectionData) <==> out
                        is BadData)
                })
            })
            &&& (r is Ok <==> chunk_decodes(bytes@))
            &&& (r matches Ok(c) ==> {
                let inflated = compress::spec_inflate(payload_tag(bytes@), payload_body(bytes@));
                &&& payload_framing_ok(bytes@)
                &&& inflated is Some
                &&& nbt::nbt_parses(inflated.unwrap())
                &&& c.wf()
                &&& chunk_matches_payload(c, bytes@)
            })
        }),
{
    let n = bytes.len();
    if n < 5 {
        return Err(ChunkParseError::InputTooShort(5, n));
    }
    let l64: u64 = (bytes[0] as u64) * 0x1000000 + (bytes[1] as u64) * 0x10000 + (bytes[2] as u64)
        * 0x100 + (bytes[3] as u64);
    if (n as u64) < l64 + 4 {
        return Err(ChunkParseError::InputTooShort(clamp_to_usize(l64 + 4), n));
    }
    if (n as u64) < l64 + 5 {
        return Err(ChunkParseError::InputTooShort(clamp_to_usize(l64 + 5), n));
    }
    let l = l64 as usize;
    let tag = bytes[4];
    let body: &[u8] = &bytes[5..5 + l];
    proof {
        assert(body@ == payload_body(bytes@));
        assert(tag == payload_tag(bytes@));
    }
    let data = match compress::decompress(tag, body) {
        Ok(d) => d,
        Err(e) => {
            return Err(e);
        },
    };
    let root = match nbt_rs::parse_nbt(data.as_slice()) {
        Ok(pair) => pair.1,
        Err(e) => {
            return Err(ChunkParseError::ParseFailed(e));
        },
    };
    proof {
        assert(root == nbt::nbt_root(
            compress::spec_inflate(payload_tag(bytes@), payload_body(bytes@)).unwrap(),
        ));
    }
    let y_pos = match get_int_field(&root, "yPos") {
        Some(v) => v,
        None => {
            return Err(ChunkParseError::InvalidField(String::from_str("yPos")));
        },
    };
    let section_compounds = match get_compound_list_field(&root, "sections") {
        Some(v) => v,
        None => {
            return Err(ChunkParseError::InvalidField(String::from_str("sections")));
        },
    };
    let mut sections: Vec<Section> = Vec::new();
    let mut i: usize = 0;
    while i < section_compounds.len()
        invariant
            i <= section_compounds@.len(),
            sections@.len() == i,
            forall|j: int| 0 <= j < i ==> (#[trigger] sections@[j]).wf(),
            payload_framing_ok(bytes@),
            payload_tag(bytes@) == 1 || payload_tag(bytes@) == 2 || payload_tag(bytes@) == 3,
            compress::spec_inflate(payload_tag(bytes@), payload_body(bytes@)) is Some,
            nbt::nbt_parses(
                compress::spec_inflate(payload_tag(bytes@), payload_body(bytes@)).unwrap(),
            ),
            root == nbt::nbt_root(
                compress::spec_inflate(payload_tag(bytes@), payload_body(bytes@)).unwrap(),
            ),
            field_int(root, "yPos"@) == Some(y_pos),
            field_compound_list(root, "sections"@) == Some(section_compounds@),
            section_compounds@.len() <= 0x7fff_ffff,
            forall|k: int|
                0 <= k < i ==> (#[trigger] section_outcome(section_compounds@[k])) is Decoded,
            forall|k: int|
                0 <= k < i ==> section_matches(#[trigger] sections@[k], section_compounds@[k]),
        decreases section_compounds@.len() - i,
    {
        let s = match decode_section(&section_compounds[i]) {
            Ok(s) => s,
            Err(e) => {
                proof {
                    let secs = section_compounds@;
                    lemma_sections_outcome_skip(secs, i as int);
                    assert(secs.subrange(i as int, secs.len() as int)[0] == secs[i as int]);
                    assert(doc_outcome(root) == section_outcome(secs[i as int]));
                }
                return Err(e);
            },
        };
        sections.push(s);
        i = i + 1;
    }
    proof {
        let secs = section_compounds@;
        lemma_sections_outcome_skip(secs, secs.len() as int);
        assert(secs.subrange(secs.len() as int, secs.len() as int).len() == 0);
        assert(doc_outcome(root) is Decoded);
    }
    let c = Chunk { y_pos, sections };
    Ok(c)
}

} // verus!
