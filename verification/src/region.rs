//! The region container: up to 1024 optional chunks in a 32x32 grid.

use vstd::prelude::*;

verus! {

use crate::chunk::Chunk;
use crate::chunk::be32_at;
use crate::chunk::chunk_decodes;
use crate::chunk::chunk_matches_payload;
use crate::chunk::parse_chunk;

/// Why a region container buffer was rejected before any chunk decoding.
#[derive(Debug)]
pub enum RegionParseError {
    /// The buffer is shorter than the 8192-byte header.
    InputTooShort(usize),
    /// The buffer's length is not a whole multiple of 4096.
    InputInvalidSize(usize),
}

/// The 24-bit big-endian sector offset of grid cell `j`.
pub open spec fn loc_offset(s: Seq<u8>, j: int) -> int {
    s[4 * j] * 0x10000 + s[4 * j + 1] * 0x100 + s[4 * j + 2]
}

/// The sector count of grid cell `j`.
pub open spec fn loc_count(s: Seq<u8>, j: int) -> int {
    s[4 * j + 3] as int
}

/// The big-endian timestamp of grid cell `j`.
pub open spec fn cell_timestamp(s: Seq<u8>, j: int) -> int {
    be32_at(s, 4096 + 4 * j)
}

/// A cell is absent exactly when its offset, sector count and timestamp are
/// all zero.
pub open spec fn cell_absent(s: Seq<u8>, j: int) -> bool {
    loc_offset(s, j) == 0 && loc_count(s, j) == 0 && cell_timestamp(s, j) == 0
}

/// Whether the payload sectors of cell `j` lie inside the buffer.
pub open spec fn payload_in_bounds(s: Seq<u8>, j: int) -> bool {
    loc_offset(s, j) * 4096 + loc_count(s, j) * 4096 <= s.len()
}

/// The payload bytes of cell `j`: its whole sector run.
pub open spec fn cell_payload(s: Seq<u8>, j: int) -> Seq<u8> {
    s.subrange(loc_offset(s, j) * 4096, loc_offset(s, j) * 4096 + loc_count(s, j) * 4096)
}

/// Whether cell `j` of buffer `s` holds a chunk: it is not marked absent,
/// its sectors lie inside the buffer, and its payload decodes.
pub open spec fn cell_present(s: Seq<u8>, j: int) -> bool {
    &&& !cell_absent(s, j)
    &&& payload_in_bounds(s, j)
    &&& chunk_decodes(cell_payload(s, j))
}

/// How many cells of `s` hold a chunk.
pub open spec fn count_present(s: Seq<Option<Chunk>>) -> int
    decreases s.len(),
{
    if s.len() == 0 {
        0
    } else {
        count_present(s.drop_last()) + if s.last() is Some {
            1int
        } else {
            0int
        }
    }
}

/// Exactly 1024 optional chunks, one per `(x, z)` cell of a 32x32 grid;
/// absent entries are unpopulated world areas.
#[derive(Debug, Clone, PartialEq)]
pub struct Region {
    pub(crate) chunks: Vec<Option<Chunk>>,
}

impl Region {
    /// The grid cells, in row-major `x + z * 32` order.
    pub closed spec fn spec_chunks(&self) -> Seq<Option<Chunk>> {
        self.chunks@
    }

    /// Well-formedness: exactly 1024 cells, each held chunk well-formed.
    pub open spec fn wf(&self) -> bool {
        &&& self.spec_chunks().len() == 1024
        &&& forall|j: int|
            0 <= j < 1024 ==> match #[trigger] self.spec_chunks()[j] {
                Option::Some(c) => c.wf(),
                Option::None => true,
            }
    }

    /// Decodes a region container buffer. The buffer must hold at least the
    /// 8192-byte header and be a whole multiple of 4096 bytes long; each of
    /// the 1024 cells is then decoded independently, and any per-cell
    /// failure (bad framing, bad compression, malformed document, invalid
    /// palette or index data) degrades that one cell to absent.
    pub fn parse_bytes(bytes: &[u8]) -> (r: Result<Region, RegionParseError>)
        ensures
            ({
                let n = bytes@.len() as int;
                &&& ((r matches Err(e) && e matches RegionParseError::InputTooShort(a)) <==> n
                    < 8192)
                &&& ((r matches Err(e) && e matches RegionParseError::InputInvalidSize(a)) <==> (n
                    >= 8192 && n % 4096 != 0))
                &&& (r matches Err(e) ==> (e matches RegionParseError::InputTooShort(a) ==> a
                    == n))
                &&& (r matches Err(e) ==> (e matches RegionParseError::InputInvalidSize(a) ==> a
                    == n))
                &&& (r matches Ok(reg) ==> {
                    &&& n >= 8192 && n % 4096 == 0
                    &&& reg.wf()
                    &&& forall|j: int|
                        0 <= j < 1024 ==> ((#[trigger] reg.spec_chunks()[j]) is Some
                            <==> cell_present(bytes@, j))
                    &&& forall|j: int|
                        0 <= j < 1024 ==> ((#[trigger] reg.spec_chunks()[j]) matches Some(c) ==> (
                        c.wf() && chunk_matches_payload(c, cell_payload(bytes@, j))))
                })
            }),
    {
        let n = bytes.len();
        if n < 8192 {
            return Err(RegionParseError::InputTooShort(n));
        }
        if n % 4096 != 0 {
            return Err(RegionParseError::InputInvalidSize(n));
        }
        let mut chunks: Vec<Option<Chunk>> = Vec::new();
        let mut j: usize = 0;
        while j < 1024
            invariant
                n == bytes@.len(),
                n >= 8192,
                j <= 1024,
                chunks@.len() == j,
                forall|k: int|
                    0 <= k < j ==> match #[trigger] chunks@[k] {
                        Option::Some(c) => c.wf(),
                        Option::None => true,
                    },
                forall|k: int|
                    0 <= k < j ==> ((#[trigger] chunks@[k]) is Some <==> cell_present(bytes@, k)),
                forall|k: int|
                    0 <= k < j ==> ((#[trigger] chunks@[k]) matches Some(c) ==> chunk_matches_payload(
                        c,
                        cell_payload(bytes@, k),
                    )),
            decreases 1024 - j,
        {
            let offset: u32 = (bytes[4 * j] as u32) * 0x10000 + (bytes[4 * j + 1] as u32) * 0x100
                + (bytes[4 * j + 2] as u32);
            let count: u8 = bytes[4 * j + 3];
            let t = 4096 + 4 * j;
            let timestamp: u32 = (bytes[t] as u32) * 0x1000000 + (bytes[t + 1] as u32) * 0x10000 + (
            bytes[t + 2] as u32) * 0x100 + (bytes[t + 3] as u32);
            if offset == 0 && count == 0 && timestamp == 0 {
                chunks.push(None);
            } else {
                let start64: u64 = (offset as u64) * 4096;
                let len64: u64 = (count as u64) * 4096;
                if start64 + len64 > n as u64 {
                    chunks.push(None);
                } else {
                    let start: usize = start64 as usize;
                    let end: usize = (start64 + len64) as usize;
                    let payload: &[u8] = &bytes[start..end];
                    match parse_chunk(payload) {
                        Ok(c) => chunks.push(Some(c)),
                        Err(_) => chunks.push(None),
                    }
                }
            }
            j = j + 1;
        }
        Ok(Region { chunks })
    }

    /// The number of present (non-absent) cells.
    pub fn count_chunks(&self) -> (r: u16)
        requires
            self.wf(),
        ensures
            r as int == count_present(self.spec_chunks()),
    {
        let mut cnt: u16 = 0;
        let mut j: usize = 0;
        while j < self.chunks.len()
            invariant
                self.chunks@.len() == 1024,
                j <= 1024,
                cnt as int == count_present(self.chunks@.subrange(0, j as int)),
                cnt <= j,
            decreases self.chunks@.len() - j,
        {
            let present = match &self.chunks[j] {
                Some(_) => true,
                None => false,
            };
            if present {
                cnt = cnt + 1;
            }
            proof {
                let pre = self.chunks@.subrange(0, j as int);
                let post = self.chunks@.subrange(0, j as int + 1);
                assert(post.drop_last() =~= pre);
                assert(post.last() == self.chunks@[j as int]);
            }
            j = j + 1;
        }
        proof {
            assert(self.chunks@.subrange(0, 1024) =~= self.chunks@);
        }
        cnt
    }

    /// The chunk at grid cell `(x, z)`, or `None` when the coordinates are
    /// out of range or the cell is absent.
    pub fn get_chunk(&self, x: usize, z: usize) -> (r: Option<&Chunk>)
        requires
            self.wf(),
        ensures
            match r {
                Some(c) => x < 32 && z < 32 && self.spec_chunks()[x as int + z as int * 32]
                    == Some(*c),
                None => !(x < 32 && z < 32) || self.spec_chunks()[x as int + z as int * 32]
                    is None,
            },
    {
        if x >= 32 || z >= 32 {
            return None;
        }
        let index = x + z * 32;
        self.chunks[index].as_ref()
    }
}

} // verus!
