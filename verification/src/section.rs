//! A fixed 16x16x16 cell of voxel references.

use vstd::prelude::*;

verus! {

use crate::block::Block;

/// The linear cell position of local coordinates `(x, y, z)`, each in
/// `[0, 16)`: x varies fastest, then z, then y.
pub open spec fn spec_pos(x: int, y: int, z: int) -> int {
    y * 256 + z * 16 + x
}

/// Exactly 4096 voxel references in a 16x16x16 grid. Cells reference a
/// shared palette of distinct voxel identities, so many cells can point at
/// one entry without duplicating it.
#[derive(Debug, Clone, PartialEq)]
pub struct Section {
    pub(crate) palette: Vec<Block>,
    pub(crate) cells: Vec<usize>,
}

impl View for Section {
    type V = Seq<Block>;

    /// A section is viewed as the sequence of its 4096 resolved voxels,
    /// in linear position order.
    closed spec fn view(&self) -> Seq<Block> {
        self.cells@.map(|_i: int, c: usize| self.palette@[c as int])
    }
}

impl Section {
    /// Well-formedness: a non-empty palette, exactly 4096 cells, and every
    /// cell referencing a palette entry.
    pub closed spec fn wf(&self) -> bool {
        &&& self.palette@.len() >= 1
        &&& self.cells@.len() == 4096
        &&& forall|i: int| 0 <= i < 4096 ==> (#[trigger] self.cells@[i]) < self.palette@.len()
    }

    /// A well-formed section always views as exactly 4096 cells.
    pub proof fn lemma_wf_view_len(&self)
        requires
            self.wf(),
        ensures
            self@.len() == 4096,
    {
    }

    /// Builds a section from a palette and 4096 resolved cell indices.
    pub(crate) fn from_parts(palette: Vec<Block>, cells: Vec<usize>) -> (r: Section)
        requires
            palette@.len() >= 1,
            cells@.len() == 4096,
            forall|i: int| 0 <= i < 4096 ==> (#[trigger] cells@[i]) < palette@.len(),
        ensures
            r.wf(),
            r@.len() == 4096,
            forall|i: int| 0 <= i < 4096 ==> (#[trigger] r@[i]) == palette@[cells@[i] as int],
    {
        let r = Section { palette, cells };
        proof {
            assert(r@.len() == 4096);
        }
        r
    }

    /// The stored voxel at `(x, y, z)`, or `None` when a coordinate is out
    /// of bounds.
    pub fn get_block(&self, x: u8, y: u8, z: u8) -> (r: Option<&Block>)
        requires
            self.wf(),
        ensures
            match r {
                Some(b) => x < 16 && y < 16 && z < 16 && *b == self@[spec_pos(
                    x as int,
                    y as int,
                    z as int,
                )],
                None => !(x < 16 && y < 16 && z < 16),
            },
    {
        if x >= 16 || y >= 16 || z >= 16 {
            return None;
        }
        let pos: usize = (y as usize) * 256 + (z as usize) * 16 + (x as usize);
        Some(&self.palette[self.cells[pos]])
    }

    /// Replaces the voxel at `(x, y, z)`; a call with any coordinate out of
    /// bounds is a silent no-op (callers must pre-validate if they need
    /// failure signaling).
    pub fn set_block(&mut self, x: u8, y: u8, z: u8, block: Block)
        requires
            old(self).wf(),
        ensures
            final(self).wf(),
            x < 16 && y < 16 && z < 16 ==> final(self)@ == old(self)@.update(
                spec_pos(x as int, y as int, z as int),
                block,
            ),
            !(x < 16 && y < 16 && z < 16) ==> *final(self) == *old(self),
    {
        if x >= 16 || y >= 16 || z >= 16 {
            return ;
        }
        let pos: usize = (y as usize) * 256 + (z as usize) * 16 + (x as usize);
        let old_idx: usize = self.cells[pos];
        // Reuse the old cell's palette slot when this cell is its only
        // reference; only a still-shared entry forces a fresh one.
        let mut shared = false;
        let mut k: usize = 0;
        while k < 4096
            invariant
                old(self).wf(),
                *self == *old(self),
                pos < 4096,
                old_idx == self.cells@[pos as int],
                k <= 4096,
                !shared ==> forall|j: int|
                    0 <= j < k && j != pos ==> (#[trigger] self.cells@[j]) != old_idx,
            decreases 4096 - k,
        {
            if k != pos && self.cells[k] == old_idx {
                shared = true;
            }
            k = k + 1;
        }
        let ghost prev = *self;
        if !shared {
            self.palette.set(old_idx, block);
            proof {
                let p = spec_pos(x as int, y as int, z as int);
                assert forall|i: int| 0 <= i < 4096 && i != p implies (#[trigger] self@[i])
                    == prev@[i] by {
                    assert(self.cells@[i] == prev.cells@[i]);
                    assert(prev.cells@[i] != old_idx);
                    assert(self.palette@[prev.cells@[i] as int] == prev.palette@[prev.cells@[
                        i] as int]);
                }
                assert(self@[p] == self.palette@[old_idx as int]);
                assert(self@ =~= prev@.update(p, block));
            }
        } else {
            let idx: usize = self.palette.len();
            self.palette.push(block);
            self.cells.set(pos, idx);
            proof {
                let p = spec_pos(x as int, y as int, z as int);
                assert forall|i: int| 0 <= i < 4096 && i != p implies (#[trigger] self@[i])
                    == prev@[i] by {
                    assert(self.cells@[i] == prev.cells@[i]);
                    assert(self.palette@[prev.cells@[i] as int] == prev.palette@[prev.cells@[
                        i] as int]);
                }
                assert(self@[p] == self.palette@[idx as int]);
                assert(self@ =~= prev@.update(p, block));
            }
        }
    }
}

} // verus!
