//! The block explorer's browsing cursor: which height is on show, moved one
//! block at a time within the chain. The rendering around it stays outside.

use vstd::prelude::*;

verus! {

/// A cursor over the chain's heights.
pub struct BlockExplorer {
    pub height: u32,
}

impl BlockExplorer {
    /// A cursor opened at the given height.
    pub fn new(height: u32) -> (r: BlockExplorer)
        ensures
            r.height == height,
    {
        BlockExplorer { height }
    }

    /// Step back one block, stopping at the bottom.
    pub fn back(&mut self)
        ensures
            final(self).height == if old(self).height > 0 {
                (old(self).height - 1) as u32
            } else {
                0
            },
    {
        if self.height > 0 {
            self.height = self.height - 1;
        }
    }

    /// Step forward one block, stopping at the chain tip.
    pub fn forward(&mut self, max_height: u32)
        ensures
            final(self).height == if old(self).height < max_height {
                (old(self).height + 1) as u32
            } else {
                old(self).height
            },
    {
        if self.height < max_height {
            self.height = self.height + 1;
        }
    }

    /// Jump to the chain tip.
    pub fn latest(&mut self, max_height: u32)
        ensures
            final(self).height == max_height,
    {
        self.height = max_height;
    }
}

} // verus!
