//! Sample maps: for each pixel of a target, the layer pixel it shows.
//!
//! A layer is drawn destination-first. Every target pixel is mapped back into
//! the layer's own pixel grid; where it lands inside the layer, the map names
//! the layer pixel below it, and where it lands outside, the map is empty.

use vstd::prelude::*;

verus! {

/// What a [`SampleMap`] holds.
pub struct SampleGrid {
    pub width: u32,
    pub height: u32,
    /// One cell per target pixel, row by row: the column and row of the layer
    /// pixel that shows there, or `None`.
    pub cells: Seq<Option<(u32, u32)>>,
}

impl SampleGrid {
    /// The grid has one cell for each target pixel.
    pub open spec fn wf(self) -> bool {
        self.cells.len() == self.width as nat * self.height as nat
    }

    /// The layer pixel that target pixel (`tx`, `ty`) shows. Pixels beyond the
    /// grid show none.
    pub open spec fn source_at(self, tx: int, ty: int) -> Option<(u32, u32)> {
        if 0 <= tx < self.width && 0 <= ty < self.height {
            self.cells[ty * self.width + tx]
        } else {
            None
        }
    }

    /// No target pixel shows any layer pixel.
    pub open spec fn is_blank(self) -> bool {
        forall|i: int| 0 <= i < self.cells.len() ==> self.cells[i] is None
    }
}

/// A grid that assigns to each pixel of a target the layer pixel it samples.
#[derive(Debug)]
pub struct SampleMap {
    width: u32,
    height: u32,
    cells: Vec<Option<(u32, u32)>>,
}

impl View for SampleMap {
    type V = SampleGrid;

    closed spec fn view(&self) -> SampleGrid {
        SampleGrid { width: self.width, height: self.height, cells: self.cells@ }
    }
}

/// The grid of a map that may be missing.
pub open spec fn grid_of(samples: Option<SampleMap>) -> Option<SampleGrid> {
    match samples {
        Some(map) => Some(map@),
        None => None,
    }
}

/// A cell of row `ty` and column `tx` has its place inside a `width` ×
/// `height` grid.
pub proof fn lemma_cell_in_grid(tx: int, ty: int, width: int, height: int)
    requires
        0 <= tx < width,
        0 <= ty < height,
    ensures
        0 <= ty * width <= ty * width + tx < width * height,
        (ty * width + tx) % width == tx,
        (ty * width + tx) / width == ty,
{
    assert(0 <= ty * width && (ty + 1) * width <= height * width) by (nonlinear_arith)
        requires
            0 <= ty < height,
            0 < width,
    ;
    assert((ty + 1) * width == ty * width + width) by (nonlinear_arith);
    assert(height * width == width * height) by (nonlinear_arith);
    vstd::arithmetic::div_mod::lemma_fundamental_div_mod_converse(ty * width + tx, width, ty, tx);
}

impl SampleMap {
    /// The map has one cell for each target pixel.
    pub open spec fn wf(&self) -> bool {
        self@.wf()
    }

    /// Creates a map for a `width` × `height` target in which no pixel shows
    /// anything.
    pub fn new(width: u32, height: u32) -> (m: SampleMap)
        requires
            width as nat * height as nat <= usize::MAX,
        ensures
            m.wf(),
            m@.width == width,
            m@.height == height,
            m@.is_blank(),
    {
        assert(width as int * height as int == width as nat * height as nat) by (nonlinear_arith);
        let count: usize = (width as usize) * (height as usize);
        let mut cells: Vec<Option<(u32, u32)>> = Vec::with_capacity(count);
        let mut i: usize = 0;
        while i < count
            invariant
                i <= count,
                cells@.len() == i,
                forall|k: int| 0 <= k < i ==> cells@[k] is None,
            decreases count - i,
        {
            cells.push(None);
            i += 1;
        }
        SampleMap { width, height, cells }
    }

    /// Returns the target width in pixels.
    pub fn width(&self) -> (w: u32)
        ensures
            w == self@.width,
    {
        self.width
    }

    /// Returns the target height in pixels.
    pub fn height(&self) -> (h: u32)
        ensures
            h == self@.height,
    {
        self.height
    }

    /// Returns the layer pixel that target pixel (`tx`, `ty`) shows, if any.
    pub fn get(&self, tx: u32, ty: u32) -> (source: Option<(u32, u32)>)
        requires
            self.wf(),
        ensures
            source == self@.source_at(tx as int, ty as int),
    {
        if tx < self.width && ty < self.height {
            let count: usize = self.cells.len();
            proof {
                lemma_cell_in_grid(tx as int, ty as int, self.width as int, self.height as int);
                assert(self.width as int * self.height as int == count) by (nonlinear_arith)
                    requires
                        count == self.width as nat * self.height as nat,
                ;
            }
            let i: usize = (ty as usize) * (self.width as usize) + (tx as usize);
            self.cells[i]
        } else {
            None
        }
    }

    /// Makes target pixel (`tx`, `ty`) show `source`. A pixel beyond the map
    /// is left out: the map stays as it is.
    pub fn set(&mut self, tx: u32, ty: u32, source: Option<(u32, u32)>)
        requires
            old(self).wf(),
        ensures
            final(self).wf(),
            final(self)@.width == old(self)@.width,
            final(self)@.height == old(self)@.height,
            tx < old(self)@.width && ty < old(self)@.height ==> final(self)@.cells
                == old(self)@.cells.update(ty * old(self)@.width + tx, source),
            !(tx < old(self)@.width && ty < old(self)@.height) ==> final(self)@ == old(self)@,
    {
        if tx < self.width && ty < self.height {
            let count: usize = self.cells.len();
            proof {
                lemma_cell_in_grid(tx as int, ty as int, self.width as int, self.height as int);
                assert(self.width as int * self.height as int == count) by (nonlinear_arith)
                    requires
                        count == self.width as nat * self.height as nat,
                ;
            }
            let i: usize = (ty as usize) * (self.width as usize) + (tx as usize);
            self.cells[i] = source;
        }
    }
}

} // verus!
