pub mod path;
pub mod shape;
pub mod text;
pub mod document;

use vstd::prelude::*;

verus! {

/// Selection state for a vector object
#[derive(Debug, Clone, Copy, PartialEq, Eq, Structural)]
pub enum SelectionState {
    Deselected,
    Selected,
    GroupSelected,
    EditPoints,
}

/// Boolean operations between paths.
#[derive(Debug, Clone, Copy, PartialEq, Eq, Structural)]
pub enum PathOperation {
    NoOp,
    Union,
    Subtract,
    Intersect,
    XOR,
    Divide,
}

/// The active position after removing a layer leaves `len` layers: when it lies
/// past the last layer it falls back to the last one, or to 0 when none is left.
pub open spec fn active_after_removal(active: int, len: int) -> int {
    if active >= len {
        if len > 0 {
            len - 1
        } else {
            0
        }
    } else {
        active
    }
}

/// A vector document: a stack of layers (bottom first) with an active position,
/// and the page size.
#[derive(Clone)]
pub struct VectorDocument<L> {
    layers: Vec<L>,
    active_layer: usize,
    width: i32,
    height: i32,
}

impl<L> VectorDocument<L> {
    /// The layers, bottom first.
    pub closed spec fn stack(&self) -> Seq<L> {
        self.layers@
    }

    /// The active position.
    pub closed spec fn active(&self) -> nat {
        self.active_layer as nat
    }

    /// The page width.
    pub closed spec fn page_width(&self) -> int {
        self.width as int
    }

    /// The page height.
    pub closed spec fn page_height(&self) -> int {
        self.height as int
    }

    /// The active position names a layer, or is 0 when there is none.
    pub open spec fn wf(&self) -> bool {
        if self.stack().len() > 0 {
            self.active() < self.stack().len()
        } else {
            self.active() == 0
        }
    }

    /// A `width` by `height` document holding the single layer `background`,
    /// which is active.
    pub fn new(width: i32, height: i32, background: L) -> (r: Self)
        ensures
            r.stack() == seq![background],
            r.active() == 0,
            r.page_width() == width,
            r.page_height() == height,
            r.wf(),
    {
        let mut doc = Self { layers: Vec::new(), active_layer: 0, width, height };
        doc.add_layer(background);
        proof {
            assert(doc.layers@ =~= seq![background]);
        }
        doc
    }

    /// Puts `layer` on top and makes it active; returns its position.
    pub fn add_layer(&mut self, layer: L) -> (index: usize)
        requires
            old(self).stack().len() < usize::MAX,
        ensures
            final(self).stack() == old(self).stack().push(layer),
            index == old(self).stack().len(),
            final(self).active() == index,
            final(self).page_width() == old(self).page_width(),
            final(self).page_height() == old(self).page_height(),
            final(self).wf(),
    {
        self.layers.push(layer);
        let index = self.layers.len() - 1;
        self.active_layer = index;
        index
    }

    /// Removes the layer at `index`, if there is one, and returns whether it did.
    /// An active position past the last layer then moves to the last one (to 0
    /// when no layer is left).
    pub fn remove_layer(&mut self, index: usize) -> (r: bool)
        ensures
            r == (index < old(self).stack().len()),
            r ==> final(self).stack() == old(self).stack().remove(index as int),
            r ==> final(self).active() == active_after_removal(
                old(self).active() as int,
                final(self).stack().len() as int,
            ),
            !r ==> final(self).stack() == old(self).stack() && final(self).active() == old(self).active(),
            final(self).page_width() == old(self).page_width(),
            final(self).page_height() == old(self).page_height(),
            old(self).wf() ==> final(self).wf(),
    {
        if index < self.layers.len() {
            self.layers.remove(index);
            if self.active_layer >= self.layers.len() {
                self.active_layer = if self.layers.len() > 0 {
                    self.layers.len() - 1
                } else {
                    0
                };
            }
            true
        } else {
            false
        }
    }

    /// Makes the layer at `index` active when there is one; returns whether it did.
    pub fn set_active_layer(&mut self, index: usize) -> (r: bool)
        ensures
            r == (index < old(self).stack().len()),
            final(self).active() == if r {
                index as nat
            } else {
                old(self).active()
            },
            final(self).stack() == old(self).stack(),
            final(self).page_width() == old(self).page_width(),
            final(self).page_height() == old(self).page_height(),
            old(self).wf() ==> final(self).wf(),
    {
        if index < self.layers.len() {
            self.active_layer = index;
            true
        } else {
            false
        }
    }

    /// The active layer, if the active position names one.
    pub fn get_active_layer(&self) -> (r: Option<&L>)
        ensures
            r == if self.active() < self.stack().len() {
                Some(&self.stack()[self.active() as int])
            } else {
                None
            },
    {
        if self.active_layer < self.layers.len() {
            Some(&self.layers[self.active_layer])
        } else {
            None
        }
    }

    /// Mutable access to the active layer, if the active position names one.
    pub fn get_active_layer_mut(&mut self) -> (r: Option<&mut L>)
        ensures
            old(self).active() < old(self).stack().len() ==> {
                &&& r is Some
                &&& *r->0 == old(self).stack()[old(self).active() as int]
                &&& final(self).stack() == old(self).stack().update(old(self).active() as int, *final(r->0))
            },
            old(self).active() >= old(self).stack().len() ==> r is None && final(self).stack() == old(
                self,
            ).stack(),
            final(self).active() == old(self).active(),
            final(self).page_width() == old(self).page_width(),
            final(self).page_height() == old(self).page_height(),
    {
        let index = self.active_layer;
        if index < self.layers.len() {
            Some(&mut self.layers[index])
        } else {
            None
        }
    }

    /// All layers, bottom first.
    pub fn get_layers(&self) -> (r: &[L])
        ensures
            r@ == self.stack(),
    {
        self.layers.as_slice()
    }

    /// Mutable access to all layers, bottom first; their number stays.
    pub fn get_layers_mut(&mut self) -> (r: &mut [L])
        ensures
            r@ == old(self).stack(),
            final(self).stack() == final(r)@,
            final(self).active() == old(self).active(),
            final(self).page_width() == old(self).page_width(),
            final(self).page_height() == old(self).page_height(),
    {
        self.layers.as_mut_slice()
    }

    /// The page width.
    pub fn width(&self) -> (r: i32)
        ensures
            r == self.page_width(),
    {
        self.width
    }

    /// The page height.
    pub fn height(&self) -> (r: i32)
        ensures
            r == self.page_height(),
    {
        self.height
    }

    /// Sets the page size; the layers stay as they are.
    pub fn resize(&mut self, width: i32, height: i32)
        ensures
            final(self).page_width() == width,
            final(self).page_height() == height,
            final(self).stack() == old(self).stack(),
            final(self).active() == old(self).active(),
    {
        self.width = width;
        self.height = height;
    }
}

/// Adding a layer and then removing it again gives back the layers there were;
/// the new layer stays active until removed, after which the last layer is.
pub proof fn lemma_add_then_remove_layer<L>(d0: VectorDocument<L>, d1: VectorDocument<L>, d2: VectorDocument<L>, layer: L, index: usize)
    requires
        d1.stack() == d0.stack().push(layer),
        index == d0.stack().len(),
        d1.active() == index,
        d2.stack() == d1.stack().remove(index as int),
        d2.active() == active_after_removal(d1.active() as int, d2.stack().len() as int),
    ensures
        d2.stack() == d0.stack(),
        d0.stack().len() > 0 ==> d2.active() == d0.stack().len() - 1,
        d0.stack().len() == 0 ==> d2.active() == 0,
{
    assert(d1.stack().remove(index as int) =~= d0.stack());
}

} // verus!
