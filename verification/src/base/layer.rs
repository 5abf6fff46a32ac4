use vstd::prelude::*;

verus! {

/// Layer blend modes for compositing
#[derive(Debug, Clone, Copy, PartialEq, Eq, Structural)]
pub enum BlendMode {
    Color,
    ColorBurn,
    ColorDodge,
    Darken,
    Difference,
    Exclusion,
    HardLight,
    Hue,
    Lighten,
    Luminosity,
    Multiply,
    Normal,
    Overlay,
    Saturation,
    Screen,
    SoftLight,
}

/// An ordered stack of layers (bottom first) with one active position.
#[derive(Debug, Clone, PartialEq)]
pub struct LayerManager<L> {
    layers: Vec<L>,
    active_layer_index: usize,
}

/// The position the active layer has after moving the layer at `from` to `to`.
pub open spec fn moved_active(active: int, from: int, to: int) -> int {
    if active == from {
        to
    } else if from < active && to >= active {
        active - 1
    } else if from > active && to <= active {
        active + 1
    } else {
        active
    }
}

/// The active position after a removal leaves `len` layers: it falls back to the
/// top layer when it lies past the top of a non-empty stack.
pub open spec fn removal_active(active: int, len: int) -> int {
    if active >= len && len > 0 {
        len - 1
    } else {
        active
    }
}

impl<L> LayerManager<L> {
    /// The layers, bottom first.
    pub closed spec fn stack(&self) -> Seq<L> {
        self.layers@
    }

    /// The active position.
    pub closed spec fn active(&self) -> nat {
        self.active_layer_index as nat
    }

    /// The active position names a layer whenever there is one.
    pub open spec fn wf(&self) -> bool {
        self.stack().len() > 0 ==> self.active() < self.stack().len()
    }

    /// An empty stack whose active position is 0.
    pub fn new() -> (r: Self)
        ensures
            r.stack().len() == 0,
            r.active() == 0,
            r.wf(),
    {
        Self { layers: Vec::new(), active_layer_index: 0 }
    }

    /// Puts `layer` on top and makes it active; returns its position.
    pub fn add_layer(&mut self, layer: L) -> (index: usize)
        requires
            old(self).stack().len() < usize::MAX,
        ensures
            final(self).stack() == old(self).stack().push(layer),
            index == old(self).stack().len(),
            final(self).active() == index,
            final(self).wf(),
    {
        self.layers.push(layer);
        let index = self.layers.len() - 1;
        self.active_layer_index = index;
        index
    }

    /// The layer at `index`, if there is one.
    pub fn get_layer(&self, index: usize) -> (r: Option<&L>)
        ensures
            r == if index < self.stack().len() {
                Some(&self.stack()[index as int])
            } else {
                None
            },
    {
        if index < self.layers.len() {
            Some(&self.layers[index])
        } else {
            None
        }
    }

    /// Mutable access to the layer at `index`, if there is one.
    pub fn get_layer_mut(&mut self, index: usize) -> (r: Option<&mut L>)
        ensures
            index < old(self).stack().len() ==> {
                &&& r is Some
                &&& *r->0 == old(self).stack()[index as int]
                &&& final(self).stack() == old(self).stack().update(index as int, *final(r->0))
                &&& final(self).active() == old(self).active()
            },
            index >= old(self).stack().len() ==> r is None && final(self).stack() == old(self).stack()
                && final(self).active() == old(self).active(),
    {
        if index < self.layers.len() {
            Some(&mut self.layers[index])
        } else {
            None
        }
    }

    /// Replaces the layer at `index`, if there is one; otherwise nothing changes.
    pub fn set_layer(&mut self, index: usize, layer: L)
        ensures
            final(self).stack() == if index < old(self).stack().len() {
                old(self).stack().update(index as int, layer)
            } else {
                old(self).stack()
            },
            final(self).active() == old(self).active(),
    {
        if index < self.layers.len() {
            self.layers.set(index, layer);
        }
    }

    /// Removes and returns the layer at `index`, if there is one. When the active
    /// position then lies past the top of a non-empty stack it moves to the top.
    pub fn remove_layer(&mut self, index: usize) -> (r: Option<L>)
        ensures
            index < old(self).stack().len() ==> {
                &&& r == Some(old(self).stack()[index as int])
                &&& final(self).stack() == old(self).stack().remove(index as int)
                &&& final(self).active() == removal_active(
                    old(self).active() as int,
                    final(self).stack().len() as int,
                )
            },
            index >= old(self).stack().len() ==> r is None && final(self).stack() == old(self).stack()
                && final(self).active() == old(self).active(),
            old(self).wf() ==> final(self).wf(),
    {
        if index < self.layers.len() {
            let layer = self.layers.remove(index);
            if self.active_layer_index >= self.layers.len() && self.layers.len() > 0 {
                self.active_layer_index = self.layers.len() - 1;
            }
            Some(layer)
        } else {
            None
        }
    }

    /// Moves the layer at `from_index` to `to_index`, shifting the layers between;
    /// the active position follows the layer it named. Returns `false`, changing
    /// nothing, when either position is out of range.
    pub fn move_layer(&mut self, from_index: usize, to_index: usize) -> (r: bool)
        ensures
            r == (from_index < old(self).stack().len() && to_index < old(self).stack().len()),
            r ==> final(self).stack() == old(self).stack().remove(from_index as int).insert(
                to_index as int,
                old(self).stack()[from_index as int],
            ),
            r ==> final(self).active() == moved_active(old(self).active() as int, from_index as int, to_index as int),
            !r ==> final(self).stack() == old(self).stack() && final(self).active() == old(self).active(),
            old(self).wf() ==> final(self).wf(),
    {
        if from_index >= self.layers.len() || to_index >= self.layers.len() {
            return false;
        }
        if from_index == to_index {
            proof {
                let s = old(self).stack();
                assert(s.remove(from_index as int).insert(to_index as int, s[from_index as int]) =~= s);
            }
            return true;
        }
        let layer = self.layers.remove(from_index);
        self.layers.insert(to_index, layer);
        if self.active_layer_index == from_index {
            self.active_layer_index = to_index;
        } else if from_index < self.active_layer_index && to_index >= self.active_layer_index {
            self.active_layer_index = self.active_layer_index - 1;
        } else if from_index > self.active_layer_index && to_index <= self.active_layer_index {
            self.active_layer_index = self.active_layer_index + 1;
        }
        true
    }

    /// Makes the layer at `index` active; `false`, changing nothing, when there is none.
    pub fn set_active_layer(&mut self, index: usize) -> (r: bool)
        ensures
            r == (index < old(self).stack().len()),
            final(self).stack() == old(self).stack(),
            final(self).active() == if r {
                index as nat
            } else {
                old(self).active()
            },
            old(self).wf() ==> final(self).wf(),
    {
        if index < self.layers.len() {
            self.active_layer_index = index;
            true
        } else {
            false
        }
    }

    /// The active position.
    pub fn get_active_layer_index(&self) -> (r: usize)
        ensures
            r == self.active(),
    {
        self.active_layer_index
    }

    /// The active layer, if the active position names one.
    pub fn get_active_layer(&self) -> (r: Option<&L>)
        ensures
            r == if self.active() < self.stack().len() {
                Some(&self.stack()[self.active() as int])
            } else {
                None
            },
    {
        self.get_layer(self.active_layer_index)
    }

    /// Mutable access to the active layer, if the active position names one.
    pub fn get_active_layer_mut(&mut self) -> (r: Option<&mut L>)
        ensures
            old(self).active() < old(self).stack().len() ==> {
                &&& r is Some
                &&& *r->0 == old(self).stack()[old(self).active() as int]
                &&& final(self).stack() == old(self).stack().update(
                    old(self).active() as int,
                    *final(r->0),
                )
                &&& final(self).active() == old(self).active()
            },
            old(self).active() >= old(self).stack().len() ==> r is None && final(self).stack()
                == old(self).stack() && final(self).active() == old(self).active(),
    {
        let index = self.active_layer_index;
        self.get_layer_mut(index)
    }

    /// The number of layers.
    pub fn layer_count(&self) -> (r: usize)
        ensures
            r == self.stack().len(),
    {
        self.layers.len()
    }

    /// All layers, bottom first.
    pub fn get_layers(&self) -> (r: &[L])
        ensures
            r@ == self.stack(),
    {
        self.layers.as_slice()
    }
}

/// The stack that moving the layer at `from` to `to` leaves.
pub open spec fn moved_stack<L>(s: Seq<L>, from: int, to: int) -> Seq<L> {
    s.remove(from).insert(to, s[from])
}

/// Moving a layer keeps the active layer active: the position that
/// `moved_active` gives names, in the moved stack, the layer that was active.
pub proof fn lemma_move_keeps_active_layer<L>(s: Seq<L>, active: int, from: int, to: int)
    requires
        0 <= active < s.len(),
        0 <= from < s.len(),
        0 <= to < s.len(),
    ensures
        0 <= moved_active(active, from, to) < s.len(),
        moved_stack(s, from, to)[moved_active(active, from, to)] == s[active],
{
}

/// Moving a layer neither adds nor drops a layer: the stack holds the same
/// layers, each as often as before.
pub proof fn lemma_move_keeps_layers<L>(s: Seq<L>, from: int, to: int)
    requires
        0 <= from < s.len(),
        0 <= to < s.len(),
    ensures
        moved_stack(s, from, to).len() == s.len(),
        moved_stack(s, from, to).to_multiset() =~= s.to_multiset(),
{
    broadcast use vstd::multiset::group_multiset_axioms;

    let x = s[from];
    let r = s.remove(from);
    let m = r.insert(to, x);
    assert(m.remove(to) =~= r);
    s.to_multiset_ensures();
    m.to_multiset_ensures();
    assert(m[to] == x);
    assert(m.contains(x));
    assert(s.contains(x));
    assert(m.remove(to).to_multiset() =~= m.to_multiset().remove(m[to]));
    assert(s.remove(from).to_multiset() =~= s.to_multiset().remove(s[from]));
    assert(m.to_multiset().remove(x) =~= s.to_multiset().remove(x));
    assert(m.to_multiset() =~= m.to_multiset().remove(x).insert(x));
    assert(s.to_multiset() =~= s.to_multiset().remove(x).insert(x));
}

/// Moving a layer back where it came from restores the stack and the active
/// position.
pub proof fn lemma_move_back_restores<L>(s: Seq<L>, active: int, from: int, to: int)
    requires
        0 <= active < s.len(),
        0 <= from < s.len(),
        0 <= to < s.len(),
    ensures
        moved_stack(moved_stack(s, from, to), to, from) =~= s,
        moved_active(moved_active(active, from, to), to, from) == active,
{
}

/// Adding a layer and then removing the top one gives the stack back.
pub proof fn lemma_add_then_remove_top<L>(s: Seq<L>, layer: L)
    ensures
        s.push(layer).remove(s.len() as int) =~= s,
        s.push(layer)[s.len() as int] == layer,
{
}

} // verus!
