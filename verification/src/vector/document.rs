use vstd::prelude::*;
use crate::text::str_eq;

verus! {

/// The views of a list of ids.
pub open spec fn id_views(ids: Seq<String>) -> Seq<Seq<char>> {
    ids.map_values(|s: String| s@)
}

/// Selects the object `id` of a vector document, given whether the document
/// holds such an object: the selection is first cleared unless
/// `add_to_selection`, then `id` is added when the object exists and is not
/// selected yet. The result is whether the object exists.
pub fn select_object_id(selected: &mut Vec<String>, id: &str, add_to_selection: bool, exists: bool) -> (r: bool)
    ensures
        r == exists,
        ({
            let base = if add_to_selection {
                id_views(old(selected)@)
            } else {
                Seq::empty()
            };
            id_views(final(selected)@) == if exists && !base.contains(id@) {
                base.push(id@)
            } else {
                base
            }
        }),
{
    if !add_to_selection {
        selected.clear();
    }
    let ghost base = id_views(selected@);
    if exists {
        let mut found = false;
        let mut i: usize = 0;
        while i < selected.len()
            invariant
                base == id_views(selected@),
                i <= selected.len(),
                found <==> exists|j: int| 0 <= j < i && base[j] == id@,
            decreases selected.len() - i,
        {
            let same = str_eq(selected[i].as_str(), id);
            proof {
                assert(base[i as int] == selected@[i as int]@);
                if !same {
                    assert forall|j: int| 0 <= j < i + 1 && base[j] == id@ implies j < i by {}
                }
            }
            if same {
                found = true;
            }
            i = i + 1;
        }
        proof {
            if base.contains(id@) {
                let j = choose|j: int| 0 <= j < base.len() && base[j] == id@;
                assert(base[j] == id@);
            }
        }
        if !found {
            selected.push(id.to_string());
            proof {
                assert(id_views(selected@) =~= base.push(id@));
            }
        }
        return true;
    }
    false
}

/// Removes every occurrence of `id` from the selected object ids; the result is
/// whether there was one.
pub fn deselect_object_id(selected: &mut Vec<String>, id: &str) -> (r: bool)
    ensures
        id_views(final(selected)@) == id_views(old(selected)@).filter(|s: Seq<char>| s != id@),
        r == id_views(old(selected)@).contains(id@),
{
    let ghost orig = id_views(selected@);
    let mut kept: Vec<String> = Vec::new();
    let mut removed = false;
    let mut i: usize = 0;
    let n = selected.len();
    while i < n
        invariant
            n == selected@.len(),
            orig == id_views(selected@),
            i <= n,
            id_views(kept@) == orig.subrange(0, i as int).filter(|s: Seq<char>| s != id@),
            removed <==> orig.subrange(0, i as int).contains(id@),
        decreases n - i,
    {
        let same = str_eq(selected[i].as_str(), id);
        proof {
            let pre = orig.subrange(0, i as int);
            let next = orig.subrange(0, i + 1);
            assert(next =~= pre.push(orig[i as int]));
            pre.lemma_filter_push(orig[i as int], |s: Seq<char>| s != id@);
            if same {
                assert(next.contains(id@)) by {
                    assert(next[i as int] == id@);
                }
            } else {
                assert(next.contains(id@) ==> pre.contains(id@)) by {
                    if next.contains(id@) {
                        let j = choose|j: int| 0 <= j < next.len() && next[j] == id@;
                        assert(j < i);
                        assert(pre[j] == id@);
                    }
                }
                assert(pre.contains(id@) ==> next.contains(id@)) by {
                    if pre.contains(id@) {
                        let j = choose|j: int| 0 <= j < pre.len() && pre[j] == id@;
                        assert(next[j] == id@);
                    }
                }
            }
        }
        if same {
            removed = true;
        } else {
            let copy = selected[i].clone();
            kept.push(copy);
            proof {
                assert(id_views(kept@) =~= id_views(kept@.drop_last()).push(copy@));
            }
        }
        i = i + 1;
    }
    proof {
        assert(orig.subrange(0, n as int) =~= orig);
    }
    *selected = kept;
    removed
}

/// A fresh random identifier: `uuid::Uuid::new_v4()` written out by its
/// `Display` impl, which gives the hyphenated lower-case form of 36 characters.
/// Nothing more is claimed of the text: it is random.
#[verifier::external_body]
fn fresh_id() -> (r: String)
    ensures
        r@.len() == 36,
{
    uuid::Uuid::new_v4().to_string()
}

/// An object of a vector layer, with the id by which the document finds it
/// (shapes and texts carry one; other objects none).
pub struct VectorItem<O> {
    pub id: Option<String>,
    pub object: O,
}

/// Whether `item` carries the id `id`.
pub open spec fn item_has_id<O>(item: VectorItem<O>, id: Seq<char>) -> bool {
    item.id matches Some(s) && s@ == id
}

/// The first position from `i` on at which `items` holds an object with id `id`.
pub open spec fn item_index<O>(items: Seq<VectorItem<O>>, id: Seq<char>, i: int) -> Option<int>
    decreases items.len() - i,
{
    if 0 <= i < items.len() {
        if item_has_id(items[i], id) {
            Some(i)
        } else {
            item_index(items, id, i + 1)
        }
    } else {
        None
    }
}

/// A layer of a vector document: its objects, drawn first, then its sublayers.
/// `style` holds how the layer is painted (such as its opacity), which only the
/// drawing code reads.
#[verifier::reject_recursive_types(O)]
#[verifier::reject_recursive_types(S)]
pub struct VectorLayer<O, S> {
    pub id: String,
    pub name: String,
    pub visible: bool,
    pub locked: bool,
    pub style: S,
    pub objects: Vec<VectorItem<O>>,
    pub sublayers: Vec<VectorLayer<O, S>>,
}

/// The first layer with id `id` among `layer` and, depth first, its sublayers:
/// a layer comes before its sublayers, and sublayers in order.
pub open spec fn layer_find<O, S>(layer: VectorLayer<O, S>, id: Seq<char>) -> Option<VectorLayer<O, S>>
    decreases layer, 0int,
{
    if layer.id@ == id {
        Some(layer)
    } else {
        layers_find(layer.sublayers@, id, 0)
    }
}

/// The first layer with id `id` found by `layer_find` in `layers[i]`,
/// `layers[i + 1]`, and so on.
pub open spec fn layers_find<O, S>(layers: Seq<VectorLayer<O, S>>, id: Seq<char>, i: int) -> Option<VectorLayer<O, S>>
    decreases layers, layers.len() - i,
{
    if 0 <= i < layers.len() {
        match layer_find(layers[i], id) {
            Some(l) => Some(l),
            None => layers_find(layers, id, i + 1),
        }
    } else {
        None
    }
}

/// Whether `after` is `before` with the layer that `layer_find(before, id)` finds
/// replaced by `target`, and everything else as it was.
pub open spec fn replaced_found<O, S>(
    before: VectorLayer<O, S>,
    after: VectorLayer<O, S>,
    id: Seq<char>,
    target: VectorLayer<O, S>,
) -> bool
    decreases before, 0int,
{
    if before.id@ == id {
        after == target
    } else {
        &&& after.id == before.id
        &&& after.name == before.name
        &&& after.visible == before.visible
        &&& after.locked == before.locked
        &&& after.style == before.style
        &&& after.objects == before.objects
        &&& replaced_found_in(before.sublayers@, after.sublayers@, id, target, 0)
    }
}

/// Whether `after` is `before` with the layer that `layers_find(before, id, i)`
/// finds replaced by `target`, and everything else as it was.
pub open spec fn replaced_found_in<O, S>(
    before: Seq<VectorLayer<O, S>>,
    after: Seq<VectorLayer<O, S>>,
    id: Seq<char>,
    target: VectorLayer<O, S>,
    i: int,
) -> bool
    decreases before, before.len() - i,
{
    if 0 <= i < before.len() {
        if layer_find(before[i], id) is Some {
            after == before.update(i, after[i]) && replaced_found(before[i], after[i], id, target)
        } else {
            replaced_found_in(before, after, id, target, i + 1)
        }
    } else {
        after == before
    }
}

/// Layers in which `layer_find` finds nothing can be skipped when looking for the
/// replaced one.
proof fn lemma_replaced_skip<O, S>(before: Seq<VectorLayer<O, S>>, id: Seq<char>, k: int, i: int)
    requires
        0 <= k <= i <= before.len(),
        forall|j: int| k <= j < i ==> layer_find(#[trigger] before[j], id) is None,
    ensures
        forall|after: Seq<VectorLayer<O, S>>, target: VectorLayer<O, S>|
            #[trigger] replaced_found_in(before, after, id, target, k) == replaced_found_in(
                before,
                after,
                id,
                target,
                i,
            ),
    decreases i - k,
{
    if k < i {
        lemma_replaced_skip(before, id, k + 1, i);
        assert(layer_find(before[k], id) is None);
        assert forall|after: Seq<VectorLayer<O, S>>, target: VectorLayer<O, S>|
            #[trigger] replaced_found_in(before, after, id, target, k) == replaced_found_in(
                before,
                after,
                id,
                target,
                i,
            ) by {
            assert(replaced_found_in(before, after, id, target, k) == replaced_found_in(
                before,
                after,
                id,
                target,
                k + 1,
            ));
        }
    }
}

/// Replacing inside the first sublayer in which `layer_find` finds the id is
/// replacing the layer found in the whole tree.
proof fn lemma_replaced_below<O, S>(before: VectorLayer<O, S>, id: Seq<char>, i: int)
    requires
        before.id@ != id,
        0 <= i < before.sublayers@.len(),
        forall|j: int| 0 <= j < i ==> layer_find(#[trigger] before.sublayers@[j], id) is None,
        layer_find(before.sublayers@[i], id) is Some,
    ensures
        forall|after: VectorLayer<O, S>, target: VectorLayer<O, S>|
            after.id == before.id && after.name == before.name && after.visible == before.visible
                && after.locked == before.locked && after.style == before.style && after.objects
                == before.objects && after.sublayers@ == before.sublayers@.update(i, after.sublayers@[i])
                && replaced_found(before.sublayers@[i], after.sublayers@[i], id, target)
                ==> #[trigger] replaced_found(before, after, id, target),
{
    lemma_replaced_skip(before.sublayers@, id, 0, i);
    assert forall|after: VectorLayer<O, S>, target: VectorLayer<O, S>|
        after.id == before.id && after.name == before.name && after.visible == before.visible
            && after.locked == before.locked && after.style == before.style && after.objects
            == before.objects && after.sublayers@ == before.sublayers@.update(i, after.sublayers@[i])
            && replaced_found(before.sublayers@[i], after.sublayers@[i], id, target)
            implies #[trigger] replaced_found(before, after, id, target) by {
        assert(replaced_found_in(before.sublayers@, after.sublayers@, id, target, i));
        assert(replaced_found_in(before.sublayers@, after.sublayers@, id, target, 0));
    }
}

/// Replacing inside the first top-level layer in which `layer_find` finds the id
/// is replacing the layer that `layers_find` finds.
proof fn lemma_replaced_in_list<O, S>(before: Seq<VectorLayer<O, S>>, id: Seq<char>, i: int)
    requires
        0 <= i < before.len(),
        forall|j: int| 0 <= j < i ==> layer_find(#[trigger] before[j], id) is None,
        layer_find(before[i], id) is Some,
    ensures
        forall|after: Seq<VectorLayer<O, S>>, target: VectorLayer<O, S>|
            after == before.update(i, after[i]) && replaced_found(before[i], after[i], id, target)
                ==> #[trigger] replaced_found_in(before, after, id, target, 0),
{
    lemma_replaced_skip(before, id, 0, i);
    assert forall|after: Seq<VectorLayer<O, S>>, target: VectorLayer<O, S>|
        after == before.update(i, after[i]) && replaced_found(before[i], after[i], id, target)
            implies #[trigger] replaced_found_in(before, after, id, target, 0) by {
        assert(replaced_found_in(before, after, id, target, i));
    }
}

impl<O, S> VectorLayer<O, S> {
    /// An empty, visible, unlocked layer called `name`, painted with `style`,
    /// under a fresh random id.
    pub fn new(name: String, style: S) -> (r: Self)
        ensures
            r.id@.len() == 36,
            r.name@ == name@,
            r.visible,
            !r.locked,
            r.style == style,
            r.objects@.len() == 0,
            r.sublayers@.len() == 0,
    {
        Self {
            id: fresh_id(),
            name,
            visible: true,
            locked: false,
            style,
            objects: Vec::new(),
            sublayers: Vec::new(),
        }
    }

    /// Appends `object` to the layer's objects.
    pub fn add_object(&mut self, object: VectorItem<O>)
        ensures
            final(self).objects@ == old(self).objects@.push(object),
            final(self).sublayers == old(self).sublayers,
            final(self).id == old(self).id,
            final(self).name == old(self).name,
            final(self).visible == old(self).visible,
            final(self).locked == old(self).locked,
            final(self).style == old(self).style,
    {
        self.objects.push(object);
    }

    /// Appends `layer` to the sublayers.
    pub fn add_sublayer(&mut self, layer: VectorLayer<O, S>)
        ensures
            final(self).sublayers@ == old(self).sublayers@.push(layer),
            final(self).objects@ == old(self).objects@,
            final(self).id == old(self).id,
            final(self).name == old(self).name,
            final(self).visible == old(self).visible,
            final(self).locked == old(self).locked,
            final(self).style == old(self).style,
    {
        self.sublayers.push(layer);
    }

    /// Removes and returns the object at `index`, if there is one.
    pub fn remove_object(&mut self, index: usize) -> (r: Option<VectorItem<O>>)
        ensures
            index < old(self).objects@.len() ==> r == Some(old(self).objects@[index as int])
                && final(self).objects@ == old(self).objects@.remove(index as int),
            index >= old(self).objects@.len() ==> r is None && final(self).objects@ == old(self).objects@,
            final(self).sublayers@ == old(self).sublayers@,
            final(self).id == old(self).id,
            final(self).name == old(self).name,
            final(self).visible == old(self).visible,
            final(self).locked == old(self).locked,
            final(self).style == old(self).style,
    {
        if index < self.objects.len() {
            Some(self.objects.remove(index))
        } else {
            None
        }
    }

    /// Removes and returns the sublayer at `index`, if there is one.
    pub fn remove_sublayer(&mut self, index: usize) -> (r: Option<VectorLayer<O, S>>)
        ensures
            index < old(self).sublayers@.len() ==> r == Some(old(self).sublayers@[index as int])
                && final(self).sublayers@ == old(self).sublayers@.remove(index as int),
            index >= old(self).sublayers@.len() ==> r is None && final(self).sublayers@ == old(
                self,
            ).sublayers@,
            final(self).objects@ == old(self).objects@,
            final(self).id == old(self).id,
            final(self).name == old(self).name,
            final(self).visible == old(self).visible,
            final(self).locked == old(self).locked,
            final(self).style == old(self).style,
    {
        if index < self.sublayers.len() {
            Some(self.sublayers.remove(index))
        } else {
            None
        }
    }

    /// The object at `index`, if there is one.
    pub fn get_object(&self, index: usize) -> (r: Option<&VectorItem<O>>)
        ensures
            r == if index < self.objects@.len() {
                Some(&self.objects@[index as int])
            } else {
                None
            },
    {
        if index < self.objects.len() {
            Some(&self.objects[index])
        } else {
            None
        }
    }

    /// The sublayer at `index`, if there is one.
    pub fn get_sublayer(&self, index: usize) -> (r: Option<&VectorLayer<O, S>>)
        ensures
            r == if index < self.sublayers@.len() {
                Some(&self.sublayers@[index as int])
            } else {
                None
            },
    {
        if index < self.sublayers.len() {
            Some(&self.sublayers[index])
        } else {
            None
        }
    }

    /// The first of the layer's own objects (not its sublayers') with id `id`.
    pub fn find_object_by_id(&self, id: &str) -> (r: Option<&VectorItem<O>>)
        ensures
            match item_index(self.objects@, id@, 0) {
                Some(k) => r == Some(&self.objects@[k]),
                None => r is None,
            },
    {
        let n = self.objects.len();
        let mut i: usize = 0;
        while i < n
            invariant
                n == self.objects@.len(),
                i <= n,
                item_index(self.objects@, id@, 0) == item_index(self.objects@, id@, i as int),
            decreases n - i,
        {
            let matches = match &self.objects[i].id {
                Some(s) => str_eq(s.as_str(), id),
                None => false,
            };
            if matches {
                return Some(&self.objects[i]);
            }
            i = i + 1;
        }
        None
    }

    /// The first layer with id `id` among this layer and its sublayers; see
    /// `layer_find`.
    pub fn find_sublayer_by_id(&self, id: &str) -> (r: Option<&VectorLayer<O, S>>)
        ensures
            match r {
                Some(l) => layer_find(*self, id@) == Some(*l),
                None => layer_find(*self, id@) is None,
            },
        decreases self,
    {
        if str_eq(self.id.as_str(), id) {
            return Some(self);
        }
        let n = self.sublayers.len();
        let mut i: usize = 0;
        while i < n
            invariant
                n == self.sublayers@.len(),
                i <= n,
                layer_find(*self, id@) == layers_find(self.sublayers@, id@, i as int),
            decreases n - i,
        {
            match self.sublayers[i].find_sublayer_by_id(id) {
                Some(l) => {
                    return Some(l);
                },
                None => {},
            }
            i = i + 1;
        }
        None
    }

    /// Mutable access to the object at `index`, if there is one.
    pub fn get_object_mut(&mut self, index: usize) -> (r: Option<&mut VectorItem<O>>)
        ensures
            index < old(self).objects@.len() ==> {
                &&& r is Some
                &&& *r->0 == old(self).objects@[index as int]
                &&& final(self).objects@ == old(self).objects@.update(index as int, *final(r->0))
            },
            index >= old(self).objects@.len() ==> r is None && final(self).objects@ == old(self).objects@,
            final(self).sublayers == old(self).sublayers,
            final(self).id == old(self).id,
            final(self).name == old(self).name,
            final(self).visible == old(self).visible,
            final(self).locked == old(self).locked,
            final(self).style == old(self).style,
    {
        if index < self.objects.len() {
            Some(&mut self.objects[index])
        } else {
            None
        }
    }

    /// Mutable access to the sublayer at `index`, if there is one.
    pub fn get_sublayer_mut(&mut self, index: usize) -> (r: Option<&mut VectorLayer<O, S>>)
        ensures
            index < old(self).sublayers@.len() ==> {
                &&& r is Some
                &&& *r->0 == old(self).sublayers@[index as int]
                &&& final(self).sublayers@ == old(self).sublayers@.update(index as int, *final(r->0))
            },
            index >= old(self).sublayers@.len() ==> r is None && final(self).sublayers@ == old(
                self,
            ).sublayers@,
            final(self).objects == old(self).objects,
            final(self).id == old(self).id,
            final(self).name == old(self).name,
            final(self).visible == old(self).visible,
            final(self).locked == old(self).locked,
            final(self).style == old(self).style,
    {
        if index < self.sublayers.len() {
            Some(&mut self.sublayers[index])
        } else {
            None
        }
    }

    /// Shows or hides the layer.
    pub fn set_visible(&mut self, visible: bool)
        ensures
            *final(self) == (VectorLayer { visible, ..*old(self) }),
    {
        self.visible = visible;
    }

    /// Locks or unlocks the layer.
    pub fn set_locked(&mut self, locked: bool)
        ensures
            *final(self) == (VectorLayer { locked, ..*old(self) }),
    {
        self.locked = locked;
    }

    /// Mutable access to the first layer with id `id` among this layer and its
    /// sublayers (see `layer_find`); what is written through it lands in that
    /// place of the tree.
    pub fn find_sublayer_by_id_mut(&mut self, id: &str) -> (r: Option<&mut VectorLayer<O, S>>)
        ensures
            r matches Some(l) ==> layer_find(*old(self), id@) == Some(*l),
            r matches Some(l) ==> replaced_found(*old(self), *final(self), id@, *final(l)),
            r is None ==> layer_find(*old(self), id@) is None && *final(self) == *old(self),
        decreases *old(self),
    {
        if str_eq(self.id.as_str(), id) {
            return Some(self);
        }
        let n = self.sublayers.len();
        let mut i: usize = 0;
        while i < n
            invariant
                n == self.sublayers@.len(),
                i <= n,
                *self == *old(self),
                self.id@ != id@,
                layer_find(*self, id@) == layers_find(self.sublayers@, id@, i as int),
                forall|j: int| 0 <= j < i ==> layer_find(#[trigger] self.sublayers@[j], id@) is None,
            decreases n - i,
        {
            if self.sublayers[i].find_sublayer_by_id(id).is_some() {
                proof {
                    lemma_replaced_below(*self, id@, i as int);
                }
                return self.sublayers[i].find_sublayer_by_id_mut(id);
            }
            i = i + 1;
        }
        None
    }
}

/// The first position from `i` on of a layer in `layers` whose own objects hold
/// one with id `id`.
pub open spec fn object_layer<O, S>(layers: Seq<VectorLayer<O, S>>, id: Seq<char>, i: int) -> Option<int>
    decreases layers.len() - i,
{
    if 0 <= i < layers.len() {
        if item_index(layers[i].objects@, id, 0) is Some {
            Some(i)
        } else {
            object_layer(layers, id, i + 1)
        }
    } else {
        None
    }
}

/// A layer that `layer_find` finds carries the id looked for.
pub proof fn lemma_found_layer_has_id<O, S>(layer: VectorLayer<O, S>, id: Seq<char>)
    ensures
        layer_find(layer, id) matches Some(l) ==> l.id@ == id,
    decreases layer, 0int,
{
    if layer.id@ != id {
        lemma_found_in_list_has_id(layer.sublayers@, id, 0);
    }
}

/// A layer that `layers_find` finds carries the id looked for.
pub proof fn lemma_found_in_list_has_id<O, S>(layers: Seq<VectorLayer<O, S>>, id: Seq<char>, i: int)
    ensures
        layers_find(layers, id, i) matches Some(l) ==> l.id@ == id,
    decreases layers, layers.len() - i,
{
    if 0 <= i < layers.len() {
        lemma_found_layer_has_id(layers[i], id);
        lemma_found_in_list_has_id(layers, id, i + 1);
    }
}

/// A vector document: its layers (bottom first), the ids of the selected
/// objects, and the id of the selected layer. The page size and the view, which
/// are floating point, stay with the drawing code.
#[verifier::reject_recursive_types(O)]
#[verifier::reject_recursive_types(S)]
pub struct VectorDocument<O, S> {
    pub id: String,
    pub name: String,
    pub layers: Vec<VectorLayer<O, S>>,
    pub selected_objects: Vec<String>,
    pub selected_layer: Option<String>,
}

impl<O, S> VectorDocument<O, S> {
    /// A document called `name` under a fresh random id, holding one empty layer
    /// "Layer 1" painted with `style`, which is selected; no object is selected.
    pub fn new(name: String, style: S) -> (r: Self)
        ensures
            r.id@.len() == 36,
            r.name@ == name@,
            r.layers@.len() == 1,
            r.layers@[0].name@ == "Layer 1"@,
            r.layers@[0].visible && !r.layers@[0].locked,
            r.layers@[0].style == style,
            r.layers@[0].objects@.len() == 0,
            r.layers@[0].sublayers@.len() == 0,
            r.selected_layer matches Some(s) && s@ == r.layers@[0].id@,
            r.selected_objects@.len() == 0,
    {
        let layer = VectorLayer::new("Layer 1".to_string(), style);
        let selected = layer.id.clone();
        let mut layers = Vec::new();
        layers.push(layer);
        Self {
            id: fresh_id(),
            name,
            layers,
            selected_objects: Vec::new(),
            selected_layer: Some(selected),
        }
    }

    /// Adds an empty layer called `name`, painted with `style`, on top, and
    /// returns its fresh id. The selection stays as it is.
    pub fn add_layer(&mut self, name: String, style: S) -> (r: String)
        ensures
            final(self).layers@.len() == old(self).layers@.len() + 1,
            final(self).layers@.drop_last() == old(self).layers@,
            final(self).layers@.last().id@ == r@,
            r@.len() == 36,
            final(self).layers@.last().name@ == name@,
            final(self).layers@.last().style == style,
            final(self).layers@.last().visible && !final(self).layers@.last().locked,
            final(self).layers@.last().objects@.len() == 0,
            final(self).layers@.last().sublayers@.len() == 0,
            final(self).selected_layer == old(self).selected_layer,
            final(self).selected_objects == old(self).selected_objects,
    {
        let layer = VectorLayer::new(name, style);
        let id = layer.id.clone();
        self.layers.push(layer);
        proof {
            assert(self.layers@.drop_last() =~= old(self).layers@);
        }
        id
    }

    /// Removes and returns the top-level layer at `index`, unless that is out of
    /// range or the last layer left. When the removed layer was the selected one,
    /// the first remaining layer becomes selected.
    pub fn remove_layer(&mut self, index: usize) -> (r: Option<VectorLayer<O, S>>)
        ensures
            r is Some <==> index < old(self).layers@.len() && old(self).layers@.len() > 1,
            r matches Some(l) ==> {
                &&& l == old(self).layers@[index as int]
                &&& final(self).layers@ == old(self).layers@.remove(index as int)
                &&& final(self).selected_layer == if old(self).selected_layer matches Some(s) && s@
                    == l.id@ {
                    Some(final(self).layers@[0].id)
                } else {
                    old(self).selected_layer
                }
            },
            r is None ==> final(self).layers@ == old(self).layers@ && final(self).selected_layer == old(
                self,
            ).selected_layer,
            old(self).layers@.len() > 0 ==> final(self).layers@.len() > 0,
            final(self).selected_objects == old(self).selected_objects,
    {
        if index < self.layers.len() && self.layers.len() > 1 {
            let layer = self.layers.remove(index);
            let was_selected = match &self.selected_layer {
                Some(selected) => str_eq(selected.as_str(), layer.id.as_str()),
                None => false,
            };
            if was_selected {
                self.selected_layer = Some(self.layers[0].id.clone());
            }
            Some(layer)
        } else {
            None
        }
    }

    /// The selected layer: the first layer with the selected id, a top-level
    /// layer before its sublayers (see `layers_find`); `None` when no layer is
    /// selected or none has that id.
    pub fn get_active_layer(&self) -> (r: Option<&VectorLayer<O, S>>)
        ensures
            match self.selected_layer {
                Some(id) => match r {
                    Some(l) => layers_find(self.layers@, id@, 0) == Some(*l),
                    None => layers_find(self.layers@, id@, 0) is None,
                },
                None => r is None,
            },
    {
        match &self.selected_layer {
            Some(id) => {
                let n = self.layers.len();
                let mut i: usize = 0;
                while i < n
                    invariant
                        n == self.layers@.len(),
                        i <= n,
                        self.selected_layer == Some(*id),
                        layers_find(self.layers@, id@, 0) == layers_find(self.layers@, id@, i as int),
                    decreases n - i,
                {
                    let layer = &self.layers[i];
                    if str_eq(layer.id.as_str(), id.as_str()) {
                        assert(layer_find(self.layers@[i as int], id@) == Some(self.layers@[i as int]));
                        return Some(layer);
                    }
                    match layer.find_sublayer_by_id(id.as_str()) {
                        Some(sub) => {
                            assert(layer_find(self.layers@[i as int], id@) == Some(*sub));
                            return Some(sub);
                        },
                        None => {},
                    }
                    i = i + 1;
                }
                None
            },
            None => None,
        }
    }

    /// Mutable access to the selected layer (see `get_active_layer`); what is
    /// written through it lands in that place of the layer tree.
    pub fn get_active_layer_mut(&mut self) -> (r: Option<&mut VectorLayer<O, S>>)
        ensures
            match old(self).selected_layer {
                Some(id) => {
                    &&& r matches Some(l) ==> layers_find(old(self).layers@, id@, 0) == Some(*l)
                        && replaced_found_in(old(self).layers@, final(self).layers@, id@, *final(l), 0)
                    &&& r is None ==> layers_find(old(self).layers@, id@, 0) is None && final(self).layers
                        == old(self).layers
                },
                None => r is None && final(self).layers == old(self).layers,
            },
            final(self).selected_layer == old(self).selected_layer,
            final(self).selected_objects == old(self).selected_objects,
            final(self).id == old(self).id,
            final(self).name == old(self).name,
    {
        let id = match &self.selected_layer {
            Some(id) => id.clone(),
            None => {
                return None;
            },
        };
        let n = self.layers.len();
        let mut i: usize = 0;
        while i < n
            invariant
                n == self.layers@.len(),
                i <= n,
                *self == *old(self),
                old(self).selected_layer == Some(id),
                layers_find(self.layers@, id@, 0) == layers_find(self.layers@, id@, i as int),
                forall|j: int| 0 <= j < i ==> layer_find(#[trigger] self.layers@[j], id@) is None,
            decreases n - i,
        {
            if self.layers[i].find_sublayer_by_id(id.as_str()).is_some() {
                proof {
                    lemma_replaced_in_list(self.layers@, id@, i as int);
                }
                return self.layers[i].find_sublayer_by_id_mut(id.as_str());
            }
            i = i + 1;
        }
        None
    }

    /// Appends `object` to the objects of the selected layer; returns whether
    /// there was one. This is how shapes and texts are added to the document.
    pub fn add_object_to_active_layer(&mut self, object: VectorItem<O>) -> (r: bool)
        ensures
            r == (old(self).selected_layer matches Some(id) && layers_find(old(self).layers@, id@, 0) is Some),
            r ==> exists|target: VectorLayer<O, S>|
                {
                    let found = layers_find(old(self).layers@, old(self).selected_layer.unwrap()@, 0).unwrap();
                    &&& target.objects@ == found.objects@.push(object)
                    &&& target.sublayers == found.sublayers
                    &&& target.id == found.id
                    &&& target.name == found.name
                    &&& target.visible == found.visible
                    &&& target.locked == found.locked
                    &&& target.style == found.style
                    &&& #[trigger] replaced_found_in(
                        old(self).layers@,
                        final(self).layers@,
                        old(self).selected_layer.unwrap()@,
                        target,
                        0,
                    )
                },
            !r ==> final(self).layers == old(self).layers,
            final(self).selected_layer == old(self).selected_layer,
            final(self).selected_objects == old(self).selected_objects,
    {
        match self.get_active_layer_mut() {
            Some(layer) => {
                layer.add_object(object);
                true
            },
            None => false,
        }
    }

    /// Selects the layer with id `id` when the document has one (at the top level
    /// or below); returns whether it did.
    pub fn select_layer(&mut self, id: &str) -> (r: bool)
        ensures
            r == layers_find(old(self).layers@, id@, 0) is Some,
            r ==> (final(self).selected_layer matches Some(s) && s@ == id@),
            !r ==> final(self).selected_layer == old(self).selected_layer,
            final(self).layers == old(self).layers,
            final(self).selected_objects == old(self).selected_objects,
    {
        let n = self.layers.len();
        let mut i: usize = 0;
        while i < n
            invariant
                n == self.layers@.len(),
                i <= n,
                *self == *old(self),
                layers_find(self.layers@, id@, 0) == layers_find(self.layers@, id@, i as int),
            decreases n - i,
        {
            let found = str_eq(self.layers[i].id.as_str(), id) || self.layers[i].find_sublayer_by_id(id).is_some();
            if found {
                assert(layer_find(self.layers@[i as int], id@) is Some);
                self.selected_layer = Some(id.to_string());
                return true;
            }
            i = i + 1;
        }
        false
    }

    /// Selects the object with id `id` when some top-level layer holds it among
    /// its own objects: the selection is first cleared unless `add_to_selection`,
    /// then `id` is added unless already selected. Returns whether the object
    /// exists; when it does not, the selection is still cleared unless
    /// `add_to_selection`.
    pub fn select_object(&mut self, id: &str, add_to_selection: bool) -> (r: bool)
        ensures
            r == object_layer(old(self).layers@, id@, 0) is Some,
            ({
                let base = if add_to_selection {
                    id_views(old(self).selected_objects@)
                } else {
                    Seq::empty()
                };
                id_views(final(self).selected_objects@) == if r && !base.contains(id@) {
                    base.push(id@)
                } else {
                    base
                }
            }),
            final(self).layers == old(self).layers,
            final(self).selected_layer == old(self).selected_layer,
    {
        let exists = self.holds_object(id);
        select_object_id(&mut self.selected_objects, id, add_to_selection, exists)
    }

    fn holds_object(&self, id: &str) -> (r: bool)
        ensures
            r == object_layer(self.layers@, id@, 0) is Some,
    {
        let n = self.layers.len();
        let mut i: usize = 0;
        while i < n
            invariant
                n == self.layers@.len(),
                i <= n,
                object_layer(self.layers@, id@, 0) == object_layer(self.layers@, id@, i as int),
            decreases n - i,
        {
            if self.layers[i].find_object_by_id(id).is_some() {
                return true;
            }
            i = i + 1;
        }
        false
    }

    /// Drops `id` from the selected objects; returns whether it was selected.
    pub fn deselect_object(&mut self, id: &str) -> (r: bool)
        ensures
            id_views(final(self).selected_objects@) == id_views(old(self).selected_objects@).filter(
                |s: Seq<char>| s != id@,
            ),
            r == id_views(old(self).selected_objects@).contains(id@),
            final(self).layers == old(self).layers,
            final(self).selected_layer == old(self).selected_layer,
    {
        deselect_object_id(&mut self.selected_objects, id)
    }

    /// Deselects every object.
    pub fn clear_selection(&mut self)
        ensures
            final(self).selected_objects@.len() == 0,
            final(self).layers == old(self).layers,
            final(self).selected_layer == old(self).selected_layer,
    {
        self.selected_objects.clear();
    }

    /// The first object with id `id` among the own objects of the top-level
    /// layers, bottom layer first.
    pub fn get_object_by_id(&self, id: &str) -> (r: Option<&VectorItem<O>>)
        ensures
            match object_layer(self.layers@, id@, 0) {
                Some(j) => match item_index(self.layers@[j].objects@, id@, 0) {
                    Some(k) => r == Some(&self.layers@[j].objects@[k]),
                    None => false,
                },
                None => r is None,
            },
    {
        let n = self.layers.len();
        let mut i: usize = 0;
        while i < n
            invariant
                n == self.layers@.len(),
                i <= n,
                object_layer(self.layers@, id@, 0) == object_layer(self.layers@, id@, i as int),
            decreases n - i,
        {
            match self.layers[i].find_object_by_id(id) {
                Some(item) => {
                    return Some(item);
                },
                None => {},
            }
            i = i + 1;
        }
        None
    }
}

/// Selecting a layer and then reading the selected layer gives a layer with the
/// id that was selected.
pub proof fn lemma_select_then_get_layer<O, S>(layers: Seq<VectorLayer<O, S>>, id: Seq<char>)
    requires
        layers_find(layers, id, 0) is Some,
    ensures
        layers_find(layers, id, 0).unwrap().id@ == id,
{
    lemma_found_in_list_has_id(layers, id, 0);
}

} // verus!
