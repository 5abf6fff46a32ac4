use vstd::prelude::*;
use crate::base::raster::RgbaImage;
use crate::text::str_eq;

verus! {

/// Represents a layer type in the document
#[derive(Debug, Clone, PartialEq, Eq, Structural)]
pub enum LayerType {
    /// Regular raster layer
    Pixel,
    /// Vector graphics
    Vector,
    /// Text layer
    Text,
    /// Non-destructive adjustment
    Adjustment,
    /// Non-destructive filter
    LiveFilter,
    /// Layer group
    Group,
    /// Linked or embedded smart object
    SmartObject,
    /// RAW development layer
    RAW,
}

/// Blending modes for layers
#[derive(Debug, Clone, PartialEq, Eq, Structural)]
pub enum LayerBlendMode {
    Color,
    ColorBurn,
    ColorDodge,
    Darken,
    Difference,
    Divide,
    Exclusion,
    HardLight,
    HardMix,
    Hue,
    Lighten,
    LinearBurn,
    LinearDodge,
    LinearLight,
    Luminosity,
    Multiply,
    Negation,
    Normal,
    Overlay,
    PinLight,
    Saturation,
    Screen,
    SoftLight,
    Subtract,
    VividLight,
}

impl Default for LayerBlendMode {
    /// Normal blending.
    fn default() -> (r: Self)
        ensures
            r == LayerBlendMode::Normal,
    {
        LayerBlendMode::Normal
    }
}

/// The name under which a blend mode is shown.
pub open spec fn blend_mode_name(m: LayerBlendMode) -> Seq<char> {
    match m {
        LayerBlendMode::Color => "Color"@,
        LayerBlendMode::ColorBurn => "Color Burn"@,
        LayerBlendMode::ColorDodge => "Color Dodge"@,
        LayerBlendMode::Darken => "Darken"@,
        LayerBlendMode::Difference => "Difference"@,
        LayerBlendMode::Divide => "Divide"@,
        LayerBlendMode::Exclusion => "Exclusion"@,
        LayerBlendMode::HardLight => "Hard Light"@,
        LayerBlendMode::HardMix => "Hard Mix"@,
        LayerBlendMode::Hue => "Hue"@,
        LayerBlendMode::Lighten => "Lighten"@,
        LayerBlendMode::LinearBurn => "Linear Burn"@,
        LayerBlendMode::LinearDodge => "Linear Dodge"@,
        LayerBlendMode::LinearLight => "Linear Light"@,
        LayerBlendMode::Luminosity => "Luminosity"@,
        LayerBlendMode::Multiply => "Multiply"@,
        LayerBlendMode::Negation => "Negation"@,
        LayerBlendMode::Normal => "Normal"@,
        LayerBlendMode::Overlay => "Overlay"@,
        LayerBlendMode::PinLight => "Pin Light"@,
        LayerBlendMode::Saturation => "Saturation"@,
        LayerBlendMode::Screen => "Screen"@,
        LayerBlendMode::SoftLight => "Soft Light"@,
        LayerBlendMode::Subtract => "Subtract"@,
        LayerBlendMode::VividLight => "Vivid Light"@,
    }
}

impl LayerBlendMode {
    /// The name under which this blend mode is shown.
    pub fn to_string(&self) -> (r: String)
        ensures
            r@ == blend_mode_name(*self),
    {
        match self {
            LayerBlendMode::Color => "Color".to_string(),
            LayerBlendMode::ColorBurn => "Color Burn".to_string(),
            LayerBlendMode::ColorDodge => "Color Dodge".to_string(),
            LayerBlendMode::Darken => "Darken".to_string(),
            LayerBlendMode::Difference => "Difference".to_string(),
            LayerBlendMode::Divide => "Divide".to_string(),
            LayerBlendMode::Exclusion => "Exclusion".to_string(),
            LayerBlendMode::HardLight => "Hard Light".to_string(),
            LayerBlendMode::HardMix => "Hard Mix".to_string(),
            LayerBlendMode::Hue => "Hue".to_string(),
            LayerBlendMode::Lighten => "Lighten".to_string(),
            LayerBlendMode::LinearBurn => "Linear Burn".to_string(),
            LayerBlendMode::LinearDodge => "Linear Dodge".to_string(),
            LayerBlendMode::LinearLight => "Linear Light".to_string(),
            LayerBlendMode::Luminosity => "Luminosity".to_string(),
            LayerBlendMode::Multiply => "Multiply".to_string(),
            LayerBlendMode::Negation => "Negation".to_string(),
            LayerBlendMode::Normal => "Normal".to_string(),
            LayerBlendMode::Overlay => "Overlay".to_string(),
            LayerBlendMode::PinLight => "Pin Light".to_string(),
            LayerBlendMode::Saturation => "Saturation".to_string(),
            LayerBlendMode::Screen => "Screen".to_string(),
            LayerBlendMode::SoftLight => "Soft Light".to_string(),
            LayerBlendMode::Subtract => "Subtract".to_string(),
            LayerBlendMode::VividLight => "Vivid Light".to_string(),
        }
    }
}

/// Text alignment
#[derive(Debug, Clone, PartialEq, Eq, Structural)]
pub enum TextAlignment {
    Left,
    Center,
    Right,
    Justify,
}

/// Adjustment type
#[derive(Debug, Clone, PartialEq, Eq, Structural)]
pub enum AdjustmentType {
    HSL,
    Curves,
    Levels,
    BlackAndWhite,
    ColorBalance,
    Vibrance,
    Brightness,
    Exposure,
    Gradient,
    Invert,
    Threshold,
    Posterize,
    SelectiveColor,
    ChannelMixer,
}

/// Filter type of a live filter layer.
#[derive(Debug, Clone, PartialEq)]
pub enum FilterType {
    GaussianBlur,
    MotionBlur,
    Sharpen,
    UnsharpMask,
    Noise,
    Distortion,
    Lighting,
    Stylize,
    Custom(String),
}

/// The first position of `id` in `ids`, or -1 when it does not occur.
pub open spec fn first_index(ids: Seq<Seq<char>>, id: Seq<char>) -> int
    decreases ids.len(),
{
    if ids.len() == 0 {
        -1
    } else if ids[0] == id {
        0
    } else {
        let r = first_index(ids.drop_first(), id);
        if r < 0 {
            -1
        } else {
            r + 1
        }
    }
}

/// `first_index` finds the first occurrence, and -1 means there is none.
pub proof fn lemma_first_index(ids: Seq<Seq<char>>, id: Seq<char>)
    ensures
        -1 <= first_index(ids, id) < ids.len(),
        first_index(ids, id) >= 0 ==> ids[first_index(ids, id)] == id,
        forall|j: int| 0 <= j < first_index(ids, id) ==> ids[j] != id,
        first_index(ids, id) == -1 ==> forall|j: int| 0 <= j < ids.len() ==> ids[j] != id,
    decreases ids.len(),
{
    if ids.len() > 0 && ids[0] != id {
        let rest = ids.drop_first();
        lemma_first_index(rest, id);
        assert forall|j: int| 0 <= j < first_index(ids, id) implies ids[j] != id by {
            if j > 0 {
                assert(ids[j] == rest[j - 1]);
            }
        }
        if first_index(ids, id) == -1 {
            assert forall|j: int| 0 <= j < ids.len() implies ids[j] != id by {
                if j > 0 {
                    assert(ids[j] == rest[j - 1]);
                }
            }
        }
    }
}

/// Position `i` holds `id` and no earlier position does, so `i` is its first index.
proof fn lemma_first_index_at(ids: Seq<Seq<char>>, id: Seq<char>, i: int)
    requires
        0 <= i < ids.len(),
        ids[i] == id,
        forall|j: int| 0 <= j < i ==> ids[j] != id,
    ensures
        first_index(ids, id) == i,
{
    lemma_first_index(ids, id);
    let r = first_index(ids, id);
    if r == -1 {
        assert(ids[i] != id);
    } else if r < i {
        assert(ids[r] != id);
    } else if r > i {
        assert(ids[i] != id);
    }
}

/// The first position of `id` among `ids`, if any.
fn find_id(ids: &Vec<String>, id: &str) -> (r: Option<usize>)
    ensures
        match r {
            Some(i) => i as int == first_index(ids@.map_values(|s: String| s@), id@),
            None => first_index(ids@.map_values(|s: String| s@), id@) == -1,
        },
{
    let ghost names = ids@.map_values(|s: String| s@);
    let mut i: usize = 0;
    while i < ids.len()
        invariant
            names == ids@.map_values(|s: String| s@),
            i <= ids.len(),
            forall|j: int| 0 <= j < i ==> names[j] != id@,
        decreases ids.len() - i,
    {
        if str_eq(ids[i].as_str(), id) {
            proof {
                lemma_first_index_at(names, id@, i as int);
            }
            return Some(i);
        }
        i = i + 1;
    }
    proof {
        lemma_first_index(names, id@);
        if first_index(names, id@) != -1 {
            let k = first_index(names, id@);
            assert(names[k] != id@);
        }
    }
    None
}

/// The position just below `index`, or 0 at the bottom.
pub open spec fn below(index: int) -> int {
    if index > 0 {
        index - 1
    } else {
        0
    }
}

/// A stack of layers (bottom first), each under an id fixed when it is added; the
/// active layer is named by its id.
pub struct LayerManager<L> {
    layers: Vec<L>,
    ids: Vec<String>,
    active_layer_id: Option<String>,
}

impl<L> LayerManager<L> {
    /// The layers, bottom first.
    pub closed spec fn stack(&self) -> Seq<L> {
        self.layers@
    }

    /// The ids of the layers, bottom first.
    pub closed spec fn ids(&self) -> Seq<Seq<char>> {
        self.ids@.map_values(|s: String| s@)
    }

    /// The id of the active layer, if one has been chosen.
    pub closed spec fn active_id(&self) -> Option<Seq<char>> {
        match self.active_layer_id {
            Some(id) => Some(id@),
            None => None,
        }
    }

    /// Every layer has exactly one id.
    pub open spec fn wf(&self) -> bool {
        self.ids().len() == self.stack().len()
    }

    /// Whether the active id, if there is one, names a layer.
    pub open spec fn active_is_present(&self) -> bool {
        match self.active_id() {
            Some(a) => first_index(self.ids(), a) >= 0,
            None => true,
        }
    }

    /// The active position: that of the first layer with the active id.
    pub open spec fn active_position(&self) -> Option<int> {
        match self.active_id() {
            Some(a) => Some(first_index(self.ids(), a)),
            None => None,
        }
    }

    /// An empty stack with no active layer.
    pub fn new() -> (r: Self)
        ensures
            r.stack().len() == 0,
            r.ids().len() == 0,
            r.active_id() is None,
            r.wf(),
    {
        Self { layers: Vec::new(), ids: Vec::new(), active_layer_id: None }
    }

    /// Puts `layer` with id `id` on top; it becomes active when no layer is.
    pub fn add_layer(&mut self, id: String, layer: L)
        ensures
            final(self).stack() == old(self).stack().push(layer),
            final(self).ids() == old(self).ids().push(id@),
            final(self).active_id() == match old(self).active_id() {
                Some(a) => Some(a),
                None => Some(id@),
            },
            old(self).wf() ==> final(self).wf(),
    {
        let ghost old_ids = self.ids@;
        if self.active_layer_id.is_none() {
            self.active_layer_id = Some(id.clone());
        }
        self.layers.push(layer);
        self.ids.push(id);
        proof {
            assert(self.ids@.map_values(|s: String| s@) =~= old_ids.map_values(|s: String| s@).push(id@));
        }
    }

    /// The active id after removing the layer at `index`: when the removed layer
    /// was the active one and another layer remains, the id of a remaining layer,
    /// the one just below it (or, for the bottom layer, the one just above it);
    /// when it was the last layer, none; when another layer was active, that layer
    /// stays active.
    pub open spec fn active_after_removal(ids: Seq<Seq<char>>, active: Option<Seq<char>>, index: int) -> Option<Seq<char>> {
        match active {
            Some(a) => {
                if first_index(ids, a) == index {
                    if ids.len() > 1 {
                        Some(ids[if index > 0 { index - 1 } else { 1 }])
                    } else {
                        None
                    }
                } else {
                    Some(a)
                }
            },
            None => None,
        }
    }

    /// Removes and returns the layer at `index`, if there is one, updating the
    /// active id as `active_after_removal` says.
    pub fn remove_layer(&mut self, index: usize) -> (r: Option<L>)
        requires
            old(self).wf(),
        ensures
            final(self).wf(),
            index < old(self).stack().len() ==> {
                &&& r == Some(old(self).stack()[index as int])
                &&& final(self).stack() == old(self).stack().remove(index as int)
                &&& final(self).ids() == old(self).ids().remove(index as int)
                &&& final(self).active_id() == Self::active_after_removal(
                    old(self).ids(),
                    old(self).active_id(),
                    index as int,
                )
            },
            index >= old(self).stack().len() ==> r is None && final(self).stack() == old(self).stack()
                && final(self).ids() == old(self).ids() && final(self).active_id() == old(self).active_id(),
    {
        if index >= self.layers.len() {
            return None;
        }
        let ghost old_ids = self.ids@;
        let ghost names = self.ids();
        let n = self.ids.len();
        let neighbour = if index > 0 { index - 1 } else { 1 };
        let mut removing_active = false;
        match &self.active_layer_id {
            Some(active) => {
                match find_id(&self.ids, active.as_str()) {
                    Some(p) => {
                        removing_active = p == index;
                    },
                    None => {},
                }
            },
            None => {},
        }
        if removing_active {
            self.active_layer_id = if n > 1 {
                Some(self.ids[neighbour].clone())
            } else {
                None
            };
        }
        let layer = self.layers.remove(index);
        self.ids.remove(index);
        proof {
            assert(self.ids@.map_values(|s: String| s@) =~= names.remove(index as int));
        }
        Some(layer)
    }

    /// All layers, bottom first.
    pub fn get_layers(&self) -> (r: &[L])
        ensures
            r@ == self.stack(),
    {
        self.layers.as_slice()
    }

    /// Mutable access to all layers, bottom first; their number and ids stay.
    pub fn get_layers_mut(&mut self) -> (r: &mut [L])
        ensures
            r@ == old(self).stack(),
            final(self).stack() == final(r)@,
            final(self).ids() == old(self).ids(),
            final(self).active_id() == old(self).active_id(),
    {
        self.layers.as_mut_slice()
    }

    /// The layer at `index`, if there is one.
    pub fn get_layer(&self, index: usize) -> (r: Option<&L>)
        ensures
            r == if index < self.stack().len() {
                Some(&self.stack()[index as int])
            } else {
                None
            },
    {
        if index < self.layers.len() {
            Some(&self.layers[index])
        } else {
            None
        }
    }

    /// Mutable access to the layer at `index`, if there is one.
    pub fn get_layer_mut(&mut self, index: usize) -> (r: Option<&mut L>)
        ensures
            index < old(self).stack().len() ==> {
                &&& r is Some
                &&& *r->0 == old(self).stack()[index as int]
                &&& final(self).stack() == old(self).stack().update(index as int, *final(r->0))
            },
            index >= old(self).stack().len() ==> r is None && final(self).stack() == old(self).stack(),
            final(self).ids() == old(self).ids(),
            final(self).active_id() == old(self).active_id(),
    {
        if index < self.layers.len() {
            Some(&mut self.layers[index])
        } else {
            None
        }
    }

    /// The position of the active layer; `None` when no layer is active.
    pub fn get_active_layer_index(&self) -> (r: Option<usize>)
        requires
            self.active_is_present(),
        ensures
            match r {
                Some(i) => self.active_position() == Some(i as int),
                None => self.active_id() is None,
            },
    {
        match &self.active_layer_id {
            Some(active) => {
                let position = find_id(&self.ids, active.as_str());
                match position {
                    Some(p) => Some(p),
                    None => {
                        proof {
                            assert(false);
                        }
                        None
                    },
                }
            },
            None => None,
        }
    }

    /// Makes the layer at `index` active; an error when there is none.
    pub fn set_active_layer(&mut self, index: usize) -> (r: Result<(), &'static str>)
        requires
            old(self).wf(),
        ensures
            r is Ok <==> index < old(self).stack().len(),
            r matches Err(e) ==> e@ == "Layer index out of bounds"@,
            final(self).stack() == old(self).stack(),
            final(self).ids() == old(self).ids(),
            final(self).active_id() == if index < old(self).stack().len() {
                Some(old(self).ids()[index as int])
            } else {
                old(self).active_id()
            },
    {
        if index < self.layers.len() {
            self.active_layer_id = Some(self.ids[index].clone());
            Ok(())
        } else {
            Err("Layer index out of bounds")
        }
    }

    /// The first layer with the active id, if any.
    pub fn get_active_layer(&self) -> (r: Option<&L>)
        requires
            self.wf(),
        ensures
            r == match self.active_position() {
                Some(p) => if p >= 0 {
                    Some(&self.stack()[p])
                } else {
                    None
                },
                None => None,
            },
    {
        match &self.active_layer_id {
            Some(active) => {
                let position = find_id(&self.ids, active.as_str());
                proof {
                    lemma_first_index(self.ids(), active@);
                }
                match position {
                    Some(p) => Some(&self.layers[p]),
                    None => None,
                }
            },
            None => None,
        }
    }

    /// Swaps the layers (and ids) at `a` and `b`; the active id stays as it is,
    /// so the active layer keeps being the active one at its new place.
    fn swap_layers(&mut self, a: usize, b: usize)
        requires
            old(self).wf(),
            a < old(self).stack().len(),
            b < old(self).stack().len(),
            a == b + 1 || b == a + 1,
        ensures
            final(self).wf(),
            final(self).stack() == swapped(old(self).stack(), a as int, b as int),
            final(self).ids() == swapped(old(self).ids(), a as int, b as int),
            final(self).active_id() == old(self).active_id(),
    {
        let ghost names = self.ids();
        let ghost stack = self.layers@;
        let lo = if a < b { a } else { b };
        let hi = if a < b { b } else { a };
        let upper_layer = self.layers.remove(hi);
        self.layers.insert(lo, upper_layer);
        let upper_id = self.ids.remove(hi);
        self.ids.insert(lo, upper_id);
        proof {
            assert(self.layers@ =~= stack.update(a as int, stack[b as int]).update(b as int, stack[a as int]));
            assert(self.ids@.map_values(|s: String| s@) =~= names.update(a as int, names[b as int]).update(
                b as int,
                names[a as int],
            ));
        }
    }

    /// Moves the layer at `index` one place up (swapping it with the one above);
    /// the active id stays as it is, so the same layer stays active. Errors leave
    /// everything unchanged.
    pub fn move_layer_up(&mut self, index: usize) -> (r: Result<(), &'static str>)
        requires
            old(self).wf(),
        ensures
            final(self).wf(),
            index >= old(self).stack().len() ==> (r matches Err(e) && e@ == "Layer index out of bounds"@),
            index + 1 == old(self).stack().len() ==> (r matches Err(e) && e@ == "Layer already at the top"@),
            r is Ok <==> index + 1 < old(self).stack().len(),
            r is Err ==> final(self).stack() == old(self).stack() && final(self).ids() == old(self).ids()
                && final(self).active_id() == old(self).active_id(),
            r is Ok ==> {
                &&& final(self).stack() == swapped(old(self).stack(), index as int, index + 1)
                &&& final(self).ids() == swapped(old(self).ids(), index as int, index + 1)
                &&& final(self).active_id() == old(self).active_id()
            },
    {
        if index >= self.layers.len() {
            return Err("Layer index out of bounds");
        }
        if index == self.layers.len() - 1 {
            return Err("Layer already at the top");
        }
        self.swap_layers(index, index + 1);
        Ok(())
    }

    /// Moves the layer at `index` one place down (swapping it with the one below);
    /// the active id stays as it is, so the same layer stays active. Errors leave
    /// everything unchanged.
    pub fn move_layer_down(&mut self, index: usize) -> (r: Result<(), &'static str>)
        requires
            old(self).wf(),
        ensures
            final(self).wf(),
            index >= old(self).stack().len() ==> (r matches Err(e) && e@ == "Layer index out of bounds"@),
            index == 0 && old(self).stack().len() > 0 ==> (r matches Err(e) && e@ == "Layer already at the bottom"@),
            r is Ok <==> 0 < index < old(self).stack().len(),
            r is Err ==> final(self).stack() == old(self).stack() && final(self).ids() == old(self).ids()
                && final(self).active_id() == old(self).active_id(),
            r is Ok ==> {
                &&& final(self).stack() == swapped(old(self).stack(), index as int, index - 1)
                &&& final(self).ids() == swapped(old(self).ids(), index as int, index - 1)
                &&& final(self).active_id() == old(self).active_id()
            },
    {
        if index >= self.layers.len() {
            return Err("Layer index out of bounds");
        }
        if index == 0 {
            return Err("Layer already at the bottom");
        }
        self.swap_layers(index, index - 1);
        Ok(())
    }

    /// The composite of the layers at `width` by `height`: compositing is not done
    /// yet, so it is opaque white.
    pub fn flatten_to_image(&self, width: u32, height: u32) -> (r: RgbaImage)
        requires
            width as nat * height as nat <= usize::MAX,
        ensures
            r.w() == width,
            r.h() == height,
            forall|x: int, y: int| r.in_bounds(x, y) ==> #[trigger] r.at(x, y) == [255u8, 255u8, 255u8, 255u8],
    {
        RgbaImage::filled(width, height, [255, 255, 255, 255])
    }

    /// Mutable access to the first layer with the active id; `None` when no layer
    /// is active.
    pub fn get_active_layer_mut(&mut self) -> (r: Option<&mut L>)
        requires
            old(self).wf(),
            old(self).active_is_present(),
        ensures
            match old(self).active_position() {
                Some(p) => {
                    &&& r is Some
                    &&& *r->0 == old(self).stack()[p]
                    &&& final(self).stack() == old(self).stack().update(p, *final(r->0))
                },
                None => r is None && final(self).stack() == old(self).stack(),
            },
            final(self).ids() == old(self).ids(),
            final(self).active_id() == old(self).active_id(),
    {
        let position = match &self.active_layer_id {
            Some(active) => find_id(&self.ids, active.as_str()),
            None => None,
        };
        proof {
            match self.active_id() {
                Some(a) => lemma_first_index(self.ids(), a),
                None => {},
            }
        }
        match position {
            Some(p) => Some(&mut self.layers[p]),
            None => None,
        }
    }
}

/// Removing a layer never leaves a dangling active id: when the active id named
/// a layer before, afterwards it names a remaining layer, or there is none
/// because the last layer went; and a layer other than the removed one stays
/// active.
pub proof fn lemma_removal_keeps_active_present(ids: Seq<Seq<char>>, a: Seq<char>, index: int)
    requires
        0 <= index < ids.len(),
        first_index(ids, a) >= 0,
    ensures
        match LayerManager::<()>::active_after_removal(ids, Some(a), index) {
            Some(b) => first_index(ids.remove(index), b) >= 0,
            None => ids.len() == 1,
        },
        first_index(ids, a) != index ==> LayerManager::<()>::active_after_removal(ids, Some(a), index)
            == Some(a),
{
    lemma_first_index(ids, a);
    let p = first_index(ids, a);
    let rest = ids.remove(index);
    match LayerManager::<()>::active_after_removal(ids, Some(a), index) {
        Some(b) => {
            lemma_first_index(rest, b);
            let q = if p != index {
                if p < index { p } else { p - 1 }
            } else if index > 0 {
                index - 1
            } else {
                0
            };
            assert(rest[q] == b);
        },
        None => {},
    }
}

/// Choosing a layer by position makes it the active one, as long as no earlier
/// layer shares its id.
pub proof fn lemma_set_then_get_active<L>(before: LayerManager<L>, after: LayerManager<L>, index: int)
    requires
        before.wf(),
        0 <= index < before.stack().len(),
        forall|j: int| 0 <= j < index ==> before.ids()[j] != before.ids()[index],
        after.ids() == before.ids(),
        after.active_id() == Some(before.ids()[index]),
    ensures
        after.active_position() == Some(index),
{
    lemma_first_index_at(before.ids(), before.ids()[index], index);
}

/// `s` with the entries at `a` and `b` exchanged.
pub open spec fn swapped<T>(s: Seq<T>, a: int, b: int) -> Seq<T> {
    s.update(a, s[b]).update(b, s[a])
}

/// Moving a layer up and then moving it down again from its new place gives
/// back the same layers, ids and active layer.
pub proof fn lemma_up_then_down<L>(m0: LayerManager<L>, m1: LayerManager<L>, m2: LayerManager<L>, index: int)
    requires
        m0.wf(),
        0 <= index,
        index + 1 < m0.stack().len(),
        m1.stack() == swapped(m0.stack(), index, index + 1),
        m1.ids() == swapped(m0.ids(), index, index + 1),
        m1.active_id() == m0.active_id(),
        m2.stack() == swapped(m1.stack(), index + 1, index),
        m2.ids() == swapped(m1.ids(), index + 1, index),
        m2.active_id() == m1.active_id(),
    ensures
        m2.stack() == m0.stack(),
        m2.ids() == m0.ids(),
        m2.active_id() == m0.active_id(),
{
    assert(m2.stack() =~= m0.stack());
    assert(m2.ids() =~= m0.ids());
}

} // verus!
