pub mod vector;

use vstd::prelude::*;
use crate::text::str_eq;

verus! {

/// Every tool of the editor: selection, painting, vector, and view tools.
#[derive(Debug, Clone, Copy, PartialEq, Eq, Structural)]
pub enum ToolType {
    Brush,
    Clone,
    ColorPicker,
    Crop,
    EllipseSelection,
    Eraser,
    Fill,
    Gradient,
    Heal,
    LassoSelection,
    MagicWandSelection,
    Move,
    Pan,
    RectangleSelection,
    Selection,
    Text,
    VectorEllipse,
    VectorPath,
    VectorRectangle,
    VectorText,
    Zoom,
}

/// The error `ToolType::parse` gives for a name that is no tool's.
#[derive(Debug, Clone)]
pub struct ToolTypeParseError;

/// The tool whose name is `s`, if any.
pub open spec fn tool_named(s: Seq<char>) -> Option<ToolType> {
    if s == "Brush"@ {
        Some(ToolType::Brush)
    } else if s == "Clone"@ {
        Some(ToolType::Clone)
    } else if s == "ColorPicker"@ {
        Some(ToolType::ColorPicker)
    } else if s == "Crop"@ {
        Some(ToolType::Crop)
    } else if s == "EllipseSelection"@ {
        Some(ToolType::EllipseSelection)
    } else if s == "Eraser"@ {
        Some(ToolType::Eraser)
    } else if s == "Fill"@ {
        Some(ToolType::Fill)
    } else if s == "Gradient"@ {
        Some(ToolType::Gradient)
    } else if s == "Heal"@ {
        Some(ToolType::Heal)
    } else if s == "LassoSelection"@ {
        Some(ToolType::LassoSelection)
    } else if s == "MagicWandSelection"@ {
        Some(ToolType::MagicWandSelection)
    } else if s == "Move"@ {
        Some(ToolType::Move)
    } else if s == "Pan"@ {
        Some(ToolType::Pan)
    } else if s == "RectangleSelection"@ {
        Some(ToolType::RectangleSelection)
    } else if s == "Selection"@ {
        Some(ToolType::Selection)
    } else if s == "Text"@ {
        Some(ToolType::Text)
    } else if s == "VectorEllipse"@ {
        Some(ToolType::VectorEllipse)
    } else if s == "VectorPath"@ {
        Some(ToolType::VectorPath)
    } else if s == "VectorRectangle"@ {
        Some(ToolType::VectorRectangle)
    } else if s == "VectorText"@ {
        Some(ToolType::VectorText)
    } else if s == "Zoom"@ {
        Some(ToolType::Zoom)
    } else {
        None
    }
}

impl ToolType {
    /// The tool with the given name (its variant name, case included).
    pub fn parse(s: &str) -> (r: Result<ToolType, ToolTypeParseError>)
        ensures
            r matches Ok(t) ==> tool_named(s@) == Some(t),
            r is Err <==> tool_named(s@) is None,
    {
        if str_eq(s, "Brush") {
            Ok(ToolType::Brush)
        } else if str_eq(s, "Clone") {
            Ok(ToolType::Clone)
        } else if str_eq(s, "ColorPicker") {
            Ok(ToolType::ColorPicker)
        } else if str_eq(s, "Crop") {
            Ok(ToolType::Crop)
        } else if str_eq(s, "EllipseSelection") {
            Ok(ToolType::EllipseSelection)
        } else if str_eq(s, "Eraser") {
            Ok(ToolType::Eraser)
        } else if str_eq(s, "Fill") {
            Ok(ToolType::Fill)
        } else if str_eq(s, "Gradient") {
            Ok(ToolType::Gradient)
        } else if str_eq(s, "Heal") {
            Ok(ToolType::Heal)
        } else if str_eq(s, "LassoSelection") {
            Ok(ToolType::LassoSelection)
        } else if str_eq(s, "MagicWandSelection") {
            Ok(ToolType::MagicWandSelection)
        } else if str_eq(s, "Move") {
            Ok(ToolType::Move)
        } else if str_eq(s, "Pan") {
            Ok(ToolType::Pan)
        } else if str_eq(s, "RectangleSelection") {
            Ok(ToolType::RectangleSelection)
        } else if str_eq(s, "Selection") {
            Ok(ToolType::Selection)
        } else if str_eq(s, "Text") {
            Ok(ToolType::Text)
        } else if str_eq(s, "VectorEllipse") {
            Ok(ToolType::VectorEllipse)
        } else if str_eq(s, "VectorPath") {
            Ok(ToolType::VectorPath)
        } else if str_eq(s, "VectorRectangle") {
            Ok(ToolType::VectorRectangle)
        } else if str_eq(s, "VectorText") {
            Ok(ToolType::VectorText)
        } else if str_eq(s, "Zoom") {
            Ok(ToolType::Zoom)
        } else {
            Err(ToolTypeParseError)
        }
    }
}

impl std::str::FromStr for ToolType {
    type Err = ToolTypeParseError;

    /// The tool with the given name; see `ToolType::parse`.
    fn from_str(s: &str) -> (r: Result<Self, Self::Err>)
        ensures
            r matches Ok(t) ==> tool_named(s@) == Some(t),
            r is Err <==> tool_named(s@) is None,
    {
        ToolType::parse(s)
    }
}

/// The shapes the selection tool draws.
#[derive(Debug, Clone, Copy, PartialEq, Eq, Structural)]
pub enum SelectionType {
    Rectangle,
    Ellipse,
    Lasso,
    MagicWand,
}

/// The tool object that takes the events while a tool type is chosen: the four
/// selection types share the selection tool, and the types that no tool object
/// serves fall under `Unhandled`.
#[derive(Debug, Clone, Copy, PartialEq, Eq, Structural)]
pub enum ToolSlot {
    Selection,
    Brush,
    Clone,
    Heal,
    Crop,
    Text,
    Gradient,
    VectorRectangle,
    VectorEllipse,
    VectorPath,
    VectorText,
    Unhandled,
}

/// The tool object serving `t`.
pub open spec fn slot_of(t: ToolType) -> ToolSlot {
    match t {
        ToolType::RectangleSelection | ToolType::EllipseSelection | ToolType::LassoSelection
        | ToolType::MagicWandSelection => ToolSlot::Selection,
        ToolType::Brush => ToolSlot::Brush,
        ToolType::Clone => ToolSlot::Clone,
        ToolType::Heal => ToolSlot::Heal,
        ToolType::Crop => ToolSlot::Crop,
        ToolType::Text => ToolSlot::Text,
        ToolType::Gradient => ToolSlot::Gradient,
        ToolType::VectorRectangle => ToolSlot::VectorRectangle,
        ToolType::VectorEllipse => ToolSlot::VectorEllipse,
        ToolType::VectorPath => ToolSlot::VectorPath,
        ToolType::VectorText => ToolSlot::VectorText,
        _ => ToolSlot::Unhandled,
    }
}

/// The selection shape that choosing `t` gives the selection tool, if `t` is a
/// selection type.
pub open spec fn selection_type_of(t: ToolType) -> Option<SelectionType> {
    match t {
        ToolType::RectangleSelection => Some(SelectionType::Rectangle),
        ToolType::EllipseSelection => Some(SelectionType::Ellipse),
        ToolType::LassoSelection => Some(SelectionType::Lasso),
        ToolType::MagicWandSelection => Some(SelectionType::MagicWand),
        _ => None,
    }
}

/// The tool object serving `t`; see `slot_of`.
pub fn slot(t: ToolType) -> (r: ToolSlot)
    ensures
        r == slot_of(t),
{
    match t {
        ToolType::RectangleSelection | ToolType::EllipseSelection | ToolType::LassoSelection
        | ToolType::MagicWandSelection => ToolSlot::Selection,
        ToolType::Brush => ToolSlot::Brush,
        ToolType::Clone => ToolSlot::Clone,
        ToolType::Heal => ToolSlot::Heal,
        ToolType::Crop => ToolSlot::Crop,
        ToolType::Text => ToolSlot::Text,
        ToolType::Gradient => ToolSlot::Gradient,
        ToolType::VectorRectangle => ToolSlot::VectorRectangle,
        ToolType::VectorEllipse => ToolSlot::VectorEllipse,
        ToolType::VectorPath => ToolSlot::VectorPath,
        ToolType::VectorText => ToolSlot::VectorText,
        _ => ToolSlot::Unhandled,
    }
}

fn selection_type_for(t: ToolType) -> (r: Option<SelectionType>)
    ensures
        r == selection_type_of(t),
{
    match t {
        ToolType::RectangleSelection => Some(SelectionType::Rectangle),
        ToolType::EllipseSelection => Some(SelectionType::Ellipse),
        ToolType::LassoSelection => Some(SelectionType::Lasso),
        ToolType::MagicWandSelection => Some(SelectionType::MagicWand),
        _ => None,
    }
}

/// The keys the tools react to.
#[derive(Debug, Clone, Copy, PartialEq, Eq, Structural)]
pub enum KeyName {
    Escape,
    Return,
    BackSpace,
    Alt,
    AltEscape,
    Other,
}

/// Which of the keys the tools react to is named `key`.
pub open spec fn key_name_of(key: Seq<char>) -> KeyName {
    if key == "Escape"@ {
        KeyName::Escape
    } else if key == "Return"@ {
        KeyName::Return
    } else if key == "BackSpace"@ {
        KeyName::BackSpace
    } else if key == "Alt"@ {
        KeyName::Alt
    } else if key == "Alt+Escape"@ {
        KeyName::AltEscape
    } else {
        KeyName::Other
    }
}

fn key_name(key: &str) -> (r: KeyName)
    ensures
        r == key_name_of(key@),
{
    if str_eq(key, "Escape") {
        KeyName::Escape
    } else if str_eq(key, "Return") {
        KeyName::Return
    } else if str_eq(key, "BackSpace") {
        KeyName::BackSpace
    } else if str_eq(key, "Alt") {
        KeyName::Alt
    } else if str_eq(key, "Alt+Escape") {
        KeyName::AltEscape
    } else {
        KeyName::Other
    }
}

/// The state of the tools that decides which of them is switched on, what
/// switching and keys discard, what is typed, and which cursor shows. Each flag
/// stands for what a tool holds: `*_stroking` that a stroke is under way (its
/// last point is set), `*_has_source` that a source point was picked,
/// `crop_has_region` that both corners of a crop rectangle are set,
/// `crop_handle` the resize handle under the pointer, `selection_in_progress`
/// that a selection is being drawn or has been made, `text_placed` that a text
/// position was taken (`text_content` is the text typed there),
/// `gradient_dragging` that a gradient line is being drawn, and the vector flags
/// that a shape, path or text is being placed. The points and settings that the
/// tools hold as floating-point numbers are not part of this state.
#[derive(Debug, Clone)]
pub struct ToolManager {
    pub active_tool: ToolType,
    pub selection_active: bool,
    pub selection_type: SelectionType,
    pub selection_in_progress: bool,
    pub brush_active: bool,
    pub brush_stroking: bool,
    pub clone_active: bool,
    pub clone_stroking: bool,
    pub clone_has_source: bool,
    pub heal_active: bool,
    pub heal_stroking: bool,
    pub heal_has_source: bool,
    pub crop_active: bool,
    pub crop_has_region: bool,
    pub crop_dragging: bool,
    pub crop_handle: Option<usize>,
    pub text_active: bool,
    pub text_placed: bool,
    pub text_content: Option<String>,
    pub gradient_active: bool,
    pub gradient_dragging: bool,
    pub rectangle_started: bool,
    pub ellipse_started: bool,
    pub path_drawing: bool,
    pub vector_text_placed: bool,
}

impl ToolManager {
    /// Whether the tool object `s` is switched on. The vector tools and
    /// `Unhandled` have no such switch.
    pub open spec fn slot_active(self, s: ToolSlot) -> bool {
        match s {
            ToolSlot::Selection => self.selection_active,
            ToolSlot::Brush => self.brush_active,
            ToolSlot::Clone => self.clone_active,
            ToolSlot::Heal => self.heal_active,
            ToolSlot::Crop => self.crop_active,
            ToolSlot::Text => self.text_active,
            ToolSlot::Gradient => self.gradient_active,
            _ => false,
        }
    }

    /// No tool object but the one serving the chosen tool is switched on.
    pub open spec fn wf(self) -> bool {
        forall|s: ToolSlot| #[trigger] self.slot_active(s) ==> s == slot_of(self.active_tool)
    }

    /// The state after the tool object `s` is switched off: that tool drops what it
    /// was in the middle of. The clone tool keeps its source point; the heal tool
    /// does not.
    pub open spec fn switched_off(self, s: ToolSlot) -> ToolManager {
        ToolManager {
            active_tool: self.active_tool,
            selection_active: self.selection_active && s != ToolSlot::Selection,
            selection_type: self.selection_type,
            selection_in_progress: self.selection_in_progress,
            brush_active: self.brush_active && s != ToolSlot::Brush,
            brush_stroking: self.brush_stroking && s != ToolSlot::Brush,
            clone_active: self.clone_active && s != ToolSlot::Clone,
            clone_stroking: self.clone_stroking && s != ToolSlot::Clone,
            clone_has_source: self.clone_has_source,
            heal_active: self.heal_active && s != ToolSlot::Heal,
            heal_stroking: self.heal_stroking && s != ToolSlot::Heal,
            heal_has_source: self.heal_has_source && s != ToolSlot::Heal,
            crop_active: self.crop_active && s != ToolSlot::Crop,
            crop_has_region: self.crop_has_region && s != ToolSlot::Crop,
            crop_dragging: self.crop_dragging && s != ToolSlot::Crop,
            crop_handle: if s == ToolSlot::Crop { None } else { self.crop_handle },
            text_active: self.text_active && s != ToolSlot::Text,
            text_placed: self.text_placed && s != ToolSlot::Text,
            text_content: if s == ToolSlot::Text {
                None
            } else {
                self.text_content
            },
            gradient_active: self.gradient_active && s != ToolSlot::Gradient,
            gradient_dragging: self.gradient_dragging && s != ToolSlot::Gradient,
            rectangle_started: self.rectangle_started && s != ToolSlot::VectorRectangle,
            ellipse_started: self.ellipse_started && s != ToolSlot::VectorEllipse,
            path_drawing: self.path_drawing && s != ToolSlot::VectorPath,
            vector_text_placed: self.vector_text_placed && s != ToolSlot::VectorText,
        }
    }

    /// The state after the tool object serving `t` is switched on (a selection
    /// type also sets the selection shape) and `t` becomes the chosen tool.
    pub open spec fn switched_on(self, t: ToolType) -> ToolManager {
        let s = slot_of(t);
        ToolManager {
            active_tool: t,
            selection_active: self.selection_active || s == ToolSlot::Selection,
            selection_type: match selection_type_of(t) {
                Some(st) => st,
                None => self.selection_type,
            },
            brush_active: self.brush_active || s == ToolSlot::Brush,
            clone_active: self.clone_active || s == ToolSlot::Clone,
            heal_active: self.heal_active || s == ToolSlot::Heal,
            crop_active: self.crop_active || s == ToolSlot::Crop,
            text_active: self.text_active || s == ToolSlot::Text,
            gradient_active: self.gradient_active || s == ToolSlot::Gradient,
            ..self
        }
    }

    /// The state after choosing `t`: the current tool is switched off, then the
    /// one serving `t` switched on.
    pub open spec fn switched_to(self, t: ToolType) -> ToolManager {
        self.switched_off(slot_of(self.active_tool)).switched_on(t)
    }

    /// The cursor of the crop tool: a grabbing hand while dragging, a resize
    /// arrow over a handle, a move cursor over a finished rectangle, else a
    /// crosshair.
    pub open spec fn crop_cursor(self) -> Seq<char> {
        if self.crop_dragging {
            "grabbing"@
        } else if self.crop_handle is Some {
            let h = self.crop_handle.unwrap();
            if h == 0 || h == 4 {
                "nwse-resize"@
            } else if h == 1 || h == 5 {
                "ns-resize"@
            } else if h == 2 || h == 6 {
                "nesw-resize"@
            } else if h == 3 || h == 7 {
                "ew-resize"@
            } else {
                "crosshair"@
            }
        } else if self.crop_has_region {
            "move"@
        } else {
            "crosshair"@
        }
    }

    /// The name of the cursor for the chosen tool.
    pub open spec fn cursor_name(self) -> Seq<char> {
        match self.active_tool {
            ToolType::RectangleSelection | ToolType::EllipseSelection | ToolType::LassoSelection
            | ToolType::MagicWandSelection => if self.selection_type == SelectionType::MagicWand {
                "cell"@
            } else {
                "crosshair"@
            },
            ToolType::Brush => "brush"@,
            ToolType::Clone => if self.clone_has_source {
                "clone"@
            } else {
                "crosshair"@
            },
            ToolType::Heal => if self.heal_has_source {
                "copy"@
            } else {
                "crosshair"@
            },
            ToolType::Crop => self.crop_cursor(),
            ToolType::Text => "text"@,
            ToolType::Gradient => "crosshair"@,
            ToolType::VectorRectangle | ToolType::VectorEllipse | ToolType::VectorPath => "crosshair"@,
            ToolType::VectorText => "text"@,
            ToolType::ColorPicker => "cell"@,
            ToolType::Zoom => "zoom-in"@,
            ToolType::Pan => "grab"@,
            _ => "default"@,
        }
    }

    /// The state of the tools other than the typed text after the key named `key`
    /// is pressed, the chosen tool taking it: Escape drops what the selection
    /// tool, brush, clone tool (keeping its source), heal tool (with its source),
    /// crop tool, gradient tool and path tool were in the middle of; Alt+Escape
    /// also drops the clone source; Alt makes the heal tool's last point its
    /// source; Return drops the crop rectangle and finishes a path being drawn
    /// when there is a vector document; for the text tool, which takes keys only
    /// while editing, Escape ends editing and drops the position, and Return ends
    /// editing.
    pub open spec fn after_key(self, key: &str, has_document: bool) -> ToolManager {
        let t = self.active_tool;
        let name = key_name_of(key@);
        let escape = name == KeyName::Escape;
        let enter = name == KeyName::Return;
        ToolManager {
            selection_in_progress: self.selection_in_progress && !(slot_of(t) == ToolSlot::Selection
                && escape),
            brush_stroking: self.brush_stroking && !(t == ToolType::Brush && escape),
            clone_stroking: self.clone_stroking && !(t == ToolType::Clone && (escape || name
                == KeyName::AltEscape)),
            clone_has_source: self.clone_has_source && !(t == ToolType::Clone && name == KeyName::AltEscape),
            heal_stroking: self.heal_stroking && !(t == ToolType::Heal && escape),
            heal_has_source: if t == ToolType::Heal && escape {
                false
            } else if t == ToolType::Heal && name == KeyName::Alt {
                self.heal_has_source || self.heal_stroking
            } else {
                self.heal_has_source
            },
            crop_has_region: self.crop_has_region && !(t == ToolType::Crop && (escape || enter)),
            crop_dragging: self.crop_dragging && !(t == ToolType::Crop && (escape || enter)),
            crop_handle: if t == ToolType::Crop && (escape || enter) {
                None
            } else {
                self.crop_handle
            },
            text_active: self.text_active && !(t == ToolType::Text && (escape || enter)),
            text_placed: self.text_placed && !(t == ToolType::Text && self.text_active && escape),
            gradient_dragging: self.gradient_dragging && !(t == ToolType::Gradient && escape),
            path_drawing: self.path_drawing && !(t == ToolType::VectorPath && (escape || (enter
                && has_document))),
            ..self
        }
    }

    /// The text of the text tool after the key named `key` is pressed: only while
    /// the text tool is chosen and editing does a key change it. Escape drops it,
    /// BackSpace removes its last character, and a key whose name is a single byte
    /// (one ASCII character) is appended, starting an empty text if there was none.
    pub open spec fn typed_text(self, key: &str) -> Option<Seq<char>> {
        let old_text = match self.text_content {
            Some(t) => Some(t@),
            None => None,
        };
        let name = key_name_of(key@);
        if self.active_tool == ToolType::Text && self.text_active {
            if name == KeyName::Escape {
                None
            } else if name == KeyName::Return {
                old_text
            } else if name == KeyName::BackSpace {
                match old_text {
                    Some(t) => Some(
                        if t.len() > 0 {
                            t.drop_last()
                        } else {
                            t
                        },
                    ),
                    None => None,
                }
            } else if key.len() == 1 {
                match old_text {
                    Some(t) => Some(t + key@),
                    None => Some(key@),
                }
            } else {
                old_text
            }
        } else {
            old_text
        }
    }

    /// The brush chosen, every tool switched off and idle, and the selection
    /// tool set to rectangles.
    pub fn new() -> (r: Self)
        ensures
            r.active_tool == ToolType::Brush,
            r.selection_type == SelectionType::Rectangle,
            !r.selection_active && !r.brush_active && !r.clone_active && !r.heal_active,
            !r.crop_active && !r.text_active && !r.gradient_active,
            !r.brush_stroking && !r.clone_stroking && !r.clone_has_source,
            !r.heal_stroking && !r.heal_has_source,
            !r.crop_has_region && !r.crop_dragging && r.crop_handle is None,
            !r.text_placed && r.text_content is None && !r.gradient_dragging && !r.selection_in_progress,
            !r.rectangle_started && !r.ellipse_started && !r.path_drawing && !r.vector_text_placed,
            r.wf(),
    {
        ToolManager {
            active_tool: ToolType::Brush,
            selection_active: false,
            selection_type: SelectionType::Rectangle,
            selection_in_progress: false,
            brush_active: false,
            brush_stroking: false,
            clone_active: false,
            clone_stroking: false,
            clone_has_source: false,
            heal_active: false,
            heal_stroking: false,
            heal_has_source: false,
            crop_active: false,
            crop_has_region: false,
            crop_dragging: false,
            crop_handle: None,
            text_active: false,
            text_placed: false,
            text_content: None,
            gradient_active: false,
            gradient_dragging: false,
            rectangle_started: false,
            ellipse_started: false,
            path_drawing: false,
            vector_text_placed: false,
        }
    }

    /// Switches off the tool object of the current tool, then switches on the one
    /// serving `tool_type` (setting the selection shape for a selection type), and
    /// makes `tool_type` the chosen tool.
    pub fn set_active_tool(&mut self, tool_type: ToolType)
        ensures
            *final(self) == old(self).switched_to(tool_type),
            old(self).wf() ==> final(self).wf(),
    {
        let off = self.current_switched_off();
        *self = off.with_switched_on(tool_type);
        proof {
            if old(self).wf() {
                lemma_switch_keeps_wf(*old(self), tool_type);
            }
        }
    }

    fn current_switched_off(&self) -> (r: Self)
        ensures
            r == self.switched_off(slot_of(self.active_tool)),
    {
        let s = slot(self.active_tool);
        ToolManager {
            active_tool: self.active_tool,
            selection_active: self.selection_active && s != ToolSlot::Selection,
            selection_type: self.selection_type,
            selection_in_progress: self.selection_in_progress,
            brush_active: self.brush_active && s != ToolSlot::Brush,
            brush_stroking: self.brush_stroking && s != ToolSlot::Brush,
            clone_active: self.clone_active && s != ToolSlot::Clone,
            clone_stroking: self.clone_stroking && s != ToolSlot::Clone,
            clone_has_source: self.clone_has_source,
            heal_active: self.heal_active && s != ToolSlot::Heal,
            heal_stroking: self.heal_stroking && s != ToolSlot::Heal,
            heal_has_source: self.heal_has_source && s != ToolSlot::Heal,
            crop_active: self.crop_active && s != ToolSlot::Crop,
            crop_has_region: self.crop_has_region && s != ToolSlot::Crop,
            crop_dragging: self.crop_dragging && s != ToolSlot::Crop,
            crop_handle: if s == ToolSlot::Crop {
                None
            } else {
                self.crop_handle
            },
            text_active: self.text_active && s != ToolSlot::Text,
            text_placed: self.text_placed && s != ToolSlot::Text,
            text_content: if s == ToolSlot::Text {
                None
            } else {
                match &self.text_content {
                    Some(t) => Some(t.clone()),
                    None => None,
                }
            },
            gradient_active: self.gradient_active && s != ToolSlot::Gradient,
            gradient_dragging: self.gradient_dragging && s != ToolSlot::Gradient,
            rectangle_started: self.rectangle_started && s != ToolSlot::VectorRectangle,
            ellipse_started: self.ellipse_started && s != ToolSlot::VectorEllipse,
            path_drawing: self.path_drawing && s != ToolSlot::VectorPath,
            vector_text_placed: self.vector_text_placed && s != ToolSlot::VectorText,
        }
    }

    fn with_switched_on(self, tool_type: ToolType) -> (r: Self)
        ensures
            r == self.switched_on(tool_type),
    {
        let s = slot(tool_type);
        let selection_type = match selection_type_for(tool_type) {
            Some(st) => st,
            None => self.selection_type,
        };
        ToolManager {
            active_tool: tool_type,
            selection_active: self.selection_active || s == ToolSlot::Selection,
            selection_type,
            brush_active: self.brush_active || s == ToolSlot::Brush,
            clone_active: self.clone_active || s == ToolSlot::Clone,
            heal_active: self.heal_active || s == ToolSlot::Heal,
            crop_active: self.crop_active || s == ToolSlot::Crop,
            text_active: self.text_active || s == ToolSlot::Text,
            gradient_active: self.gradient_active || s == ToolSlot::Gradient,
            ..self
        }
    }

    /// Hands the key named `key` to the chosen tool; see `after_key` and
    /// `typed_text`. Returns whether the path being drawn is to be finished, open,
    /// and added to the vector document (there must be one): this happens on
    /// Return with the path tool chosen while it draws a path.
    pub fn key_press(&mut self, key: &str, has_document: bool) -> (r: bool)
        ensures
            *final(self) == (ToolManager {
                text_content: final(self).text_content,
                ..old(self).after_key(key, has_document)
            }),
            match final(self).text_content {
                Some(t) => old(self).typed_text(key) == Some(t@),
                None => old(self).typed_text(key) is None,
            },
            r == (old(self).active_tool == ToolType::VectorPath && key_name_of(key@) == KeyName::Return
                && has_document && old(self).path_drawing),
    {
        let name = key_name(key);
        let finishes = self.active_tool == ToolType::VectorPath && name == KeyName::Return && has_document
            && self.path_drawing;
        let next = self.keyed(key, has_document, name);
        *self = next;
        finishes
    }

    fn keyed(&self, key: &str, has_document: bool, name: KeyName) -> (r: Self)
        requires
            name == key_name_of(key@),
        ensures
            r == (ToolManager { text_content: r.text_content, ..self.after_key(key, has_document) }),
            match r.text_content {
                Some(t) => self.typed_text(key) == Some(t@),
                None => self.typed_text(key) is None,
            },
    {
        let t = self.active_tool;
        let escape = name == KeyName::Escape;
        let enter = name == KeyName::Return;
        let alt = name == KeyName::Alt;
        let alt_escape = name == KeyName::AltEscape;
        let text_content = self.typed_text_exec(key, name);
        let selection = slot(t) == ToolSlot::Selection;
        let brush = t == ToolType::Brush;
        let clone = t == ToolType::Clone;
        let heal = t == ToolType::Heal;
        let crop = t == ToolType::Crop;
        let text = t == ToolType::Text;
        let gradient = t == ToolType::Gradient;
        let path = t == ToolType::VectorPath;
        let heal_has_source = if heal && escape {
            false
        } else if heal && alt {
            self.heal_has_source || self.heal_stroking
        } else {
            self.heal_has_source
        };
        let next = ToolManager {
            active_tool: t,
            selection_active: self.selection_active,
            selection_type: self.selection_type,
            selection_in_progress: self.selection_in_progress && !(selection && escape),
            brush_active: self.brush_active,
            brush_stroking: self.brush_stroking && !(brush && escape),
            clone_active: self.clone_active,
            clone_stroking: self.clone_stroking && !(clone && (escape || alt_escape)),
            clone_has_source: self.clone_has_source && !(clone && alt_escape),
            heal_active: self.heal_active,
            heal_stroking: self.heal_stroking && !(heal && escape),
            heal_has_source,
            crop_active: self.crop_active,
            crop_has_region: self.crop_has_region && !(crop && (escape || enter)),
            crop_dragging: self.crop_dragging && !(crop && (escape || enter)),
            crop_handle: if crop && (escape || enter) {
                None
            } else {
                self.crop_handle
            },
            text_active: self.text_active && !(text && (escape || enter)),
            text_placed: self.text_placed && !(text && self.text_active && escape),
            text_content,
            gradient_active: self.gradient_active,
            gradient_dragging: self.gradient_dragging && !(gradient && escape),
            rectangle_started: self.rectangle_started,
            ellipse_started: self.ellipse_started,
            path_drawing: self.path_drawing && !(path && (escape || (enter && has_document))),
            vector_text_placed: self.vector_text_placed,
        };
        next
    }

    fn typed_text_exec(&self, key: &str, name: KeyName) -> (r: Option<String>)
        requires
            name == key_name_of(key@),
        ensures
            match r {
                Some(t) => self.typed_text(key) == Some(t@),
                None => self.typed_text(key) is None,
            },
    {
        let current = match &self.text_content {
            Some(t) => Some(t.clone()),
            None => None,
        };
        if !(self.active_tool == ToolType::Text && self.text_active) {
            return current;
        }
        match name {
            KeyName::Escape => None,
            KeyName::Return => current,
            KeyName::BackSpace => match current {
                Some(t) => {
                    let n = t.unicode_len();
                    if n > 0 {
                        Some(t.as_str().substring_char(0, n - 1).to_owned())
                    } else {
                        Some(t)
                    }
                },
                None => None,
            },
            _ => if key.len() == 1 {
                match current {
                    Some(t) => {
                        let mut more = t;
                        more.append(key);
                        Some(more)
                    },
                    None => Some(key.to_owned()),
                }
            } else {
                current
            },
        }
    }

    /// The chosen tool.
    pub fn get_active_tool(&self) -> (r: ToolType)
        ensures
            r == self.active_tool,
    {
        self.active_tool
    }

    /// The name of the cursor for the chosen tool; see `cursor_name`.
    pub fn get_cursor(&self) -> (r: &'static str)
        ensures
            r@ == self.cursor_name(),
    {
        match self.active_tool {
            ToolType::RectangleSelection | ToolType::EllipseSelection | ToolType::LassoSelection
            | ToolType::MagicWandSelection => match self.selection_type {
                SelectionType::MagicWand => "cell",
                _ => "crosshair",
            },
            ToolType::Brush => "brush",
            ToolType::Clone => if self.clone_has_source {
                "clone"
            } else {
                "crosshair"
            },
            ToolType::Heal => if self.heal_has_source {
                "copy"
            } else {
                "crosshair"
            },
            ToolType::Crop => self.crop_cursor_exec(),
            ToolType::Text => "text",
            ToolType::Gradient => "crosshair",
            ToolType::VectorRectangle | ToolType::VectorEllipse | ToolType::VectorPath => "crosshair",
            ToolType::VectorText => "text",
            ToolType::ColorPicker => "cell",
            ToolType::Zoom => "zoom-in",
            ToolType::Pan => "grab",
            _ => "default",
        }
    }

    fn crop_cursor_exec(&self) -> (r: &'static str)
        ensures
            r@ == self.crop_cursor(),
    {
        if self.crop_dragging {
            "grabbing"
        } else if let Some(h) = self.crop_handle {
            match h {
                0 | 4 => "nwse-resize",
                1 | 5 => "ns-resize",
                2 | 6 => "nesw-resize",
                3 | 7 => "ew-resize",
                _ => "crosshair",
            }
        } else if self.crop_has_region {
            "move"
        } else {
            "crosshair"
        }
    }
}

/// Whether the tool object `s` has an on/off switch.
pub open spec fn has_switch(s: ToolSlot) -> bool {
    match s {
        ToolSlot::Selection | ToolSlot::Brush | ToolSlot::Clone | ToolSlot::Heal | ToolSlot::Crop
        | ToolSlot::Text | ToolSlot::Gradient => true,
        _ => false,
    }
}

proof fn lemma_off_slot(m: ToolManager, a: ToolSlot, s: ToolSlot)
    ensures
        m.switched_off(a).slot_active(s) == (s != a && m.slot_active(s)),
{
}

proof fn lemma_on_slot(m: ToolManager, t: ToolType, s: ToolSlot)
    ensures
        m.switched_on(t).slot_active(s) == ((s == slot_of(t) && has_switch(s)) || m.slot_active(s)),
{
}

/// Choosing a tool keeps the tool objects consistent: none but the one serving the
/// chosen tool stays switched on.
pub proof fn lemma_switch_keeps_wf(m: ToolManager, t: ToolType)
    requires
        m.wf(),
    ensures
        m.switched_to(t).wf(),
{
    lemma_only_chosen_tool_on(m, t);
}

/// Choosing a tool leaves exactly the tool object serving it switched on (where
/// that object has a switch) and every other one off.
pub proof fn lemma_only_chosen_tool_on(m: ToolManager, t: ToolType)
    requires
        m.wf(),
    ensures
        m.switched_to(t).active_tool == t,
        forall|s: ToolSlot| #[trigger] m.switched_to(t).slot_active(s) <==> (s == slot_of(t) && has_switch(s)),
{
    let a = slot_of(m.active_tool);
    let off = m.switched_off(a);
    assert(off.active_tool == m.active_tool);
    assert forall|s: ToolSlot| #[trigger] m.switched_to(t).slot_active(s) <==> (s == slot_of(t) && has_switch(s)) by {
        lemma_off_slot(m, a, s);
        lemma_on_slot(off, t, s);
        if s != a {
            assert(!m.slot_active(s));
        }
    }
}

/// Choosing a selection tool type, from any state, sets the selection tool's
/// shape to the one that tool type names: rectangle, ellipse, lasso or magic
/// wand. Distinct selection tool types give distinct shapes, and choosing a tool
/// that the selection tool does not serve keeps the shape as it was.
pub proof fn lemma_selection_shape_follows_tool(m: ToolManager, t: ToolType, u: ToolType)
    ensures
        m.switched_to(ToolType::RectangleSelection).selection_type == SelectionType::Rectangle,
        m.switched_to(ToolType::EllipseSelection).selection_type == SelectionType::Ellipse,
        m.switched_to(ToolType::LassoSelection).selection_type == SelectionType::Lasso,
        m.switched_to(ToolType::MagicWandSelection).selection_type == SelectionType::MagicWand,
        slot_of(t) != ToolSlot::Selection ==> m.switched_to(t).selection_type == m.selection_type,
        slot_of(t) == ToolSlot::Selection && slot_of(u) == ToolSlot::Selection && t != u
            ==> m.switched_to(t).selection_type != m.switched_to(u).selection_type,
{
}

/// Switching tools keeps the clone tool's source point, so cloning can go on
/// from it later, while leaving the heal tool forgets the heal source.
pub proof fn lemma_switch_keeps_clone_source(m: ToolManager, t: ToolType)
    ensures
        m.switched_to(t).clone_has_source == m.clone_has_source,
        m.active_tool == ToolType::Heal ==> !m.switched_to(t).heal_has_source,
{
}

/// While the text tool is editing, typing a key that is one ASCII character (one
/// character, one byte) and then BackSpace gives back the text there was (the
/// empty text when there was none).
pub proof fn lemma_type_then_erase(m: ToolManager, key: &str, m2: ToolManager, erase: &str)
    requires
        m.active_tool == ToolType::Text,
        m.text_active,
        key.len() == 1,
        key@.len() == 1,
        m2 == (ToolManager { text_content: m2.text_content, ..m.after_key(key, false) }),
        match m2.text_content {
            Some(t) => m.typed_text(key) == Some(t@),
            None => m.typed_text(key) is None,
        },
        erase@ == "BackSpace"@,
    ensures
        m2.typed_text(erase) == Some(
            match m.text_content {
                Some(t) => t@,
                None => Seq::<char>::empty(),
            },
        ),
{
    reveal_strlit("Escape");
    reveal_strlit("Return");
    reveal_strlit("BackSpace");
    reveal_strlit("Alt");
    reveal_strlit("Alt+Escape");
    assert("BackSpace"@.len() == 9);
    assert("Escape"@.len() == 6);
    assert(key_name_of(key@) == KeyName::Other);
    assert(key_name_of(erase@) == KeyName::BackSpace);
    let before = match m.text_content {
        Some(t) => t@,
        None => Seq::<char>::empty(),
    };
    assert(m2.typed_text(erase) == Some((before + key@).drop_last())) by {
        if m.text_content is None {
            assert(before + key@ =~= key@);
        }
    }
    assert((before + key@).drop_last() =~= before);
}

} // verus!
