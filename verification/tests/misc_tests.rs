use rust_photo::raw::{init, DemosaicAlgorithm, RawProcessor, WhiteBalance};
use rust_photo::tools::{slot, SelectionType, ToolManager, ToolSlot, ToolType};
use rust_photo::{has_gpu_support, has_vulkan_support, has_wgpu_support, init_gpu, APP_ID, APP_NAME};
use std::str::FromStr;

#[test]
fn tool_type_parses_variant_names() {
    assert_eq!(ToolType::from_str("Move").unwrap(), ToolType::Move);
    assert_eq!(ToolType::from_str("MagicWandSelection").unwrap(), ToolType::MagicWandSelection);
    assert_eq!(ToolType::from_str("VectorText").unwrap(), ToolType::VectorText);
    assert_eq!("Pan".parse::<ToolType>().unwrap(), ToolType::Pan);
    assert!(ToolType::from_str("move").is_err());
    assert!(ToolType::from_str("").is_err());
    assert!(ToolType::parse("Hammer").is_err());
}

#[test]
fn every_tool_parses_from_its_debug_name() {
    let all = [
        ToolType::Move,
        ToolType::Selection,
        ToolType::RectangleSelection,
        ToolType::EllipseSelection,
        ToolType::LassoSelection,
        ToolType::MagicWandSelection,
        ToolType::Brush,
        ToolType::Eraser,
        ToolType::Clone,
        ToolType::Heal,
        ToolType::Fill,
        ToolType::VectorRectangle,
        ToolType::VectorEllipse,
        ToolType::VectorPath,
        ToolType::VectorText,
        ToolType::Crop,
        ToolType::Text,
        ToolType::Gradient,
        ToolType::ColorPicker,
        ToolType::Zoom,
        ToolType::Pan,
    ];
    for tool in all {
        assert_eq!(ToolType::parse(&format!("{:?}", tool)).unwrap(), tool);
    }
}

#[test]
fn gpu_support_is_off_without_features() {
    assert!(!has_vulkan_support());
    assert!(!has_wgpu_support());
    assert!(!has_gpu_support());
    assert_eq!(init_gpu(), Ok(()));
}

#[test]
fn application_names() {
    assert_eq!(APP_NAME, "Rust Photo");
    assert_eq!(APP_ID, "com.example.rust_photo");
}

#[test]
fn raw_support_initialises_and_loads_placeholder() {
    assert_eq!(init(), Ok(()));
    let processor = RawProcessor::new();
    let image = processor.load_file(std::path::Path::new("photo.cr2"));
    assert!(image.is_ok());
    let image = image.unwrap();
    assert_eq!((image.width(), image.height()), (1000, 750));
    let image2 = processor.load_file("another.nef");
    assert!(image2.is_ok());
}

#[test]
fn tool_manager_starts_with_brush_chosen_and_all_tools_off() {
    let m = ToolManager::new();
    assert_eq!(m.get_active_tool(), ToolType::Brush);
    assert!(!m.brush_active && !m.selection_active && !m.crop_active);
    assert_eq!(m.selection_type, SelectionType::Rectangle);
    assert_eq!(m.get_cursor(), "brush");
}

#[test]
fn choosing_a_tool_switches_only_that_tool_on() {
    let mut m = ToolManager::new();
    m.set_active_tool(ToolType::Crop);
    assert!(m.crop_active);
    assert!(!m.brush_active);
    m.set_active_tool(ToolType::MagicWandSelection);
    assert!(m.selection_active);
    assert!(!m.crop_active);
    assert_eq!(m.selection_type, SelectionType::MagicWand);
    assert_eq!(m.get_cursor(), "cell");
    m.set_active_tool(ToolType::LassoSelection);
    assert!(m.selection_active);
    assert_eq!(m.selection_type, SelectionType::Lasso);
    assert_eq!(m.get_cursor(), "crosshair");
    m.set_active_tool(ToolType::Zoom);
    assert!(!m.selection_active);
    assert_eq!(m.get_active_tool(), ToolType::Zoom);
    assert_eq!(m.get_cursor(), "zoom-in");
}

#[test]
fn switching_keeps_clone_source_but_drops_heal_source() {
    let mut m = ToolManager::new();
    m.set_active_tool(ToolType::Clone);
    m.clone_has_source = true;
    m.clone_stroking = true;
    assert_eq!(m.get_cursor(), "clone");
    m.set_active_tool(ToolType::Heal);
    assert!(m.clone_has_source);
    assert!(!m.clone_stroking);
    m.heal_has_source = true;
    assert_eq!(m.get_cursor(), "copy");
    m.set_active_tool(ToolType::Clone);
    assert!(!m.heal_has_source);
    assert!(m.clone_has_source);
    assert_eq!(m.get_cursor(), "clone");
}

#[test]
fn crop_cursor_follows_its_state_and_switching_clears_it() {
    let mut m = ToolManager::new();
    m.set_active_tool(ToolType::Crop);
    assert_eq!(m.get_cursor(), "crosshair");
    m.crop_has_region = true;
    assert_eq!(m.get_cursor(), "move");
    m.crop_handle = Some(5);
    assert_eq!(m.get_cursor(), "ns-resize");
    m.crop_handle = Some(6);
    assert_eq!(m.get_cursor(), "nesw-resize");
    m.crop_handle = Some(9);
    assert_eq!(m.get_cursor(), "crosshair");
    m.crop_dragging = true;
    assert_eq!(m.get_cursor(), "grabbing");
    m.set_active_tool(ToolType::Brush);
    assert!(!m.crop_dragging && !m.crop_has_region && m.crop_handle.is_none());
}

#[test]
fn vector_tools_cancel_their_draft_when_left() {
    let mut m = ToolManager::new();
    m.set_active_tool(ToolType::VectorPath);
    m.path_drawing = true;
    assert_eq!(m.get_cursor(), "crosshair");
    m.set_active_tool(ToolType::VectorText);
    assert!(!m.path_drawing);
    assert_eq!(m.get_cursor(), "text");
    assert_eq!(slot(ToolType::EllipseSelection), ToolSlot::Selection);
    assert_eq!(slot(ToolType::Eraser), ToolSlot::Unhandled);
    m.set_active_tool(ToolType::Eraser);
    assert_eq!(m.get_cursor(), "default");
}

#[test]
fn raw_development_options_compare_by_value() {
    assert_eq!(
        WhiteBalance::Custom { temperature: 5500, tint: -3 },
        WhiteBalance::Custom { temperature: 5500, tint: -3 }
    );
    assert_ne!(WhiteBalance::Custom { temperature: 5500, tint: 0 }, WhiteBalance::Daylight);
    assert_ne!(DemosaicAlgorithm::AHD, DemosaicAlgorithm::Bilinear);
}

#[test]
fn text_tool_types_and_erases_while_editing() {
    let mut m = ToolManager::new();
    m.set_active_tool(ToolType::Text);
    m.text_placed = true;
    assert!(!m.key_press("a", false));
    m.key_press("b", false);
    m.key_press("Shift", false);
    assert_eq!(m.text_content.as_deref(), Some("ab"));
    m.key_press("BackSpace", false);
    assert_eq!(m.text_content.as_deref(), Some("a"));
    m.key_press("BackSpace", false);
    m.key_press("BackSpace", false);
    assert_eq!(m.text_content.as_deref(), Some(""));
    m.key_press("é", false);
    assert_eq!(m.text_content.as_deref(), Some(""));
    m.key_press("z", false);
    m.key_press("Return", false);
    assert!(!m.text_active);
    assert_eq!(m.text_content.as_deref(), Some("z"));
    // No longer editing: keys are ignored.
    m.key_press("q", false);
    assert_eq!(m.text_content.as_deref(), Some("z"));
}

#[test]
fn text_tool_escape_discards_text_and_position() {
    let mut m = ToolManager::new();
    m.set_active_tool(ToolType::Text);
    m.text_placed = true;
    m.key_press("x", false);
    m.key_press("Escape", false);
    assert!(!m.text_active && !m.text_placed);
    assert!(m.text_content.is_none());
}

#[test]
fn escape_and_alt_keys_reset_tool_work() {
    let mut m = ToolManager::new();
    m.set_active_tool(ToolType::Heal);
    m.heal_stroking = true;
    m.key_press("Alt", false);
    assert!(m.heal_has_source);
    m.key_press("Escape", false);
    assert!(!m.heal_has_source && !m.heal_stroking);

    m.set_active_tool(ToolType::Clone);
    m.clone_has_source = true;
    m.clone_stroking = true;
    m.key_press("Escape", false);
    assert!(m.clone_has_source && !m.clone_stroking);
    m.key_press("Alt+Escape", false);
    assert!(!m.clone_has_source);

    m.set_active_tool(ToolType::Crop);
    m.crop_has_region = true;
    m.crop_handle = Some(2);
    m.key_press("Return", false);
    assert!(!m.crop_has_region && m.crop_handle.is_none());

    m.set_active_tool(ToolType::RectangleSelection);
    m.selection_in_progress = true;
    m.key_press("a", false);
    assert!(m.selection_in_progress);
    m.key_press("Escape", false);
    assert!(!m.selection_in_progress);
}

#[test]
fn return_finishes_a_path_only_with_a_document() {
    let mut m = ToolManager::new();
    m.set_active_tool(ToolType::VectorPath);
    m.path_drawing = true;
    assert!(!m.key_press("Return", false));
    assert!(m.path_drawing);
    assert!(m.key_press("Return", true));
    assert!(!m.path_drawing);
    assert!(!m.key_press("Return", true));
    m.path_drawing = true;
    assert!(!m.key_press("Escape", true));
    assert!(!m.path_drawing);
}
