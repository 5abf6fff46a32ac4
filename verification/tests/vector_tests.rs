use rust_photo::vector::document::{VectorDocument as LayeredDocument, VectorItem, VectorLayer};
use rust_photo::vector::VectorDocument;

#[test]
fn vector_document_starts_with_one_active_layer() {
    let doc = VectorDocument::new(800, 600, "Background".to_string());
    assert_eq!(doc.get_layers().len(), 1);
    assert_eq!(doc.get_active_layer(), Some(&"Background".to_string()));
    assert_eq!((doc.width(), doc.height()), (800, 600));
}

#[test]
fn vector_document_add_makes_new_layer_active() {
    let mut doc = VectorDocument::new(10, 10, 0u32);
    assert_eq!(doc.add_layer(1), 1);
    assert_eq!(doc.add_layer(2), 2);
    assert_eq!(doc.get_active_layer(), Some(&2));
    assert!(doc.set_active_layer(0));
    assert_eq!(doc.get_active_layer(), Some(&0));
    assert!(!doc.set_active_layer(3));
    assert_eq!(doc.get_active_layer(), Some(&0));
}

#[test]
fn vector_document_remove_keeps_active_in_range() {
    let mut doc = VectorDocument::new(10, 10, 0u32);
    doc.add_layer(1);
    doc.add_layer(2);
    assert!(doc.remove_layer(2));
    assert_eq!(doc.get_layers(), &[0, 1]);
    assert_eq!(doc.get_active_layer(), Some(&1));
    assert!(!doc.remove_layer(5));
    assert!(doc.remove_layer(0));
    assert_eq!(doc.get_active_layer(), Some(&1));
    assert!(doc.remove_layer(0));
    assert!(doc.get_layers().is_empty());
    assert_eq!(doc.get_active_layer(), None);
}

#[test]
fn vector_document_add_then_remove_restores_layers() {
    let mut doc = VectorDocument::new(10, 10, 7u32);
    let index = doc.add_layer(8);
    assert!(doc.remove_layer(index));
    assert_eq!(doc.get_layers(), &[7]);
    assert_eq!(doc.get_active_layer(), Some(&7));
}

#[test]
fn vector_document_active_layer_is_mutable_and_resize_keeps_layers() {
    let mut doc = VectorDocument::new(10, 10, 1u32);
    if let Some(layer) = doc.get_active_layer_mut() {
        *layer = 5;
    }
    doc.resize(30, 40);
    assert_eq!(doc.get_layers(), &[5]);
    assert_eq!((doc.width(), doc.height()), (30, 40));
    doc.get_layers_mut()[0] = 9;
    assert_eq!(doc.get_active_layer(), Some(&9));
}

fn item(id: &str, object: u32) -> VectorItem<u32> {
    VectorItem { id: Some(id.to_string()), object }
}

#[test]
fn layered_document_starts_with_selected_layer_one() {
    let doc: LayeredDocument<u32, u8> = LayeredDocument::new("Drawing".to_string(), 100);
    assert_eq!(doc.layers.len(), 1);
    assert_eq!(doc.layers[0].name, "Layer 1");
    assert_eq!(doc.layers[0].id.len(), 36);
    assert_eq!(doc.id.len(), 36);
    assert_eq!(doc.selected_layer.as_deref(), Some(doc.layers[0].id.as_str()));
    assert_eq!(doc.get_active_layer().map(|l| l.name.clone()), Some("Layer 1".to_string()));
    assert!(doc.selected_objects.is_empty());
}

#[test]
fn layered_document_selects_layers_at_any_depth() {
    let mut doc: LayeredDocument<u32, u8> = LayeredDocument::new("Drawing".to_string(), 100);
    let top = doc.add_layer("Top".to_string(), 50);
    let mut child = VectorLayer::new("Child".to_string(), 30);
    let child_id = child.id.clone();
    child.add_object(item("deep", 9));
    doc.layers[1].add_sublayer(child);
    assert!(doc.select_layer(&child_id));
    assert_eq!(doc.get_active_layer().map(|l| l.name.clone()), Some("Child".to_string()));
    assert!(doc.select_layer(&top));
    assert_eq!(doc.get_active_layer().map(|l| l.id.clone()), Some(top.clone()));
    assert!(!doc.select_layer("no such layer"));
    assert_eq!(doc.selected_layer.as_deref(), Some(top.as_str()));
    assert_eq!(doc.layers[1].find_sublayer_by_id(&child_id).map(|l| l.style), Some(30));
}

#[test]
fn layered_document_never_removes_its_last_layer() {
    let mut doc: LayeredDocument<u32, u8> = LayeredDocument::new("Drawing".to_string(), 100);
    assert!(doc.remove_layer(0).is_none());
    let second = doc.add_layer("Second".to_string(), 100);
    assert!(doc.select_layer(&second));
    let removed = doc.remove_layer(1).unwrap();
    assert_eq!(removed.id, second);
    assert_eq!(doc.layers.len(), 1);
    assert_eq!(doc.selected_layer.as_deref(), Some(doc.layers[0].id.as_str()));
    assert!(doc.remove_layer(5).is_none());
}

#[test]
fn layered_document_selects_only_existing_objects() {
    let mut doc: LayeredDocument<u32, u8> = LayeredDocument::new("Drawing".to_string(), 100);
    assert!(doc.add_object_to_active_layer(item("a", 1)));
    assert!(doc.add_object_to_active_layer(VectorItem { id: None, object: 2 }));
    assert!(doc.add_object_to_active_layer(item("b", 3)));
    assert!(doc.select_object("a", false));
    assert!(doc.select_object("b", true));
    assert!(doc.select_object("a", true));
    assert_eq!(doc.selected_objects, vec!["a".to_string(), "b".to_string()]);
    assert!(!doc.select_object("ghost", true));
    assert_eq!(doc.selected_objects.len(), 2);
    assert!(!doc.select_object("ghost", false));
    assert!(doc.selected_objects.is_empty());
    assert_eq!(doc.get_object_by_id("b").map(|i| i.object), Some(3));
    assert!(doc.get_object_by_id("c").is_none());
    assert!(doc.select_object("b", false));
    assert!(doc.deselect_object("b"));
    assert!(!doc.deselect_object("b"));
    doc.select_object("a", false);
    doc.clear_selection();
    assert!(doc.selected_objects.is_empty());
}

#[test]
fn layered_document_writes_through_the_active_layer() {
    let mut doc: LayeredDocument<u32, u8> = LayeredDocument::new("Drawing".to_string(), 100);
    let child = VectorLayer::new("Child".to_string(), 10);
    let child_id = child.id.clone();
    doc.layers[0].add_sublayer(child);
    assert!(doc.select_layer(&child_id));
    if let Some(layer) = doc.get_active_layer_mut() {
        layer.set_locked(true);
        layer.style = 77;
    }
    let child = doc.layers[0].get_sublayer(0).unwrap();
    assert!(child.locked);
    assert_eq!(child.style, 77);
    assert!(doc.add_object_to_active_layer(item("x", 5)));
    assert_eq!(doc.layers[0].sublayers[0].objects.len(), 1);
    assert!(doc.layers[0].objects.is_empty());
    // Objects of sublayers are not looked up by the document.
    assert!(!doc.select_object("x", false));
    assert!(doc.get_object_by_id("x").is_none());
}

#[test]
fn vector_layer_objects_and_sublayers_by_position() {
    let mut layer: VectorLayer<u32, u8> = VectorLayer::new("L".to_string(), 1);
    layer.add_object(item("p", 1));
    layer.add_object(item("q", 2));
    assert_eq!(layer.find_object_by_id("q").map(|i| i.object), Some(2));
    assert_eq!(layer.remove_object(0).map(|i| i.object), Some(1));
    assert!(layer.remove_object(4).is_none());
    assert_eq!(layer.get_object(0).map(|i| i.object), Some(2));
    if let Some(obj) = layer.get_object_mut(0) {
        obj.object = 20;
    }
    assert_eq!(layer.objects[0].object, 20);
    layer.add_sublayer(VectorLayer::new("S".to_string(), 2));
    assert!(layer.get_sublayer_mut(0).is_some());
    assert_eq!(layer.remove_sublayer(0).map(|l| l.name), Some("S".to_string()));
    assert!(layer.get_sublayer(0).is_none());
    layer.set_visible(false);
    assert!(!layer.visible);
    assert_eq!(layer.find_sublayer_by_id(&layer.id.clone()).map(|l| l.name.clone()), Some("L".to_string()));
}
