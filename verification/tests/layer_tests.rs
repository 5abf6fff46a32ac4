use rust_photo::base::layer::{BlendMode, LayerManager};
use rust_photo::base::layers::{LayerBlendMode, LayerType};

fn manager_with(names: &[&str]) -> LayerManager<String> {
    let mut manager = LayerManager::new();
    for name in names {
        manager.add_layer(name.to_string());
    }
    manager
}

fn names(manager: &LayerManager<String>) -> Vec<String> {
    manager.get_layers().to_vec()
}

#[test]
fn add_layer_returns_index_and_activates() {
    let mut manager: LayerManager<String> = LayerManager::new();
    assert_eq!(manager.layer_count(), 0);
    assert_eq!(manager.get_active_layer(), None);
    assert_eq!(manager.add_layer("background".to_string()), 0);
    assert_eq!(manager.add_layer("top".to_string()), 1);
    assert_eq!(manager.get_active_layer_index(), 1);
    assert_eq!(manager.get_active_layer(), Some(&"top".to_string()));
}

#[test]
fn get_and_set_layer_by_index() {
    let mut manager = manager_with(&["a", "b"]);
    assert_eq!(manager.get_layer(0), Some(&"a".to_string()));
    assert_eq!(manager.get_layer(2), None);
    manager.set_layer(0, "z".to_string());
    manager.set_layer(5, "ignored".to_string());
    assert_eq!(names(&manager), vec!["z".to_string(), "b".to_string()]);
}

#[test]
fn layer_mut_access_changes_the_stack() {
    let mut manager = manager_with(&["a", "b"]);
    if let Some(layer) = manager.get_layer_mut(0) {
        layer.push('!');
    }
    assert!(manager.get_layer_mut(9).is_none());
    if let Some(layer) = manager.get_active_layer_mut() {
        layer.push('?');
    }
    assert_eq!(names(&manager), vec!["a!".to_string(), "b?".to_string()]);
}

#[test]
fn remove_layer_clamps_active_index() {
    let mut manager = manager_with(&["a", "b", "c"]);
    assert_eq!(manager.remove_layer(2), Some("c".to_string()));
    assert_eq!(manager.get_active_layer_index(), 1);
    assert_eq!(manager.remove_layer(7), None);
    assert_eq!(manager.remove_layer(0), Some("a".to_string()));
    assert_eq!(manager.get_active_layer_index(), 0);
    assert_eq!(manager.get_active_layer(), Some(&"b".to_string()));
}

#[test]
fn removing_last_layer_keeps_index() {
    let mut manager = manager_with(&["only"]);
    assert_eq!(manager.remove_layer(0), Some("only".to_string()));
    assert_eq!(manager.layer_count(), 0);
    assert_eq!(manager.get_active_layer_index(), 0);
    assert_eq!(manager.get_active_layer(), None);
}

#[test]
fn move_layer_follows_active_layer() {
    let mut manager = manager_with(&["a", "b", "c", "d"]);
    assert!(manager.set_active_layer(1));
    assert!(manager.move_layer(1, 3));
    assert_eq!(names(&manager), vec!["a", "c", "d", "b"].iter().map(|s| s.to_string()).collect::<Vec<_>>());
    assert_eq!(manager.get_active_layer(), Some(&"b".to_string()));
    assert!(manager.move_layer(0, 2));
    assert_eq!(manager.get_active_layer(), Some(&"b".to_string()));
    assert_eq!(manager.get_active_layer_index(), 3);
}

#[test]
fn move_layer_shifts_active_when_passed() {
    let mut manager = manager_with(&["a", "b", "c"]);
    assert!(manager.set_active_layer(0));
    assert!(manager.move_layer(2, 0));
    assert_eq!(manager.get_active_layer_index(), 1);
    assert_eq!(manager.get_active_layer(), Some(&"a".to_string()));
}

#[test]
fn move_layer_rejects_out_of_range() {
    let mut manager = manager_with(&["a", "b"]);
    assert!(!manager.move_layer(0, 2));
    assert!(!manager.move_layer(3, 0));
    assert!(manager.move_layer(1, 1));
    assert_eq!(names(&manager), vec!["a".to_string(), "b".to_string()]);
}

#[test]
fn move_back_restores_order() {
    let mut manager = manager_with(&["a", "b", "c", "d"]);
    manager.set_active_layer(2);
    let before = names(&manager);
    assert!(manager.move_layer(0, 3));
    assert!(manager.move_layer(3, 0));
    assert_eq!(names(&manager), before);
    assert_eq!(manager.get_active_layer_index(), 2);
}

#[test]
fn set_active_layer_out_of_range_is_refused() {
    let mut manager = manager_with(&["a"]);
    assert!(!manager.set_active_layer(1));
    assert_eq!(manager.get_active_layer_index(), 0);
}

#[test]
fn blend_modes_and_layer_types() {
    assert_eq!(LayerBlendMode::default(), LayerBlendMode::Normal);
    assert_eq!(LayerBlendMode::ColorDodge.to_string(), "Color Dodge");
    assert_eq!(LayerBlendMode::Negation.to_string(), "Negation");
    assert_eq!(LayerBlendMode::LinearLight.to_string(), "Linear Light");
    assert_ne!(LayerType::Pixel, LayerType::Vector);
    assert_ne!(BlendMode::Normal, BlendMode::Multiply);
}

use rust_photo::base::layers::LayerManager as IdLayerManager;

fn id_manager(ids: &[&str]) -> IdLayerManager<u32> {
    let mut manager = IdLayerManager::new();
    for (i, id) in ids.iter().enumerate() {
        manager.add_layer(id.to_string(), i as u32);
    }
    manager
}

#[test]
fn id_manager_first_layer_becomes_active() {
    let mut manager: IdLayerManager<u32> = IdLayerManager::new();
    assert_eq!(manager.get_active_layer_index(), None);
    assert_eq!(manager.get_active_layer(), None);
    manager.add_layer("a".to_string(), 10);
    manager.add_layer("b".to_string(), 20);
    assert_eq!(manager.get_active_layer_index(), Some(0));
    assert_eq!(manager.get_active_layer(), Some(&10));
    assert_eq!(manager.get_layers(), &[10, 20]);
}

#[test]
fn id_manager_set_active_layer() {
    let mut manager = id_manager(&["a", "b", "c"]);
    assert_eq!(manager.set_active_layer(2), Ok(()));
    assert_eq!(manager.get_active_layer_index(), Some(2));
    assert_eq!(manager.set_active_layer(3), Err("Layer index out of bounds"));
    assert_eq!(manager.get_active_layer_index(), Some(2));
    if let Some(layer) = manager.get_active_layer_mut() {
        *layer = 99;
    }
    assert_eq!(manager.get_layer(2), Some(&99));
    assert_eq!(manager.get_layer(3), None);
}

#[test]
fn id_manager_remove_active_layer_selects_layer_below() {
    let mut manager = id_manager(&["a", "b", "c"]);
    manager.set_active_layer(2).unwrap();
    assert_eq!(manager.remove_layer(2), Some(2));
    assert_eq!(manager.get_active_layer_index(), Some(1));
    assert_eq!(manager.remove_layer(5), None);
}

#[test]
fn id_manager_remove_below_active_keeps_active_layer() {
    let mut manager = id_manager(&["a", "b", "c", "d"]);
    manager.set_active_layer(3).unwrap();
    // the active layer lies above the removed one and stays active
    assert_eq!(manager.remove_layer(2), Some(2));
    assert_eq!(manager.get_active_layer(), Some(&3));
    assert_eq!(manager.get_active_layer_index(), Some(2));
}

#[test]
fn id_manager_remove_active_bottom_layer_selects_layer_above() {
    let mut manager = id_manager(&["a", "b", "c"]);
    manager.set_active_layer(0).unwrap();
    assert_eq!(manager.remove_layer(0), Some(0));
    assert_eq!(manager.get_active_layer(), Some(&1));
    assert_eq!(manager.get_active_layer_index(), Some(0));
}

#[test]
fn id_manager_remove_only_layer_clears_active() {
    let mut manager = id_manager(&["solo"]);
    assert_eq!(manager.remove_layer(0), Some(0));
    assert_eq!(manager.get_active_layer_index(), None);
}

#[test]
fn id_manager_move_up_and_down() {
    let mut manager = id_manager(&["a", "b", "c"]);
    manager.set_active_layer(0).unwrap();
    assert_eq!(manager.move_layer_up(0), Ok(()));
    assert_eq!(manager.get_layers(), &[1, 0, 2]);
    // the moved layer stays the active one at its new place
    assert_eq!(manager.get_active_layer(), Some(&0));
    assert_eq!(manager.get_active_layer_index(), Some(1));
    assert_eq!(manager.move_layer_up(2), Err("Layer already at the top"));
    assert_eq!(manager.move_layer_up(3), Err("Layer index out of bounds"));
    assert_eq!(manager.move_layer_down(1), Ok(()));
    assert_eq!(manager.get_layers(), &[0, 1, 2]);
    assert_eq!(manager.get_active_layer(), Some(&0));
    assert_eq!(manager.move_layer_down(0), Err("Layer already at the bottom"));
    assert_eq!(manager.move_layer_down(7), Err("Layer index out of bounds"));
}

#[test]
fn id_manager_flatten_is_white() {
    let manager = id_manager(&["a"]);
    let image = manager.flatten_to_image(2, 1);
    assert_eq!(image.as_pixels(), &vec![[255, 255, 255, 255]; 2]);
}

#[test]
fn id_manager_layers_mut() {
    let mut manager = id_manager(&["a", "b"]);
    for layer in manager.get_layers_mut() {
        *layer += 5;
    }
    assert_eq!(manager.get_layers(), &[5, 6]);
    if let Some(layer) = manager.get_layer_mut(1) {
        *layer = 0;
    }
    assert_eq!(manager.get_layers(), &[5, 0]);
}
