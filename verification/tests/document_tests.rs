use rust_photo::base::document::{BitDepth, ColorSpace, DocumentFormat, DocumentMetadata};
use rust_photo::base::settings::{DisplaySettings, PerformanceSettings, SaveSettings, Settings, SettingsManager};

#[test]
fn from_extension_ignores_case() {
    assert_eq!(DocumentFormat::from_extension("JPG"), Some(DocumentFormat::JPEG));
    assert_eq!(DocumentFormat::from_extension("jpeg"), Some(DocumentFormat::JPEG));
    assert_eq!(DocumentFormat::from_extension("Png"), Some(DocumentFormat::PNG));
    assert_eq!(DocumentFormat::from_extension("TIF"), Some(DocumentFormat::TIFF));
    assert_eq!(DocumentFormat::from_extension("tiff"), Some(DocumentFormat::TIFF));
    assert_eq!(DocumentFormat::from_extension("WebP"), Some(DocumentFormat::WebP));
    assert_eq!(DocumentFormat::from_extension("afphoto"), Some(DocumentFormat::AffinityPhoto));
    assert_eq!(DocumentFormat::from_extension("APRS"), Some(DocumentFormat::Native));
    assert_eq!(DocumentFormat::from_extension("gif"), None);
    assert_eq!(DocumentFormat::from_extension(""), None);
}

#[test]
fn from_lowercase_extension_is_exact() {
    assert_eq!(DocumentFormat::from_lowercase_extension("png"), Some(DocumentFormat::PNG));
    assert_eq!(DocumentFormat::from_lowercase_extension("PNG"), None);
}

#[test]
fn to_extension_round_trips() {
    for format in [
        DocumentFormat::JPEG,
        DocumentFormat::PNG,
        DocumentFormat::TIFF,
        DocumentFormat::WebP,
        DocumentFormat::AffinityPhoto,
        DocumentFormat::Native,
    ] {
        assert_eq!(DocumentFormat::from_extension(format.to_extension()), Some(format));
    }
    assert_eq!(DocumentFormat::TIFF.to_extension(), "tiff");
    assert_eq!(DocumentFormat::JPEG.to_extension(), "jpg");
}

#[test]
fn color_space_and_bit_depth_names() {
    assert_eq!(ColorSpace::SRGB.to_string(), "sRGB");
    assert_eq!(ColorSpace::AdobeRGB.to_string(), "Adobe RGB");
    assert_eq!(ColorSpace::ProPhotoRGB.to_string(), "ProPhoto RGB");
    assert_eq!(ColorSpace::Custom("Mine".to_string()).to_string(), "Mine");
    assert_eq!(BitDepth::Bit8.to_string(), "8-bit");
    assert_eq!(BitDepth::Bit32.to_string(), "32-bit");
}

#[test]
fn default_metadata_is_untitled() {
    let metadata = DocumentMetadata::default();
    assert_eq!(metadata.title, "Untitled");
    assert_eq!(metadata.author, None);
    assert!(metadata.keywords.is_empty());
    assert!(metadata.custom.is_empty());
}

#[test]
fn default_settings_values() {
    let settings = Settings::default();
    assert_eq!(settings.theme, "system");
    assert_eq!(settings.language, "en-US");
    assert!(settings.auto_save);
    assert_eq!(settings.auto_save_interval, 10);
    assert_eq!(settings.performance.memory_usage_percent, 50);
    assert_eq!(settings.performance.undo_levels, 30);
    assert!(settings.performance.thread_count >= 1);
    assert_eq!(settings.save.default_format, "png");
    assert_eq!(settings.save.jpeg_quality, 85);
    assert_eq!(settings.display.checkerboard_color1, "#CCCCCC");
    assert_eq!(settings.display.color_depth, 8);
}

#[test]
fn performance_settings_follow_cpu_count() {
    let settings = PerformanceSettings::for_cpu_count(12);
    assert_eq!(settings.thread_count, 12);
    assert!(settings.use_gpu);
    let big = PerformanceSettings::for_cpu_count(0x1_0000_0003);
    assert_eq!(big.thread_count, 3);
}

#[test]
fn save_settings_use_document_dir_or_current_dir() {
    let with_dir = SaveSettings::for_document_dir(Some("/home/alice/Documents".to_string()));
    assert_eq!(with_dir.default_location, "/home/alice/Documents");
    let without = SaveSettings::for_document_dir(None);
    assert_eq!(without.default_location, ".");
    assert_eq!(without.png_compression, 6);
}

#[test]
fn display_settings_default() {
    let display = DisplaySettings::default();
    assert_eq!(display.color_space, "srgb");
    assert_eq!(display.checkerboard_color2, "#999999");
}

#[test]
fn settings_manager_gives_access_to_settings() {
    let mut manager = SettingsManager::new();
    assert_eq!(manager.get_settings().theme, "system");
    manager.get_settings_mut().theme = "dark".to_string();
    assert_eq!(manager.get_settings().theme, "dark");
}

use rust_photo::base::document::{format_from_extension_or, save_encoding, title_from_file_name, SaveEncoding};
use rust_photo::vector::document::{deselect_object_id, select_object_id};

#[test]
fn format_for_path_parts() {
    assert_eq!(format_from_extension_or(Some("PNG"), DocumentFormat::Native), DocumentFormat::PNG);
    assert_eq!(format_from_extension_or(Some("bmp"), DocumentFormat::Native), DocumentFormat::Native);
    assert_eq!(format_from_extension_or(None, DocumentFormat::TIFF), DocumentFormat::TIFF);
    assert_eq!(title_from_file_name(Some("cat.png")), "cat.png");
    assert_eq!(title_from_file_name(None), "Untitled");
}

#[test]
fn save_encodings() {
    assert_eq!(save_encoding(DocumentFormat::JPEG), Ok(SaveEncoding::Jpeg));
    assert_eq!(save_encoding(DocumentFormat::WebP), Ok(SaveEncoding::WebP));
    assert_eq!(
        save_encoding(DocumentFormat::Native),
        Err("Saving in native format not yet implemented".to_string())
    );
    assert!(save_encoding(DocumentFormat::AffinityPhoto).is_err());
}

#[test]
fn vector_object_selection() {
    let mut selected: Vec<String> = Vec::new();
    assert!(select_object_id(&mut selected, "x", false, true));
    assert!(select_object_id(&mut selected, "y", true, true));
    assert!(select_object_id(&mut selected, "x", true, true));
    assert_eq!(selected, vec!["x".to_string(), "y".to_string()]);
    assert!(!select_object_id(&mut selected, "ghost", true, false));
    assert_eq!(selected.len(), 2);
    assert!(!select_object_id(&mut selected, "ghost", false, false));
    assert!(selected.is_empty());
    select_object_id(&mut selected, "z", false, true);
    assert!(deselect_object_id(&mut selected, "z"));
    assert!(!deselect_object_id(&mut selected, "z"));
    assert!(selected.is_empty());
}

#[test]
fn extensions_round_trip_in_capitals() {
    let all = [
        DocumentFormat::JPEG,
        DocumentFormat::PNG,
        DocumentFormat::TIFF,
        DocumentFormat::WebP,
        DocumentFormat::AffinityPhoto,
        DocumentFormat::Native,
    ];
    for f in all {
        assert_eq!(DocumentFormat::from_extension(f.to_extension()), Some(f));
        assert_eq!(DocumentFormat::from_extension(&f.to_extension().to_uppercase()), Some(f));
    }
}

#[test]
fn capital_extension_and_native_save_error() {
    assert_eq!(format_from_extension_or(Some("JPG"), DocumentFormat::Native), DocumentFormat::JPEG);
    let native = format_from_extension_or(Some("aprs"), DocumentFormat::PNG);
    assert_eq!(native, DocumentFormat::Native);
    assert_eq!(save_encoding(native), Err("Saving in native format not yet implemented".to_string()));
    let none = format_from_extension_or(None, DocumentFormat::Native);
    assert_eq!(save_encoding(none), Err("Saving in native format not yet implemented".to_string()));
}
