use vstd::prelude::*;

verus! {

/// Application settings.
#[derive(Debug, Clone)]
pub struct Settings {
    pub theme: String,
    pub language: String,
    pub auto_save: bool,
    /// In minutes.
    pub auto_save_interval: u32,
    pub performance: PerformanceSettings,
    pub save: SaveSettings,
    pub display: DisplaySettings,
}

/// Resource settings.
#[derive(Debug, Clone)]
pub struct PerformanceSettings {
    pub memory_usage_percent: u32,
    pub undo_levels: u32,
    pub use_gpu: bool,
    pub thread_count: u32,
}

/// Settings for saving files.
#[derive(Debug, Clone)]
pub struct SaveSettings {
    pub default_format: String,
    pub jpeg_quality: u32,
    pub png_compression: u32,
    pub include_metadata: bool,
    pub default_location: String,
}

/// Settings for showing images.
#[derive(Debug, Clone)]
pub struct DisplaySettings {
    pub color_space: String,
    pub color_depth: u8,
    pub use_checkerboard: bool,
    pub checkerboard_color1: String,
    pub checkerboard_color2: String,
}

/// The number of logical CPUs, from `num_cpus::get`; its documentation promises
/// at least one.
#[verifier::external_body]
fn logical_cpu_count() -> (r: usize)
    ensures
        r >= 1,
{
    num_cpus::get()
}

/// The user's document directory from `dirs::document_dir`, as text (lossily
/// converted); `None` where the platform reports none. It depends on the
/// environment, so nothing more is stated.
#[verifier::external_body]
fn document_dir_text() -> Option<String> {
    match dirs::document_dir() {
        Some(path) => Some(path.to_string_lossy().to_string()),
        None => None,
    }
}

/// The thread count for a machine with `cpus` logical CPUs: one per CPU, taken
/// modulo 2^32 as a cast to `u32` does.
pub open spec fn threads_for(cpus: usize) -> u32 {
    cpus as u32
}

impl PerformanceSettings {
    /// The default performance settings for a machine with `cpu_count` logical
    /// CPUs: half the memory, 30 undo levels, GPU on, one thread per CPU (the
    /// count taken modulo 2^32, as a cast to `u32` does).
    pub fn for_cpu_count(cpu_count: usize) -> (r: Self)
        ensures
            r.memory_usage_percent == 50,
            r.undo_levels == 30,
            r.use_gpu,
            r.thread_count == threads_for(cpu_count),
    {
        Self {
            memory_usage_percent: 50,
            undo_levels: 30,
            use_gpu: true,
            thread_count: cpu_count as u32,
        }
    }
}

impl Default for PerformanceSettings {
    /// The defaults for this machine: as `for_cpu_count` with its logical CPU count.
    fn default() -> (r: Self)
        ensures
            r.memory_usage_percent == 50,
            r.undo_levels == 30,
            r.use_gpu,
            exists|cpus: usize| cpus >= 1 && r.thread_count == #[trigger] threads_for(cpus),
    {
        let cpus = logical_cpu_count();
        let r = Self::for_cpu_count(cpus);
        assert(r.thread_count == threads_for(cpus));
        r
    }
}

impl SaveSettings {
    /// The default save settings when the user's document directory is
    /// `document_dir`: PNG, JPEG quality 85, PNG compression 6, metadata kept, and
    /// files saved in that directory, or in `.` when there is none.
    pub fn for_document_dir(document_dir: Option<String>) -> (r: Self)
        ensures
            r.default_format@ == "png"@,
            r.jpeg_quality == 85,
            r.png_compression == 6,
            r.include_metadata,
            r.default_location@ == match document_dir {
                Some(dir) => dir@,
                None => "."@,
            },
    {
        let default_location = match document_dir {
            Some(dir) => dir,
            None => ".".to_string(),
        };
        Self {
            default_format: "png".to_string(),
            jpeg_quality: 85,
            png_compression: 6,
            include_metadata: true,
            default_location,
        }
    }
}

impl Default for SaveSettings {
    /// The defaults for this user: as `for_document_dir` with the user's document
    /// directory.
    fn default() -> (r: Self)
        ensures
            r.default_format@ == "png"@,
            r.jpeg_quality == 85,
            r.png_compression == 6,
            r.include_metadata,
    {
        Self::for_document_dir(document_dir_text())
    }
}

impl Default for DisplaySettings {
    /// sRGB at 8 bits, with a light and a darker gray checkerboard.
    fn default() -> (r: Self)
        ensures
            r.color_space@ == "srgb"@,
            r.color_depth == 8,
            r.use_checkerboard,
            r.checkerboard_color1@ == "#CCCCCC"@,
            r.checkerboard_color2@ == "#999999"@,
    {
        Self {
            color_space: "srgb".to_string(),
            color_depth: 8,
            use_checkerboard: true,
            checkerboard_color1: "#CCCCCC".to_string(),
            checkerboard_color2: "#999999".to_string(),
        }
    }
}

impl Default for Settings {
    /// The system theme in US English, saving every 10 minutes, with the default
    /// performance, save and display settings.
    fn default() -> (r: Self)
        ensures
            r.theme@ == "system"@,
            r.language@ == "en-US"@,
            r.auto_save,
            r.auto_save_interval == 10,
            r.performance.memory_usage_percent == 50,
            r.performance.undo_levels == 30,
            r.performance.use_gpu,
            exists|cpus: usize| cpus >= 1 && r.performance.thread_count == #[trigger] threads_for(cpus),
            r.save.default_format@ == "png"@,
            r.save.jpeg_quality == 85,
            r.save.png_compression == 6,
            r.save.include_metadata,
            r.display.color_space@ == "srgb"@,
            r.display.color_depth == 8,
            r.display.use_checkerboard,
            r.display.checkerboard_color1@ == "#CCCCCC"@,
            r.display.checkerboard_color2@ == "#999999"@,
    {
        Self {
            theme: "system".to_string(),
            language: "en-US".to_string(),
            auto_save: true,
            auto_save_interval: 10,
            performance: PerformanceSettings::default(),
            save: SaveSettings::default(),
            display: DisplaySettings::default(),
        }
    }
}

/// Settings manager for the application
#[derive(Debug, Clone)]
pub struct SettingsManager {
    pub settings: Settings,
}

impl SettingsManager {
    /// A manager holding the default settings.
    pub fn new() -> (r: Self)
        ensures
            r.settings.theme@ == "system"@,
            r.settings.language@ == "en-US"@,
            r.settings.auto_save,
            r.settings.auto_save_interval == 10,
            r.settings.performance.memory_usage_percent == 50,
            r.settings.performance.undo_levels == 30,
            r.settings.performance.use_gpu,
            exists|cpus: usize| cpus >= 1 && r.settings.performance.thread_count == #[trigger] threads_for(cpus),
            r.settings.save.default_format@ == "png"@,
            r.settings.save.jpeg_quality == 85,
            r.settings.save.png_compression == 6,
            r.settings.save.include_metadata,
            r.settings.display.color_space@ == "srgb"@,
            r.settings.display.color_depth == 8,
            r.settings.display.use_checkerboard,
            r.settings.display.checkerboard_color1@ == "#CCCCCC"@,
            r.settings.display.checkerboard_color2@ == "#999999"@,
    {
        Self { settings: Settings::default() }
    }

    /// Get a reference to the settings
    pub fn get_settings(&self) -> (r: &Settings)
        ensures
            *r == self.settings,
    {
        &self.settings
    }

    /// Get a mutable reference to the settings
    pub fn get_settings_mut(&mut self) -> (r: &mut Settings)
        ensures
            *r == old(self).settings,
            final(self).settings == *final(r),
    {
        &mut self.settings
    }
}

} // verus!
