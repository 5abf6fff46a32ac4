pub mod base;
pub mod text;
pub mod filters;
pub mod tools;
pub mod vector;
pub mod raw;

use vstd::prelude::*;

verus! {

/// Name of the application.
pub const APP_NAME: &'static str = "Rust Photo";

/// Application identifier used when registering with the desktop.
pub const APP_ID: &'static str = "com.example.rust_photo";

/// Whether a GPU backend is available: true exactly when Vulkan or WebGPU is.
pub fn has_gpu_support() -> (r: bool)
    ensures
        r == (has_vulkan_support_spec() || has_wgpu_support_spec()),
{
    has_vulkan_support() || has_wgpu_support()
}

/// Vulkan support is compiled in only with the `gpu-vulkan` feature, which this
/// build does not define.
pub open spec fn has_vulkan_support_spec() -> bool {
    false
}

/// WebGPU support is compiled in only with the `gpu-wgpu` feature, which this
/// build does not define.
pub open spec fn has_wgpu_support_spec() -> bool {
    false
}

/// Check if Vulkan support is available
pub fn has_vulkan_support() -> (r: bool)
    ensures
        r == has_vulkan_support_spec(),
{
    false
}

/// Check if WebGPU support is available
pub fn has_wgpu_support() -> (r: bool)
    ensures
        r == has_wgpu_support_spec(),
{
    false
}

/// Initialize GPU support: the preferred available backend is initialised,
/// and the call always succeeds.
pub fn init_gpu() -> (r: Result<(), String>)
    ensures
        r is Ok,
{
    if has_gpu_support() {
        if has_vulkan_support() {
            return init_vulkan();
        } else if has_wgpu_support() {
            return init_wgpu();
        }
    }
    Ok(())
}

fn init_vulkan() -> (r: Result<(), String>)
    ensures
        r is Ok,
{
    Ok(())
}

fn init_wgpu() -> (r: Result<(), String>)
    ensures
        r is Ok,
{
    Ok(())
}

} // verus!
