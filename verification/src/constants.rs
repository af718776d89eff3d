//! What a render takes where nothing else is asked for.
use crate::antialias::AntialiasMethod;
use vstd::prelude::*;

verus! {

pub const DEFAULT_IMAGE_WIDTH: u32 = 360;

pub const DEFAULT_IMAGE_HEIGHT: u32 = 360;

pub const DEFAULT_RAYS_PER_PIXEL: u16 = 4;

pub const DEFAULT_RECURSION_DEPTH: u16 = 3;

/// The name of the camera that is used where a scene has several.
pub const DEFAULT_CAMERA: &'static str = "main";

/// The method of antialiasing that is used where none is named.
pub fn default_antialias_method() -> (m: AntialiasMethod)
    ensures
        m == AntialiasMethod::Normal,
{
    AntialiasMethod::Normal
}

} // verus!
