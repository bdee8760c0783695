use vstd::prelude::*;
use crate::path::WallPath;

verus! {

/// The picker's settings.
#[derive(Clone, Debug)]
pub struct Config {
    /// Directory scanned for wallpapers (top level only).
    pub wallpaper_dir: WallPath,
    /// Directory where thumbnails and the favorites list are kept.
    pub thumb_cache_dir: WallPath,
    pub drivers: Drivers,
    pub hooks: Hooks,
}

/// Which kinds of wallpaper may be applied.
#[derive(Clone, Copy, Debug)]
pub struct Drivers {
    pub image: bool,
    pub video: bool,
}

/// The scripts run to apply a wallpaper.
#[derive(Clone, Debug)]
pub struct Hooks {
    pub image: WallPath,
    pub video: Option<WallPath>,
}

} // verus!
