//! Launcher and game settings, as stored in the configuration file.
use vstd::prelude::*;
use crate::ids::{Uuid, NIL_UUID};

verus! {

/// Colour theme of the launcher window.
#[derive(Debug, Clone, Copy, PartialEq, Eq, Structural)]
pub enum LauncherTheme {
    DexlabsDark,
    DexlabsLight,
}

/// What the launcher does with its own window once the game starts.
#[derive(Debug, Clone, Copy, PartialEq, Eq, Structural)]
pub enum LaunchBehavior {
    Hide,
    Quit,
    StayOpen,
}

impl Default for LaunchBehavior {
    /// The launcher hides by default.
    fn default() -> (r: Self)
        ensures
            r == LaunchBehavior::Hide,
    {
        LaunchBehavior::Hide
    }
}

/// Settings of the launcher itself.
#[derive(Debug, Clone)]
pub struct LauncherSettings {
    pub check_for_updates: bool,
    /// `None` means the system's theme.
    pub theme: Option<LauncherTheme>,
    pub use_offline_caches: bool,
    pub verify_offline_caches: bool,
    pub delete_old_game_caches: bool,
    pub launch_behavior: LaunchBehavior,
    pub game_cache_path: String,
    pub offline_cache_path: String,
    pub proxy_asset_downloads: bool,
}

impl LauncherSettings {
    /// The default launcher settings, for the given default cache directories
    /// (which depend on where the application keeps its caches).
    pub fn with_cache_dirs(game_cache_path: String, offline_cache_path: String) -> (r: Self)
        ensures
            r.check_for_updates,
            r.theme is None,
            r.use_offline_caches,
            !r.verify_offline_caches,
            !r.delete_old_game_caches,
            r.launch_behavior == LaunchBehavior::Hide,
            r.game_cache_path@ == game_cache_path@,
            r.offline_cache_path@ == offline_cache_path@,
            r.proxy_asset_downloads,
    {
        LauncherSettings {
            check_for_updates: true,
            theme: None,
            use_offline_caches: true,
            verify_offline_caches: false,
            delete_old_game_caches: false,
            launch_behavior: LaunchBehavior::Hide,
            game_cache_path,
            offline_cache_path,
            proxy_asset_downloads: true,
        }
    }
}

/// Graphics back end the game renders with.
#[derive(Debug, Clone, Copy, PartialEq, Eq, Structural)]
pub enum GraphicsApi {
    Dx9,
    OpenGl,
    Vulkan,
}

impl Default for GraphicsApi {
    /// Direct3D 9 by default.
    fn default() -> (r: Self)
        ensures
            r == GraphicsApi::Dx9,
    {
        GraphicsApi::Dx9
    }
}

/// Frame-rate fix applied to the game.
#[derive(Debug, Clone, Copy, PartialEq, Eq, Structural)]
pub enum FpsFix {
    On,
    /// On, with a frame-rate limit.
    OnWithLimiter(u32),
    Off,
}

impl Default for FpsFix {
    /// On by default.
    fn default() -> (r: Self)
        ensures
            r == FpsFix::On,
    {
        FpsFix::On
    }
}

/// Size of the game window, in pixels.
#[derive(Debug, Clone, Copy, PartialEq, Eq, Structural)]
pub struct WindowSize {
    pub width: u32,
    pub height: u32,
}

/// Settings of the game.
#[derive(Debug, Clone)]
pub struct GameSettings {
    pub graphics_api: GraphicsApi,
    pub fps_fix: FpsFix,
    /// `None` means the game's own default size.
    pub window_size: Option<WindowSize>,
    /// Deprecated: the launch command of older configurations. It is read to
    /// migrate it into a launch profile and never written back.
    pub launch_command: Option<String>,
    /// The selected launch profile; the nil UUID when none is.
    pub launch_profile: Uuid,
}

impl Default for GameSettings {
    /// Direct3D 9, the frame-rate fix on, the game's own window size, no
    /// launch command and no launch profile selected.
    fn default() -> (r: Self)
        ensures
            r.graphics_api == GraphicsApi::Dx9,
            r.fps_fix == FpsFix::On,
            r.window_size is None,
            r.launch_command is None,
            r.launch_profile == NIL_UUID,
    {
        GameSettings {
            graphics_api: GraphicsApi::Dx9,
            fps_fix: FpsFix::On,
            window_size: None,
            launch_command: None,
            launch_profile: NIL_UUID,
        }
    }
}

/// The whole configuration: launcher settings and game settings.
#[derive(Debug, Clone)]
pub struct Config {
    pub launcher: LauncherSettings,
    pub game: GameSettings,
}

impl Config {
    /// The default configuration, for the given default cache directories:
    /// the default launcher settings (see `LauncherSettings::with_cache_dirs`)
    /// and the default game settings.
    pub fn with_cache_dirs(game_cache_path: String, offline_cache_path: String) -> (r: Self)
        ensures
            r.launcher.check_for_updates,
            r.launcher.theme is None,
            r.launcher.use_offline_caches,
            !r.launcher.verify_offline_caches,
            !r.launcher.delete_old_game_caches,
            r.launcher.launch_behavior == LaunchBehavior::Hide,
            r.launcher.game_cache_path@ == game_cache_path@,
            r.launcher.offline_cache_path@ == offline_cache_path@,
            r.launcher.proxy_asset_downloads,
            r.game.graphics_api == GraphicsApi::Dx9,
            r.game.fps_fix == FpsFix::On,
            r.game.window_size is None,
            r.game.launch_command is None,
            r.game.launch_profile == NIL_UUID,
    {
        Config {
            launcher: LauncherSettings::with_cache_dirs(game_cache_path, offline_cache_path),
            game: GameSettings::default(),
        }
    }
}

} // verus!
