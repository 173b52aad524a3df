//! What is known of the compiler on each platform.

use vstd::prelude::*;

verus! {

/// A platform that the compiler is published for.
#[derive(Debug, Clone, Copy, PartialEq, Eq, Structural)]
pub enum Platform {
    Windows,
    Linux,
    MacOs,
    /// Any other platform: the compiler is not published for it.
    Other,
}

/// A path inside the compiler's archive and where its file goes: a pattern
/// for the path, and the target.
#[derive(Debug, Clone)]
pub struct PathRule {
    pub pattern: String,
    pub target: String,
}

/// What is known of the compiler on one platform.
#[derive(Debug, Clone)]
pub struct PlatformConfig {
    /// The pattern that the name of the right asset matches.
    pub match_pattern: String,
    /// How the asset is unpacked: `zip` or `tgz`.
    pub method: String,
    /// The name of the compiler's binary.
    pub binary: String,
    /// Where the files of the archive go.
    pub paths: Vec<PathRule>,
}

/// What is known of the compiler, by platform.
#[derive(Debug, Clone)]
pub struct CompilerConfig {
    pub darwin: Option<PlatformConfig>,
    pub linux: Option<PlatformConfig>,
    pub windows: Option<PlatformConfig>,
}

impl CompilerConfig {
    /// What is known of the compiler on `platform`.
    pub open spec fn on(&self, platform: Platform) -> Option<PlatformConfig> {
        match platform {
            Platform::Windows => self.windows,
            Platform::Linux => self.linux,
            Platform::MacOs => self.darwin,
            Platform::Other => None,
        }
    }

    /// What is known of the compiler on `platform`, `None` where nothing
    /// is.
    pub fn get_platform_config(&self, platform: Platform) -> (r: Option<&PlatformConfig>)
        ensures
            match r {
                Some(c) => self.on(platform) == Some(*c),
                None => self.on(platform) is None,
            },
    {
        match platform {
            Platform::Windows => self.windows.as_ref(),
            Platform::Linux => self.linux.as_ref(),
            Platform::MacOs => self.darwin.as_ref(),
            Platform::Other => None,
        }
    }
}

} // verus!
