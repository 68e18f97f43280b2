//! The configuration of a rom hack project: where its sources and the game
//! are, which files it puts into the game, how its code is linked and which
//! changes a patch archive makes. Paths are kept as the text the
//! configuration gives.

use vstd::prelude::*;

verus! {

/// A rom hack project.
#[derive(Debug, Clone, Default)]
pub struct Config {
    pub info: Info,
    pub src: Src,
    /// Paths in the game's file system, each with the path of the project
    /// file or directory to put there.
    pub files: Vec<(String, String)>,
    pub build: Build,
    pub link: Option<Link>,
    pub diffs: Option<Diffs>,
}

/// Where the project's inputs are.
#[derive(Debug, Clone, Default)]
pub struct Src {
    /// The project's source directory.
    pub src: Option<String>,
    /// The game to patch.
    pub iso: String,
    /// The patch file of instructions to apply to the main executable.
    pub patch: Option<String>,
    /// Path in the game's file system of the game's symbol map.
    pub map: Option<String>,
}

/// What the project says of itself.
#[derive(Debug, Clone, Default)]
pub struct Info {
    pub game_name: Option<String>,
    pub developer_name: Option<String>,
    pub full_game_name: Option<String>,
    pub full_developer_name: Option<String>,
    pub description: Option<String>,
    pub image: Option<String>,
    /// The project's version, as semantic-version text.
    pub version: Option<String>,
}

/// Where the build's outputs go.
#[derive(Debug, Clone, Default)]
pub struct Build {
    pub map: Option<String>,
    pub iso: String,
}

/// How the project's code is linked.
#[derive(Debug, Clone, Default)]
pub struct Link {
    pub entries: Vec<String>,
    pub base: String,
    pub libs: Vec<String>,
}

/// The changes that a patch archive makes to a game.
#[derive(Debug, Clone, Default)]
pub struct Diffs {
    /// Paths in the game's file system to remove.
    pub deletions: Vec<String>,
    /// Paths in the game's file system to change, each with the path in the
    /// patch archive of the compressed bsdiff patch to apply to it.
    pub changes: Vec<(String, String)>,
    /// Path in the patch archive of the patch of the main executable.
    pub dol: Option<String>,
    /// Path in the patch archive of the patch of the apploader.
    pub loader: Option<String>,
}

} // verus!
