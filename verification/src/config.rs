//! Project discovery and configuration.
//!
//! There is exactly one configuration file name, and the file is both the project
//! marker and the configuration. The topmost file on the way up from the working
//! directory is the project root and the files below it are folder overrides; a
//! file that marks itself as a root stops the walk early, so nested independent
//! projects stay independent. Databases never live in the tree: the registry maps
//! each added root to a database under the user data directory.
pub mod discovery;
pub mod registry;
pub mod settings;
