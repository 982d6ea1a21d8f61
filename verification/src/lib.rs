//! A safe, verified model of a package-database session: database
//! registration, server-list management, package and group lookup, search,
//! and version comparison following the pacman version-ordering scheme.

pub mod db;
pub mod error;
pub mod handle;
pub mod list;
pub mod package;
pub mod siglevel;
mod strutil;
pub mod usage;
pub mod version;

pub use db::Db;
pub use error::Error;
pub use handle::Alpm;
pub use list::{AlpmList, FreeMethod};
pub use package::{Group, Package};
pub use siglevel::SigLevel;
pub use usage::Usage;
pub use version::{vercmp, Vercmp};
