//! The directory element model: the records an archive's directory holds,
//! with their byte-level codecs.

pub mod edition;
pub mod elements;
pub mod file;
pub mod frame;
pub mod posix_owner;
pub mod specials;

pub use edition::Edition;
pub use elements::{Element, ElementFrame, ElementKind};
pub use file::File;
pub use frame::Frame;
pub use posix_owner::PosixOwner;
pub use specials::{LinkTarget, SpecialFile, SpecialFileKind};
