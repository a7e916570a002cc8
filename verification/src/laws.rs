//! What the library promises, stated over bytes, characters and fields rather than
//! over the steps by which they are reached.

pub mod answers;
pub mod archives;
pub mod calls;
pub mod disks;
pub mod groups;
pub mod headers;
pub mod images;
pub mod index;
pub mod layout;
pub mod plans;
pub mod records;
pub mod summaries;
pub mod tables;
pub mod texts;
pub mod views;
pub mod walks;
