//! Typed, queryable views of the small text files through which a Unix-like
//! system describes itself: the group and user databases, the processor and
//! memory tables, and the release description.

pub mod cpuinfo;
pub mod group;
pub mod ids;
pub mod meminfo;
pub mod meminfo_rows;
pub mod order;
pub mod os_release;
pub mod passwd;
pub mod reading;
pub mod record;
pub mod roundtrip;
pub mod scan;
pub mod table;
pub mod text;
pub mod utf8;

pub use cpuinfo::{Cpu, Cpuinfo};
pub use group::{GroupEntries, GroupEntry, GroupErrorKind, GroupParseError};
pub use meminfo::Meminfo;
pub use os_release::OsRelease;
pub use passwd::{getpwuid, Passwd};
