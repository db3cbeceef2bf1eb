//! The verified core of a file-listing tool for NTFS volumes: the in-memory
//! file index, the search over it, the NTFS change-journal records and the
//! text shown for each listed file.

pub mod file_entity;
pub mod order;
pub mod files;
pub mod storage;
pub mod text;
pub mod bytes;
pub mod errors;
pub mod usn_record;
pub mod item;
pub mod list_header;
pub mod actions;
pub mod settings;
pub mod datarun;
pub mod journal;
pub mod state;
pub mod icons;
pub mod window;
pub mod laws;
