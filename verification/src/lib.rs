//! A personal note log: versions of notes kept in an append-only log,
//! compaction to the newest version of each note, and reconciliation of a
//! local and a remote log around a synchronisation watermark.

#![allow(unused_imports)]

pub mod compaction;
pub mod editing;
pub mod identifier;
pub mod listing;
pub mod merge;
pub mod metadata;
pub mod note;
pub mod paging;
pub mod pattern;
pub mod sorting;
pub mod text;

pub use compaction::compact;
pub use editing::{initial_note, show_existed_note, update_notes_with_content};
pub use identifier::rand_string;
pub use listing::{get_tags, latest_version, list, remove};
pub use merge::merge;
pub use metadata::{Metadata, MetadataView};
pub use note::{Note, NoteView};
pub use paging::page_length;
pub use pattern::capture_string_by_regex;
