//! Metadata extraction and preview decoding for a photo catalogue browser.
//!
//! The crate turns decoded EXIF tag sets into normalised metadata records,
//! keeps an index of the files found under a folder, and cuts the embedded
//! images out of a multi-resolution preview container. It reads no file
//! itself: callers hand it bytes, listings and tag sets, and get back
//! records, indexes and images.
//!
//! - [`exif`], [`xmp`], [`text`]: the decoded metadata that the crate reads.
//! - [`image_folder`], [`image_data`]: tag extraction and the record of one
//!   file.
//! - [`folder_walk`], [`folder_index`]: gathering the files of a folder and
//!   indexing them; [`walk_laws`] and [`index_laws`] say what holds of
//!   every walk and every index.
//! - [`lrprev`]: the preview container; [`preview_laws`] says what holds of
//!   every container.
//! - [`app_state`], [`commands`], [`error`]: the state of the browser and
//!   the answers to its requests.
//! - [`catalog`]: the preferences that name a catalogue.

pub mod app_state;
pub mod catalog;
pub mod commands;
pub mod error;
pub mod exif;
pub mod folder_index;
pub mod folder_walk;
pub mod image_data;
pub mod image_folder;
pub mod index_laws;
pub mod lrprev;
pub mod preview_laws;
pub mod text;
pub mod walk_laws;
pub mod xmp;
