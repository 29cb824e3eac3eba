//! Decoding of macOS login-item artifacts.
//!
//! Background-task-management and shared-file-list property lists carry
//! Apple bookmark blobs; [`envelope`] picks the candidate blobs out of a
//! property list, [`bookmark`] decodes each into a [`loginitems::LoginItemsData`],
//! and [`loginitems`] assembles the records of one artifact, including the
//! bundled login items that applications register.
pub mod bookmark;
pub mod bytes;
pub mod envelope;
pub mod error;
pub mod lemmas;
pub mod loginitems;
pub mod record;
pub mod text;
