//! Catalog core of a local music library.
//!
//! The crate indexes audio files into a relational catalog of artists,
//! albums, genres, tracks and ordered playlists.  Scanning decides which
//! files are audio and which are new; extraction normalizes raw tag fields
//! into track metadata; identity derivation hashes paths and album keys into
//! stable ids; the store keeps the catalog consistent: unique keys, album
//! track counts that match the persisted tracks, and gap-free playlist
//! positions.  Filesystem walking and tag reading are left to the caller,
//! which hands plain values in.

pub mod artwork;
pub mod extract;
pub mod genres;
pub mod identity;
pub mod library;
pub mod models;
pub mod paths;
pub mod playlist;
pub mod scan;
pub mod store;
