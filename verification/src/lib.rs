//! Core of a static-site build pipeline: classification of content documents
//! into sections, template-name resolution, output-path derivation, and the
//! ordered aggregation of documents into listing pages and syndication feeds.
//!
//! Reading files, decoding the TOML metadata, running the template engine on
//! full render contexts and writing output are left to a thin unverified
//! shell; this crate holds the decisions and states them in contracts.
//!
//! Conventions, each fixed deterministically and stated in the contracts:
//! paths are `/`-separated and relative to the content root; every content
//! directory's path is a section key; section membership goes to the
//! longest matching key; a section's first marker in date order seeds its
//! listing and feed, later markers are ignored; marker documents (the
//! root's included) carry the marker flag and never join the site-wide
//! collection; equal dates sort in discovery order.
pub mod page;
pub mod text;
pub mod dates;
pub mod markdown;
pub mod engine;
pub mod sections;
pub mod classify;
pub mod aggregate;
pub mod stats;
