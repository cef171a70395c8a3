//! Facts: their vocabulary, their citations, and the store that holds them.
pub mod assertions;
pub mod attribute;
pub mod bookend;
pub mod citations;
pub mod composites;
pub mod depiction;
pub mod drain;
pub mod event;
pub mod features;
pub mod geometry;
pub mod identity;
pub mod ids;
pub mod image;
pub mod lifecycle;
pub mod listing;
pub mod map;
pub mod memory;
pub mod observation;
pub mod pagination;
pub mod picture;
pub mod reference;
pub mod schema;
pub mod spatial;
pub mod submit;
pub mod web;
