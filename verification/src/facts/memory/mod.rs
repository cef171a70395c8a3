//! In-memory fact-store backend.
pub mod companion;
pub mod equiv;
pub mod history;
pub mod ids;
pub mod index;
pub mod read;
pub mod resolve;
pub mod retraction;
pub mod scan;
pub mod state;
pub mod store;
pub mod substitute;
pub mod view;
pub mod walk;
