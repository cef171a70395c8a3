//! Core data model: dates with uncertainty, the algebra behind them, conflict
//! detection over dated facts, and the fact vocabulary with its in-memory
//! store.
#[allow(unused_imports)]
use vstd::prelude::*;

pub mod algebra;
pub mod annotation;
pub mod bits;
pub mod calendar;
pub mod claimed;
pub mod conflicts;
pub mod consistency;
pub mod date;
pub mod entity;
pub mod evidence;
pub mod external_ids;
pub mod facts;
pub mod location;
pub mod moment;
pub mod nonempty;
pub mod text;
