//! Reading Flow Cytometry Standard (FCS) files: the HEADER, the TEXT
//! key/value segment with its typed keywords, and the plan by which DATA is
//! decoded into columns.
use vstd::prelude::*;

pub mod config;
pub mod dataplan;
pub mod datetime;
pub mod decimal;
pub mod error;
pub mod fields;
pub mod header;
pub mod kwstate;
pub mod metadata;
pub mod nonstandard;
pub mod rawtext;
pub mod segment;
pub mod textbuf;
pub mod values;

verus! {

} // verus!
