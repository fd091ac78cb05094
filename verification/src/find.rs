//! The older point-search parameter and result shapes.

use vstd::prelude::*;

use crate::common::Status;

verus! {

/// Parameters of a point search.
#[derive(Debug, Default)]
pub struct Config<'a> {
    pub query: &'a str,
    pub limit: Option<u32>,
    pub stops_only: Option<bool>,
    pub assigedstops: Option<bool>,
}

/// A point-search answer: the raw point lines and the response status.
#[derive(Debug)]
pub struct Point {
    pub point_status: String,
    pub status: Status,
    pub points: Vec<String>,
    pub expiration_time: String,
}

} // verus!
