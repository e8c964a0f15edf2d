//! The part of a Gentoo Bugzilla REST answer that the bot reads.

use vstd::prelude::*;

verus! {

/// One bug, as Bugzilla's `/rest/bug` endpoint describes it.
#[derive(Clone, Debug)]
pub struct Bug {
    pub summary: String,
    pub creation_time: String,
    pub assigned_to: String,
    pub creator: String,
    pub priority: String,
    pub severity: String,
    pub product: String,
    pub resolution: String,
    pub status: String,
}

/// The answer of `/rest/bug?id=..`: the bugs found.
#[derive(Clone, Debug)]
pub struct Bugs {
    pub bugs: Vec<Bug>,
}

} // verus!
