//! Declarations of the wire-format types of the outside feed crates, so
//! that their values can pass through signatures in this crate.

use vstd::prelude::*;

verus! {

#[verifier::external_type_specification]
#[verifier::external_body]
pub struct ExChannel(rss::Channel);

#[verifier::external_type_specification]
#[verifier::external_body]
pub struct ExAtomFeed(atom_syndication::Feed);

} // verus!
