//! Clients of a local [SRS] media server.
//!
//! [SRS]: https://github.com/ossrs/srs

use vstd::prelude::*;

verus! {

/// ID of an [SRS] client, who either publishes or plays a live stream.
///
/// [SRS]: https://github.com/ossrs/srs
#[derive(Clone, Copy, Debug, PartialEq, Eq, Structural)]
pub struct ClientId(pub u32);

} // verus!
