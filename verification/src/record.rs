//! What stands ahead of the records of a telegram: the control information that says what they
//! are, and a meter's short header.

use vstd::prelude::*;

verus! {

/// The control information of records sent to a meter.
pub const CI_DATA_SEND: u8 = 0x51;

/// The control information of a meter's records behind the short header: the access
/// number, the status and two bytes of configuration.
pub const CI_VARIABLE_SHORT: u8 = 0x7a;

/// How many bytes the short header takes.
pub const SHORT_HEADER: usize = 4;

} // verus!
