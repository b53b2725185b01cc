//! The notification port: implemented by the surrounding program for each
//! channel it can announce a result on.

use vstd::prelude::*;
use crate::junit::JunitError;

verus! {

pub trait Notifier {
    type Event;

    type CIContext;

    fn notify(&mut self, event: Self::Event, ctx: Self::CIContext) -> Result<(), JunitError>;
}

} // verus!
