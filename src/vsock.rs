use crate::error::DeviceError;
use rand::Rng;
use vstd::prelude::*;

verus! {

/// The smallest context id a guest may have; lower ones are reserved.
pub const MIN_GUEST_CID: u32 = 3;

/// How many context ids are tried before giving up.
pub const MAX_CID_ATTEMPTS: u32 = 50;

/// Relies on `rand::thread_rng` and `Rng::gen_range` over `3..=u32::MAX`: a
/// value in that range, which is not empty, so the call does not panic.
#[verifier::external_body]
fn draw_guest_cid() -> (r: u32)
    ensures
        MIN_GUEST_CID <= r,
{
    rand::thread_rng().gen_range(MIN_GUEST_CID..=u32::MAX)
}

/// What the vhost-vsock device answered when asked to take a context id.
#[derive(Debug)]
pub enum SetCidOutcome {
    /// It took the id.
    Accepted,
    /// Another guest has the id.
    InUse,
    /// It refused for this reason.
    Failed(String),
}

/// The search for a free guest context id: a random id is tried at a time,
/// up to [`MAX_CID_ATTEMPTS`] times.
#[derive(Debug)]
pub struct CidSearch {
    attempts: u32,
}

impl CidSearch {
    /// How many ids have been handed out to try.
    pub closed spec fn attempts(&self) -> u32 {
        self.attempts
    }

    /// A search that has tried nothing.
    pub fn new() -> (r: Self)
        ensures
            r.attempts() == 0,
    {
        CidSearch { attempts: 0 }
    }

    /// The next id to try: a random one of at least [`MIN_GUEST_CID`], while
    /// attempts remain; [`DeviceError::NoFreeCid`] once they are spent.
    pub fn next_candidate(&mut self) -> (r: Result<u32, DeviceError>)
        ensures
            old(self).attempts() < MAX_CID_ATTEMPTS ==> r is Ok && MIN_GUEST_CID <= r->Ok_0
                && final(self).attempts() == old(self).attempts() + 1,
            old(self).attempts() >= MAX_CID_ATTEMPTS ==> r == Err::<u32, DeviceError>(
                DeviceError::NoFreeCid,
            ) && final(self).attempts() == old(self).attempts(),
    {
        if self.attempts >= MAX_CID_ATTEMPTS {
            return Err(DeviceError::NoFreeCid);
        }
        self.attempts = self.attempts + 1;
        Ok(draw_guest_cid())
    }
}

/// Decides on the device's answer for id `cid`: `Some(cid)` when it took
/// it, `None` when another id is to be tried, an error when it refused
/// otherwise.
pub fn cid_decision(cid: u32, outcome: SetCidOutcome) -> (r: Result<Option<u32>, DeviceError>)
    ensures
        match outcome {
            SetCidOutcome::Accepted => r == Ok::<Option<u32>, DeviceError>(Some(cid)),
            SetCidOutcome::InUse => r == Ok::<Option<u32>, DeviceError>(None),
            SetCidOutcome::Failed(e) => r == Err::<Option<u32>, DeviceError>(
                DeviceError::CidRejected(e),
            ),
        },
{
    match outcome {
        SetCidOutcome::Accepted => Ok(Some(cid)),
        SetCidOutcome::InUse => Ok(None),
        SetCidOutcome::Failed(e) => Err(DeviceError::CidRejected(e)),
    }
}

} // verus!
