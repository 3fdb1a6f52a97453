//! The decisions of one steady-state service cycle.
//!
//! The loop around them — sleeping, HTTP calls, file writes — runs outside
//! the library and reports each outcome back; what the outcome does to the
//! stored watermark is decided and verified here.  The asymmetry is
//! deliberate: a probe submission failure never touches the watermark and
//! the cycle goes on, while only a fully successful reader pass advances
//! and persists it; the silent "nothing to do" outcome is not surfaced.

use vstd::prelude::*;

use crate::config::{ConfigModel, RuntimeConfig};
use crate::error::Error;

verus! {

/// What one reader pass outcome demands of the cycle.
pub enum CycleAction {
    /// The pass succeeded in full: persist this watermark, then sleep.
    Persist(String),
    /// The expected empty outcome: change nothing, log nothing.
    Continue,
    /// A real failure: change nothing, surface the error, keep running.
    Report(Error),
}

/// Decide what a reader pass outcome does to the stored watermark: only a
/// fully successful pass persists, the silent outcome is swallowed, and
/// every other error is surfaced without touching the watermark.
pub fn decide_cycle(outcome: Result<String, Error>) -> (r: CycleAction)
    ensures
        outcome matches Ok(wm) ==> (r matches CycleAction::Persist(w) && w == wm),
        outcome matches Err(e) ==> ((e.spec_is_silent() ==> r is Continue) && (
        !e.spec_is_silent() ==> (r matches CycleAction::Report(e2) && e2 == e))),
{
    match outcome {
        Ok(wm) => CycleAction::Persist(wm),
        Err(e) => {
            if e.is_silent() {
                CycleAction::Continue
            } else {
                CycleAction::Report(e)
            }
        },
    }
}

impl RuntimeConfig {
    /// Advance the persisted watermark, leaving every other field as it is.
    pub fn set_watermark(&mut self, watermark: String)
        ensures
            final(self)@ == (ConfigModel { last_record_timestamp: watermark@, ..old(self)@ }),
    {
        self.last_record_timestamp = watermark;
    }

    /// Record the id the collector assigned, leaving every other field as
    /// it is.
    pub fn set_drone_id(&mut self, id: u64)
        ensures
            final(self)@ == (ConfigModel { drone_id: id, ..old(self)@ }),
    {
        self.drone_id = id;
    }
}

} // verus!
