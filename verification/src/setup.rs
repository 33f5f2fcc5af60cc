//! Setup orchestration: the ordered, abort-on-failure steps that prepare
//! the application tree before the backend starts, and the choice of the
//! backend port from the deployment configuration.

use vstd::prelude::*;

verus! {

/// What the setup flow asks its driver's caller to do next. Each step that
/// runs outside work carries the status text to report first.
pub enum SetupCommand {
    /// Report the status, then run the configuration cleanup subprocess on
    /// the given path.
    CleanupConfig { status: String, path: String },
    /// Report the status, then run the update subprocess.
    RunUpdate { status: String },
    /// The setup is over; `ok` tells whether every step succeeded.
    Done { ok: bool },
}

/// The setup flow as a state machine: the caller performs each commanded
/// step, reports whether it failed, and asks for the next command. A failed
/// step aborts the flow.
pub struct SetupDriver {
    stage: u8,
}

impl SetupDriver {
    /// How far the flow has come: 0 before cleanup, 1 before the update,
    /// 2 before the conclusion, 3 at the end.
    pub closed spec fn stage_spec(&self) -> int {
        self.stage as int
    }

    /// The next command, given whether the previously commanded step
    /// failed (pass `false` on the first call, when nothing ran yet).
    pub fn next(&mut self, prev_failed: bool) -> (c: SetupCommand)
        ensures
            final(self).stage_spec() == (if old(self).stage_spec() == 0 {
                1int
            } else if old(self).stage_spec() == 1 && !prev_failed {
                2int
            } else {
                3int
            }),
            match c {
                SetupCommand::CleanupConfig { status, path } => {
                    &&& old(self).stage_spec() == 0
                    &&& status@ == "Cleaning up config files"@
                    &&& path@ == "./config"@
                },
                SetupCommand::RunUpdate { status } => {
                    &&& old(self).stage_spec() == 1
                    &&& !prev_failed
                    &&& status@ == "Updating ALAS"@
                },
                SetupCommand::Done { ok } => {
                    &&& (old(self).stage_spec() == 1 ==> prev_failed && !ok)
                    &&& (old(self).stage_spec() >= 2 ==> ok == !prev_failed)
                    &&& old(self).stage_spec() != 0
                },
            },
    {
        if self.stage == 0 {
            self.stage = 1;
            SetupCommand::CleanupConfig {
                status: "Cleaning up config files".to_owned(),
                path: "./config".to_owned(),
            }
        } else if self.stage == 1 && !prev_failed {
            self.stage = 2;
            SetupCommand::RunUpdate { status: "Updating ALAS".to_owned() }
        } else {
            self.stage = 3;
            SetupCommand::Done { ok: !prev_failed }
        }
    }
}

/// Begins the repository setup flow: first the configuration cleanup, then
/// the update, each announced through a status report, aborting on the
/// first failure.
pub fn setup_alas_repo() -> (d: SetupDriver)
    ensures
        d.stage_spec() == 0,
{
    SetupDriver { stage: 0 }
}

/// The backend port to use: the configured value, reduced to sixteen bits
/// as the deployment plumbing does, or the default when the configuration
/// names none.
pub fn choose_port(configured: Option<u64>) -> (p: u16)
    ensures
        match configured {
            Some(v) => p == v as u16,
            None => p == 22267,
        },
{
    match configured {
        Some(v) => #[verifier::truncate] (v as u16),
        None => 22267,
    }
}

} // verus!
