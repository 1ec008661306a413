//! Booting the host: spawn the preferred command and, if it fails, fall back
//! to the system `dsh` before giving up, so that a stale bundled host cannot
//! keep the app from starting.

use vstd::prelude::*;

use crate::command::{host_args, host_args_spec, system_host_program, views};

verus! {

/// Where a boot stands.
pub enum BootStage {
    /// The preferred command has been spawned.
    Primary { program: String },
    /// The preferred command failed and the system `dsh` has been spawned.
    Fallback { primary_error: String },
    /// The boot is over.
    Finished,
}

/// What the caller must do next.
pub enum BootAction {
    /// Spawn this command and wait until the host answers, then report.
    Spawn { program: String, args: Vec<String> },
    /// The host answers: wait for its authenticated URL.
    AwaitUrl,
    /// The host could not be booted; report this error.
    GiveUp { error: String },
}

/// How many more reports a stage can take before the boot is over.
pub open spec fn stage_rank(stage: BootStage) -> nat {
    match stage {
        BootStage::Primary { .. } => 2,
        BootStage::Fallback { .. } => 1,
        BootStage::Finished => 0,
    }
}

/// The state of one host boot.
pub struct HostBoot {
    pub stage: BootStage,
}

impl HostBoot {
    /// Start a boot with the resolved command: spawn it first.
    pub fn start(program: String, args: Vec<String>) -> (r: (HostBoot, BootAction))
        ensures
            r.0.stage matches BootStage::Primary { program: p } && p@ == program@,
            r.1 matches BootAction::Spawn { program: p, args: a } && p@ == program@ && views(a@)
                == views(args@),
    {
        let first = program.clone();
        (HostBoot { stage: BootStage::Primary { program } }, BootAction::Spawn { program: first, args })
    }

    /// Take the report of the last spawn (`Ok` when the host answered, else
    /// the error) and decide what comes next. A failed preferred command is
    /// followed by one try of the system `dsh` unless it was `dsh` already; if
    /// that fails as well, the error reported is the preferred command's.
    pub fn step(&mut self, outcome: Result<(), String>) -> (action: BootAction)
        requires
            !(old(self).stage is Finished),
        ensures
            stage_rank(final(self).stage) < stage_rank(old(self).stage),
            match (old(self).stage, outcome) {
                (BootStage::Primary { program }, Err(e)) => if program@ != system_host_program() {
                    &&& final(self).stage matches BootStage::Fallback { primary_error }
                    &&& primary_error@ == e@
                    &&& action matches BootAction::Spawn { program: p, args }
                    &&& p@ == system_host_program()
                    &&& views(args@) == host_args_spec()
                } else {
                    &&& final(self).stage is Finished
                    &&& action matches BootAction::GiveUp { error }
                    &&& error@ == e@
                },
                (BootStage::Fallback { primary_error }, Err(_)) => {
                    &&& final(self).stage is Finished
                    &&& action matches BootAction::GiveUp { error }
                    &&& error@ == primary_error@
                },
                (_, Ok(())) => final(self).stage is Finished && action is AwaitUrl,
                (BootStage::Finished, _) => false,
            },
    {
        let mut stage = BootStage::Finished;
        std::mem::swap(&mut stage, &mut self.stage);
        match stage {
            BootStage::Primary { program } => match outcome {
                Ok(()) => BootAction::AwaitUrl,
                Err(e) => {
                    let fallback = String::from_str("dsh");
                    if program == fallback {
                        BootAction::GiveUp { error: e }
                    } else {
                        self.stage = BootStage::Fallback { primary_error: e };
                        BootAction::Spawn { program: fallback, args: host_args() }
                    }
                },
            },
            BootStage::Fallback { primary_error } => match outcome {
                Ok(()) => BootAction::AwaitUrl,
                Err(_) => BootAction::GiveUp { error: primary_error },
            },
            BootStage::Finished => BootAction::AwaitUrl,
        }
    }
}

} // verus!
