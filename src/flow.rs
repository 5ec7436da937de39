use vstd::prelude::*;

verus! {

/// An external operation that the driver performs and whose success it reports.
pub enum Effect {
    /// Write the repository's registry to its store.
    SaveRegistry { dir: String },
    /// Create `path`; fails if it exists already.
    CreateFile { path: String },
    /// Write the note template, a title line naming the note, into `path`.
    WriteTitle { path: String, name: String },
    /// Encrypt `path` with `password` into `path` followed by `.secured`.
    Encrypt { path: String, password: String },
    /// Decrypt the secured file `path` into `plain`.
    Decrypt { path: String, plain: String },
    /// Open `path` in the editor.
    Edit { path: String },
    /// Remove `path` from disk.
    RemoveFile { path: String },
    /// Stage `path` in the version-control working copy at `dir`.
    Stage { dir: String, path: String },
    /// Commit what is staged in `dir`.
    Commit { dir: String },
    /// Push the commits of `dir` to the remote.
    Push { dir: String },
}

impl Effect {
    /// An equal copy.
    pub fn duplicate(&self) -> (r: Effect)
        ensures
            r == *self,
    {
        match self {
            Effect::SaveRegistry { dir } => Effect::SaveRegistry { dir: dir.clone() },
            Effect::CreateFile { path } => Effect::CreateFile { path: path.clone() },
            Effect::WriteTitle { path, name } => Effect::WriteTitle {
                path: path.clone(),
                name: name.clone(),
            },
            Effect::Encrypt { path, password } => Effect::Encrypt {
                path: path.clone(),
                password: password.clone(),
            },
            Effect::Decrypt { path, plain } => Effect::Decrypt {
                path: path.clone(),
                plain: plain.clone(),
            },
            Effect::Edit { path } => Effect::Edit { path: path.clone() },
            Effect::RemoveFile { path } => Effect::RemoveFile { path: path.clone() },
            Effect::Stage { dir, path } => Effect::Stage { dir: dir.clone(), path: path.clone() },
            Effect::Commit { dir } => Effect::Commit { dir: dir.clone() },
            Effect::Push { dir } => Effect::Push { dir: dir.clone() },
        }
    }
}

/// One step of a flow: an effect, and what undoes its traces when it fails.
pub struct Step {
    pub effect: Effect,
    pub on_failure: Option<Effect>,
}

#[derive(Clone, Copy, Debug, PartialEq, Eq, Structural)]
pub enum Phase {
    /// The current step's effect is under way.
    Running,
    /// The current step failed and its cleanup is under way.
    CleaningUp,
    /// Nothing more will be performed.
    Stopped,
}

/// What the driver is to do next.
pub enum Action {
    /// Perform this effect and report whether it succeeded.
    Perform(Effect),
    /// The flow halted because this effect failed.
    Failed(Effect),
    /// Every step succeeded.
    Finished,
    /// The flow is over; there is nothing to do.
    Idle,
}

/// The decision taken on the outcome `ok` of what was last performed, from
/// position `pos` and phase `phase` of `steps`: the new position, phase and action.
pub open spec fn next_spec(steps: Seq<Step>, pos: int, phase: Phase, ok: bool) -> (int, Phase, Action) {
    match phase {
        Phase::Running => if ok {
            if pos + 1 < steps.len() {
                (pos + 1, Phase::Running, Action::Perform(steps[pos + 1].effect))
            } else {
                (pos, Phase::Stopped, Action::Finished)
            }
        } else {
            match steps[pos].on_failure {
                Some(c) => (pos, Phase::CleaningUp, Action::Perform(c)),
                None => (pos, Phase::Stopped, Action::Failed(steps[pos].effect)),
            }
        },
        Phase::CleaningUp => (pos, Phase::Stopped, Action::Failed(steps[pos].effect)),
        Phase::Stopped => (pos, Phase::Stopped, Action::Idle),
    }
}

/// The first action of a run of `steps`, with its position and phase.
pub open spec fn start_spec(steps: Seq<Step>) -> (int, Phase, Action) {
    if steps.len() == 0 {
        (0, Phase::Stopped, Action::Finished)
    } else {
        (0, Phase::Running, Action::Perform(steps[0].effect))
    }
}

/// The actions decided, from position `pos` and phase `phase`, on the outcomes
/// `outcomes` reported one after another.
pub open spec fn drive(steps: Seq<Step>, pos: int, phase: Phase, outcomes: Seq<bool>) -> Seq<Action>
    decreases outcomes.len(),
{
    if outcomes.len() == 0 {
        Seq::empty()
    } else {
        let (p, ph, a) = next_spec(steps, pos, phase, outcomes[0]);
        seq![a] + drive(steps, p, ph, outcomes.drop_first())
    }
}

/// Every action of a run of `steps` on `outcomes`, the first one included.
pub open spec fn run_actions(steps: Seq<Step>, outcomes: Seq<bool>) -> Seq<Action> {
    let (p, ph, a) = start_spec(steps);
    seq![a] + drive(steps, p, ph, outcomes)
}

/// Runs the steps of a flow in order and halts at the first failure, after
/// that step's cleanup if it has one. It never retries.
pub struct Runner {
    steps: Vec<Step>,
    pos: usize,
    phase: Phase,
}

impl Runner {
    #[verifier::type_invariant]
    closed spec fn wf(&self) -> bool {
        self.phase != Phase::Stopped ==> self.pos < self.steps@.len()
    }

    pub closed spec fn steps(&self) -> Seq<Step> {
        self.steps@
    }

    pub closed spec fn pos(&self) -> int {
        self.pos as int
    }

    pub closed spec fn phase(&self) -> Phase {
        self.phase
    }

    /// Starts a run of `steps` and gives its first action.
    pub fn start(steps: Vec<Step>) -> (r: (Runner, Action))
        ensures
            r.0.steps() == steps@,
            (r.0.pos(), r.0.phase(), r.1) == start_spec(steps@),
    {
        if steps.len() == 0 {
            (Runner { steps, pos: 0, phase: Phase::Stopped }, Action::Finished)
        } else {
            let first = steps[0].effect.duplicate();
            (Runner { steps, pos: 0, phase: Phase::Running }, Action::Perform(first))
        }
    }

    /// Takes the outcome of what was last performed and gives the next action.
    pub fn advance(&mut self, ok: bool) -> (a: Action)
        ensures
            final(self).steps() == old(self).steps(),
            (final(self).pos(), final(self).phase(), a) == next_spec(
                old(self).steps(),
                old(self).pos(),
                old(self).phase(),
                ok,
            ),
    {
        proof {
            use_type_invariant(&*self);
        }
        let mut held = Runner { steps: Vec::new(), pos: 0, phase: Phase::Stopped };
        core::mem::swap(self, &mut held);
        let steps = held.steps;
        let pos = held.pos;
        let (p, ph, a) = match held.phase {
            Phase::Running => if ok {
                if pos < steps.len() - 1 {
                    let e = steps[pos + 1].effect.duplicate();
                    (pos + 1, Phase::Running, Action::Perform(e))
                } else {
                    (pos, Phase::Stopped, Action::Finished)
                }
            } else {
                match &steps[pos].on_failure {
                    Some(c) => (pos, Phase::CleaningUp, Action::Perform(c.duplicate())),
                    None => (pos, Phase::Stopped, Action::Failed(steps[pos].effect.duplicate())),
                }
            },
            Phase::CleaningUp => (
                pos,
                Phase::Stopped,
                Action::Failed(steps[pos].effect.duplicate()),
            ),
            Phase::Stopped => (pos, Phase::Stopped, Action::Idle),
        };
        *self = Runner { steps, pos: p, phase: ph };
        a
    }
}

} // verus!
