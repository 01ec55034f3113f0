//! Which build stages a package runs, and how their completion markers gate
//! and force them.
use vstd::prelude::*;
use crate::recipe::Stage;

verus! {

/// An operation the user asks for.
#[derive(Clone, Copy, Debug, PartialEq, Eq, Structural)]
pub enum Op {
    Prepare,
    Configure,
    Build,
    Install,
    Sync,
}

/// The stages a user-requested package runs, and which of them are forced.
#[derive(Clone, Copy, Debug, PartialEq, Eq, Structural)]
pub struct StageSelection {
    pub prepare: bool,
    pub configure: bool,
    pub build: bool,
    pub install: bool,
    pub sync: bool,
    pub force_prepare: bool,
    pub force_configure: bool,
    pub force_build: bool,
    pub force_install: bool,
}

/// Which completion markers are present.
#[derive(Clone, Copy, Debug, PartialEq, Eq, Structural)]
pub struct Gates {
    pub prepared: bool,
    pub configured: bool,
    pub built: bool,
    pub installed: bool,
}

/// What to remove before a stage's gate is checked.
#[derive(Clone, Copy, Debug, PartialEq, Eq, Structural)]
pub enum Invalidation {
    Nothing,
    /// The stage's own marker.
    RemoveGate,
    /// The whole build directory, with every marker in it.
    RemoveBuildDir,
}

/// What the runner does for one stage of one package.
#[derive(Clone, Copy, Debug, PartialEq, Eq, Structural)]
pub struct StageAction {
    pub invalidate: Invalidation,
    /// Run the stage's commands, then create its marker.
    pub execute: bool,
}

/// The selection that a list of operations makes: each build stage implies
/// the ones before it; `force` applies to the stages named explicitly.
pub open spec fn selection_of(ops: Seq<Op>, force: bool) -> StageSelection {
    let install = ops.contains(Op::Install);
    let build = ops.contains(Op::Build) || install;
    let configure = ops.contains(Op::Configure) || build;
    let prepare = ops.contains(Op::Prepare) || configure;
    StageSelection {
        prepare,
        configure,
        build,
        install,
        sync: ops.contains(Op::Sync),
        force_prepare: force && ops.contains(Op::Prepare),
        force_configure: force && ops.contains(Op::Configure),
        force_build: force && ops.contains(Op::Build),
        force_install: force && ops.contains(Op::Install),
    }
}

pub fn select_stages(ops: &Vec<Op>, force: bool) -> (r: StageSelection)
    ensures
        r == selection_of(ops@, force),
{
    let mut seen_prepare = false;
    let mut seen_configure = false;
    let mut seen_build = false;
    let mut seen_install = false;
    let mut seen_sync = false;
    let mut i: usize = 0;
    while i < ops.len()
        invariant
            i <= ops.len(),
            seen_prepare == ops@.take(i as int).contains(Op::Prepare),
            seen_configure == ops@.take(i as int).contains(Op::Configure),
            seen_build == ops@.take(i as int).contains(Op::Build),
            seen_install == ops@.take(i as int).contains(Op::Install),
            seen_sync == ops@.take(i as int).contains(Op::Sync),
        decreases ops.len() - i,
    {
        let ghost before = ops@.take(i as int);
        assert(ops@.take(i + 1) =~= before.push(ops@[i as int]));
        match ops[i] {
            Op::Prepare => seen_prepare = true,
            Op::Configure => seen_configure = true,
            Op::Build => seen_build = true,
            Op::Install => seen_install = true,
            Op::Sync => seen_sync = true,
        }
        proof {
            let after = ops@.take(i + 1);
            assert forall|o: Op| #[trigger] after.contains(o) <==> (before.contains(o) || o
                == ops@[i as int]) by {
                if after.contains(o) {
                    let q = choose|q: int| 0 <= q < after.len() && #[trigger] after[q] == o;
                    if q < i {
                        assert(before[q] == o);
                    }
                }
                if before.contains(o) {
                    let q = choose|q: int| 0 <= q < before.len() && #[trigger] before[q] == o;
                    assert(after[q] == o);
                }
                if o == ops@[i as int] {
                    assert(after[i as int] == o);
                }
            }
        }
        i = i + 1;
    }
    assert(ops@.take(i as int) =~= ops@);
    let install = seen_install;
    let build = seen_build || install;
    let configure = seen_configure || build;
    StageSelection {
        prepare: seen_prepare || configure,
        configure,
        build,
        install,
        sync: seen_sync,
        force_prepare: force && seen_prepare,
        force_configure: force && seen_configure,
        force_build: force && seen_build,
        force_install: force && seen_install,
    }
}

pub open spec fn selected(sel: StageSelection, stage: Stage) -> bool {
    match stage {
        Stage::Prepare => sel.prepare,
        Stage::Configure => sel.configure,
        Stage::Build => sel.build,
        Stage::Install => sel.install,
    }
}

pub open spec fn forced(sel: StageSelection, stage: Stage) -> bool {
    match stage {
        Stage::Prepare => sel.force_prepare,
        Stage::Configure => sel.force_configure,
        Stage::Build => sel.force_build,
        Stage::Install => sel.force_install,
    }
}

pub open spec fn gate(g: Gates, stage: Stage) -> bool {
    match stage {
        Stage::Prepare => g.prepared,
        Stage::Configure => g.configured,
        Stage::Build => g.built,
        Stage::Install => g.installed,
    }
}

/// A dependency runs every stage and is never forced; a user-requested
/// package runs its selected stages, forced ones after invalidation. A stage
/// that runs executes when its marker is absent or it was forced.
pub open spec fn action_of(sel: StageSelection, stage: Stage, user_requested: bool, g: Gates) -> StageAction {
    let runs = !user_requested || selected(sel, stage);
    let force = user_requested && forced(sel, stage);
    if !runs {
        StageAction { invalidate: Invalidation::Nothing, execute: false }
    } else if force {
        StageAction {
            invalidate: if stage == Stage::Configure {
                Invalidation::RemoveBuildDir
            } else {
                Invalidation::RemoveGate
            },
            execute: true,
        }
    } else {
        StageAction { invalidate: Invalidation::Nothing, execute: !gate(g, stage) }
    }
}

/// The markers after a stage's action: invalidation removes, execution creates.
pub open spec fn gates_after(g: Gates, stage: Stage, a: StageAction) -> Gates {
    let cleared = match a.invalidate {
        Invalidation::Nothing => g,
        Invalidation::RemoveBuildDir => Gates {
            configured: false,
            built: false,
            installed: false,
            ..g
        },
        Invalidation::RemoveGate => match stage {
            Stage::Prepare => Gates { prepared: false, ..g },
            Stage::Configure => Gates { configured: false, ..g },
            Stage::Build => Gates { built: false, ..g },
            Stage::Install => Gates { installed: false, ..g },
        },
    };
    if a.execute {
        match stage {
            Stage::Prepare => Gates { prepared: true, ..cleared },
            Stage::Configure => Gates { configured: true, ..cleared },
            Stage::Build => Gates { built: true, ..cleared },
            Stage::Install => Gates { installed: true, ..cleared },
        }
    } else {
        cleared
    }
}

/// Decides one stage of one package from the markers present before it.
pub fn stage_action(sel: &StageSelection, stage: Stage, user_requested: bool, gates: &Gates) -> (r:
    StageAction)
    ensures
        r == action_of(*sel, stage, user_requested, *gates),
{
    let (runs, force, present) = match stage {
        Stage::Prepare => (sel.prepare, sel.force_prepare, gates.prepared),
        Stage::Configure => (sel.configure, sel.force_configure, gates.configured),
        Stage::Build => (sel.build, sel.force_build, gates.built),
        Stage::Install => (sel.install, sel.force_install, gates.installed),
    };
    if user_requested && !runs {
        StageAction { invalidate: Invalidation::Nothing, execute: false }
    } else if user_requested && force {
        let invalidate = match stage {
            Stage::Configure => Invalidation::RemoveBuildDir,
            _ => Invalidation::RemoveGate,
        };
        StageAction { invalidate, execute: true }
    } else {
        StageAction { invalidate: Invalidation::Nothing, execute: !present }
    }
}

/// The markers after a stage's action.
pub fn apply_action(gates: &Gates, stage: Stage, action: &StageAction) -> (r: Gates)
    ensures
        r == gates_after(*gates, stage, *action),
{
    let mut g = *gates;
    match action.invalidate {
        Invalidation::Nothing => {},
        Invalidation::RemoveBuildDir => {
            g.configured = false;
            g.built = false;
            g.installed = false;
        },
        Invalidation::RemoveGate => match stage {
            Stage::Prepare => g.prepared = false,
            Stage::Configure => g.configured = false,
            Stage::Build => g.built = false,
            Stage::Install => g.installed = false,
        },
    }
    if action.execute {
        match stage {
            Stage::Prepare => g.prepared = true,
            Stage::Configure => g.configured = true,
            Stage::Build => g.built = true,
            Stage::Install => g.installed = true,
        }
    }
    g
}

pub open spec fn stage_at(i: int) -> Stage {
    if i == 0 {
        Stage::Prepare
    } else if i == 1 {
        Stage::Configure
    } else if i == 2 {
        Stage::Build
    } else {
        Stage::Install
    }
}

/// The first `n` stages of a package in order: the stages whose commands
/// execute, and the markers afterwards.
pub open spec fn run_stages(sel: StageSelection, user_requested: bool, g: Gates, n: nat) -> (
    Seq<Stage>,
    Gates,
)
    decreases n,
{
    if n == 0 {
        (seq![], g)
    } else {
        let (done, g1) = run_stages(sel, user_requested, g, (n - 1) as nat);
        let stage = stage_at(n - 1);
        let a = action_of(sel, stage, user_requested, g1);
        (
            if a.execute {
                done.push(stage)
            } else {
                done
            },
            gates_after(g1, stage, a),
        )
    }
}

/// A full pass over the four stages.
pub open spec fn run_all(sel: StageSelection, user_requested: bool, g: Gates) -> (Seq<Stage>, Gates) {
    run_stages(sel, user_requested, g, 4)
}

pub open spec fn unforced(sel: StageSelection) -> bool {
    !sel.force_prepare && !sel.force_configure && !sel.force_build && !sel.force_install
}

/// Without forcing, a second pass over the same stages executes nothing:
/// each stage's commands run at most once over the two passes, and exactly
/// once where the stage runs and its marker was absent.
pub proof fn lemma_gates_idempotent(sel: StageSelection, user_requested: bool, g: Gates)
    requires
        unforced(sel),
    ensures
        run_all(sel, user_requested, run_all(sel, user_requested, g).1).0.len() == 0,
        forall|s: Stage|
            #[trigger] run_all(sel, user_requested, g).0.contains(s) <==> ((!user_requested
                || selected(sel, s)) && !gate(g, s)),
{
    let r1 = run_stages(sel, user_requested, g, 1);
    let r2 = run_stages(sel, user_requested, g, 2);
    let r3 = run_stages(sel, user_requested, g, 3);
    let r4 = run_stages(sel, user_requested, g, 4);
    let g1 = r4.1;
    let q1 = run_stages(sel, user_requested, g1, 1);
    let q2 = run_stages(sel, user_requested, g1, 2);
    let q3 = run_stages(sel, user_requested, g1, 3);
    let q4 = run_stages(sel, user_requested, g1, 4);
    assert(run_stages(sel, user_requested, g, 0).0 =~= Seq::<Stage>::empty());
    assert(run_stages(sel, user_requested, g1, 0).0 =~= Seq::<Stage>::empty());
    assert forall|s: Stage| #[trigger] r4.0.contains(s) <==> ((!user_requested || selected(sel, s))
        && !gate(g, s)) by {
        if r4.0.contains(s) {
            let q = choose|q: int| 0 <= q < r4.0.len() && #[trigger] r4.0[q] == s;
        }
        match s {
            Stage::Prepare => {
                if (!user_requested || selected(sel, s)) && !gate(g, s) {
                    assert(r1.0[0] == s);
                    assert(r2.0[0] == s);
                    assert(r3.0[0] == s);
                    assert(r4.0[0] == s);
                }
            },
            Stage::Configure => {
                if (!user_requested || selected(sel, s)) && !gate(g, s) {
                    assert(r2.0.last() == s);
                    assert(r3.0[r2.0.len() - 1] == s);
                    assert(r4.0[r2.0.len() - 1] == s);
                }
            },
            Stage::Build => {
                if (!user_requested || selected(sel, s)) && !gate(g, s) {
                    assert(r3.0.last() == s);
                    assert(r4.0[r3.0.len() - 1] == s);
                }
            },
            Stage::Install => {
                if (!user_requested || selected(sel, s)) && !gate(g, s) {
                    assert(r4.0.last() == s);
                }
            },
        }
    }
}

/// Forcing `configure` on a requested package removes the build directory,
/// so `configure` and every selected later stage execute whatever markers
/// were present.
pub proof fn lemma_forced_configure_rebuilds(sel: StageSelection, g: Gates)
    requires
        sel.configure,
        sel.force_configure,
        !sel.force_prepare,
    ensures
        run_all(sel, true, g).0.contains(Stage::Configure),
        sel.build ==> run_all(sel, true, g).0.contains(Stage::Build),
        sel.install ==> run_all(sel, true, g).0.contains(Stage::Install),
{
    let r1 = run_stages(sel, true, g, 1);
    let r2 = run_stages(sel, true, g, 2);
    let r3 = run_stages(sel, true, g, 3);
    let r4 = run_stages(sel, true, g, 4);
    assert(r2.0.last() == Stage::Configure);
    assert(r3.0[r2.0.len() - 1] == Stage::Configure);
    assert(r4.0[r2.0.len() - 1] == Stage::Configure);
    if sel.build {
        assert(r3.0.last() == Stage::Build);
        assert(r4.0[r3.0.len() - 1] == Stage::Build);
    }
    if sel.install {
        assert(r4.0.last() == Stage::Install);
    }
}

} // verus!
