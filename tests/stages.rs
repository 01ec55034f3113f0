use qpkg::recipe::Stage;
use qpkg::stages::{apply_action, select_stages, stage_action, Gates, Invalidation, Op, StageSelection};

const ORDER: [Stage; 4] = [Stage::Prepare, Stage::Configure, Stage::Build, Stage::Install];

fn no_gates() -> Gates {
    Gates { prepared: false, configured: false, built: false, installed: false }
}

fn all_gates() -> Gates {
    Gates { prepared: true, configured: true, built: true, installed: true }
}

fn run(sel: &StageSelection, user: bool, gates: Gates) -> (Vec<Stage>, Gates) {
    let mut g = gates;
    let mut executed = Vec::new();
    for stage in ORDER {
        let a = stage_action(sel, stage, user, &g);
        if a.execute {
            executed.push(stage);
        }
        g = apply_action(&g, stage, &a);
    }
    (executed, g)
}

#[test]
fn install_implies_earlier_stages() {
    let sel = select_stages(&vec![Op::Install], false);
    assert!(sel.prepare && sel.configure && sel.build && sel.install);
    assert!(!sel.sync);
    let (executed, _) = run(&sel, true, no_gates());
    assert_eq!(executed, ORDER.to_vec());
}

#[test]
fn configure_implies_prepare_only() {
    let sel = select_stages(&vec![Op::Configure], false);
    assert!(sel.prepare && sel.configure && !sel.build && !sel.install && !sel.sync);
    let (executed, _) = run(&sel, true, no_gates());
    assert_eq!(executed, vec![Stage::Prepare, Stage::Configure]);
}

#[test]
fn sync_implies_no_stage() {
    let sel = select_stages(&vec![Op::Sync], false);
    assert!(!sel.prepare && !sel.configure && !sel.build && !sel.install && sel.sync);
    let (executed, _) = run(&sel, true, no_gates());
    assert!(executed.is_empty());
}

#[test]
fn second_run_executes_nothing() {
    let sel = select_stages(&vec![Op::Build], false);
    let (first, g) = run(&sel, true, no_gates());
    assert_eq!(first, vec![Stage::Prepare, Stage::Configure, Stage::Build]);
    let (second, _) = run(&sel, true, g);
    assert!(second.is_empty());
}

#[test]
fn forced_configure_invalidates_build_directory() {
    let sel = select_stages(&vec![Op::Configure, Op::Install], true);
    let a = stage_action(&sel, Stage::Configure, true, &all_gates());
    assert_eq!(a.invalidate, Invalidation::RemoveBuildDir);
    assert!(a.execute);
    let g = apply_action(&all_gates(), Stage::Configure, &a);
    assert!(g.prepared && g.configured && !g.built && !g.installed);
    let (executed, _) = run(&sel, true, all_gates());
    assert_eq!(executed, vec![Stage::Configure, Stage::Build, Stage::Install]);
}

#[test]
fn forced_build_removes_its_gate_only() {
    let sel = select_stages(&vec![Op::Build, Op::Install, Op::Sync], true);
    assert!(sel.force_build && sel.force_install && !sel.force_configure && !sel.force_prepare);
    let a = stage_action(&sel, Stage::Build, true, &all_gates());
    assert_eq!(a.invalidate, Invalidation::RemoveGate);
    let (executed, _) = run(&sel, true, all_gates());
    assert_eq!(executed, vec![Stage::Build, Stage::Install]);
}

#[test]
fn dependency_runs_all_stages_unforced() {
    let sel = select_stages(&vec![Op::Configure], true);
    let (executed, g) = run(&sel, false, no_gates());
    assert_eq!(executed, ORDER.to_vec());
    let (again, _) = run(&sel, false, g);
    assert!(again.is_empty());
}

#[test]
fn unrequested_stage_is_skipped() {
    let sel = select_stages(&vec![Op::Prepare], true);
    let a = stage_action(&sel, Stage::Build, true, &no_gates());
    assert_eq!(a.invalidate, Invalidation::Nothing);
    assert!(!a.execute);
}
