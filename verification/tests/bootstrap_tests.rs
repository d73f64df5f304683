use proxy_dll::bootstrap::{Bootstrap, Directive, LifecycleState};
use proxy_dll::generator::{generate, ModuleTarget};
use proxy_dll::manifest::parse_manifest;

fn plans_for(manifests: &[(&str, &str)]) -> Vec<proxy_dll::generator::TargetPlan> {
    let targets: Vec<ModuleTarget> = manifests
        .iter()
        .map(|(lib, m)| ModuleTarget {
            library_name: lib.to_string(),
            exports: parse_manifest(m).unwrap(),
        })
        .collect();
    generate(&targets).unwrap().plans
}

#[test]
fn attach_success_reaches_ready_with_one_callback() {
    // Simulated attach with a stub loader/resolver: every load and
    // resolution succeeds; arming happens exactly once, after the full
    // table is populated.
    let mut b = Bootstrap::new(plans_for(&[("winmm.dll", "foo\nbar @1 NONAME\n")]));
    let mut arm_calls = 0;
    let mut d = b.on_attach(true);
    let mut fake_addr = 100u64;
    loop {
        match d {
            Directive::LoadTarget { target } => {
                assert!(target == 0);
                d = b.on_load_result(7);
            }
            Directive::ResolveSymbol { .. } => {
                d = b.on_resolve_result(fake_addr);
                fake_addr += 1;
            }
            Directive::ArmCallback => {
                arm_calls += 1;
                d = b.on_callback_armed();
            }
            Directive::Terminate => panic!("attach must not terminate"),
            Directive::Idle => break,
        }
    }
    assert_eq!(arm_calls, 1);
    assert_eq!(b.state, LifecycleState::Ready);
    assert_eq!(b.armed_count, 1);
    assert_eq!(b.handles, vec![7]);
    assert_eq!(b.table, vec![vec![100, 101]]);
}

#[test]
fn resolution_follows_slot_order_across_targets() {
    let mut b = Bootstrap::new(plans_for(&[("a.dll", "f1\nf2\n"), ("b.dll", "g1\n")]));
    assert_eq!(b.on_attach(true), Directive::LoadTarget { target: 0 });
    assert_eq!(b.on_load_result(11), Directive::LoadTarget { target: 1 });
    assert_eq!(b.on_load_result(22), Directive::ResolveSymbol { target: 0, slot: 0 });
    assert_eq!(b.on_resolve_result(201), Directive::ResolveSymbol { target: 0, slot: 1 });
    assert_eq!(b.on_resolve_result(202), Directive::ResolveSymbol { target: 1, slot: 0 });
    assert_eq!(b.on_resolve_result(203), Directive::ArmCallback);
    assert_eq!(b.on_callback_armed(), Directive::Idle);
    assert_eq!(b.state, LifecycleState::Ready);
    assert_eq!(b.table, vec![vec![201, 202], vec![203]]);
}

#[test]
fn load_failure_terminates_before_any_slot_or_callback() {
    let mut b = Bootstrap::new(plans_for(&[("winmm.dll", "foo\n")]));
    assert_eq!(b.on_attach(true), Directive::LoadTarget { target: 0 });
    let d = b.on_load_result(0);
    assert_eq!(d, Directive::Terminate);
    assert_eq!(b.state, LifecycleState::Terminated);
    assert!(b.table.is_empty());
    assert_eq!(b.armed_count, 0);
}

#[test]
fn missing_system_directory_terminates() {
    let mut b = Bootstrap::new(plans_for(&[("winmm.dll", "foo\n")]));
    let d = b.on_attach(false);
    assert_eq!(d, Directive::Terminate);
    assert_eq!(b.state, LifecycleState::Terminated);
    assert!(b.table.is_empty());
    assert_eq!(b.armed_count, 0);
}

#[test]
fn resolution_failure_terminates_without_arming() {
    let mut b = Bootstrap::new(plans_for(&[("winmm.dll", "foo\nbar\n")]));
    b.on_attach(true);
    b.on_load_result(7);
    assert_eq!(b.on_resolve_result(0), Directive::Terminate);
    assert_eq!(b.state, LifecycleState::Terminated);
    assert_eq!(b.armed_count, 0);
}

#[test]
fn second_attach_is_a_no_op() {
    let mut b = Bootstrap::new(plans_for(&[("winmm.dll", "foo\n")]));
    b.on_attach(true);
    b.on_load_result(7);
    b.on_resolve_result(100);
    b.on_callback_armed();
    let before_state = b.state;
    assert_eq!(b.on_attach(true), Directive::Idle);
    assert_eq!(b.state, before_state);
    assert_eq!(b.armed_count, 1);
}

#[test]
fn detach_releases_every_handle_exactly_once() {
    let mut b = Bootstrap::new(plans_for(&[("a.dll", "f\n"), ("b.dll", "g\n")]));
    b.on_attach(true);
    b.on_load_result(31);
    b.on_load_result(32);
    b.on_resolve_result(100);
    b.on_resolve_result(101);
    b.on_callback_armed();
    let freed = b.on_detach();
    assert_eq!(freed, vec![31, 32]);
    assert_eq!(b.state, LifecycleState::Unloaded);
    assert!(b.handles.is_empty());
    // A second detach has nothing left to release.
    assert!(b.on_detach().is_empty());
}

#[test]
fn detach_without_attach_is_a_no_op() {
    let mut b = Bootstrap::new(plans_for(&[("winmm.dll", "foo\n")]));
    let freed = b.on_detach();
    assert!(freed.is_empty());
    assert_eq!(b.state, LifecycleState::Unloaded);
}
