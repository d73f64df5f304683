use proxy_dll::generator::{generate, GenError, ModuleTarget, SymbolRef};
use proxy_dll::manifest::parse_manifest;

fn target(lib: &str, manifest: &str) -> ModuleTarget {
    ModuleTarget {
        library_name: lib.to_string(),
        exports: parse_manifest(manifest).unwrap(),
    }
}

#[test]
fn ordinal_and_named_stubs_share_one_table() {
    // Manifest `foo @1 NONAME`, `bar`: stub `bar` resolves by name, the
    // anonymous ordinal-1 stub keeps the internal name `foo`; table size 2;
    // slot 0 resolves by ordinal, slot 1 by name.
    let g = generate(&vec![target("winmm.dll", "foo @1 NONAME\nbar")]).unwrap();
    assert_eq!(g.plans.len(), 1);
    assert_eq!(g.plans[0].library_name, "winmm.dll");
    assert_eq!(g.plans[0].symbols.len(), 2);
    assert_eq!(g.plans[0].symbols[0], SymbolRef::ByOrdinal(1));
    assert_eq!(g.plans[0].symbols[1], SymbolRef::ByName("bar".to_string()));
    assert_eq!(g.stubs.len(), 2);
    assert_eq!(g.stubs[0].name, "foo");
    assert_eq!(g.stubs[0].target_index, 0);
    assert_eq!(g.stubs[0].slot_index, 0);
    assert_eq!(g.stubs[1].name, "bar");
    assert_eq!(g.stubs[1].target_index, 0);
    assert_eq!(g.stubs[1].slot_index, 1);
}

#[test]
fn dllmain_is_never_forwarded() {
    let g = generate(&vec![target("a.dll", "alpha\nDllMain\nbeta\n")]).unwrap();
    let names: Vec<&str> = g.stubs.iter().map(|s| s.name.as_str()).collect();
    assert_eq!(names, ["alpha", "beta"]);
    assert_eq!(g.stubs[0].slot_index, 0);
    assert_eq!(g.stubs[1].slot_index, 1);
    assert_eq!(g.plans[0].symbols.len(), 2);
}

#[test]
fn table_size_is_named_plus_ordinal_only() {
    // 2 named + 2 ordinal-only exports: table size 4, all slots distinct.
    let g = generate(&vec![target("t.dll", "n1\nn2\no1 @1 NONAME\no2 @2 NONAME\n")]).unwrap();
    assert_eq!(g.plans[0].symbols.len(), 4);
    let mut slots: Vec<usize> = g.stubs.iter().map(|s| s.slot_index).collect();
    slots.sort();
    assert_eq!(slots, [0, 1, 2, 3]);
}

#[test]
fn rerunning_generation_yields_identical_slots() {
    let ts = vec![target("a.dll", "x\ny @9\nz @2 NONAME\n"), target("b.dll", "w\n")];
    let g1 = generate(&ts).unwrap();
    let g2 = generate(&ts).unwrap();
    assert_eq!(g1, g2);
}

#[test]
fn multiple_targets_get_independent_regions() {
    let g = generate(&vec![target("a.dll", "f1\nf2\n"), target("b.dll", "g1\n")]).unwrap();
    assert_eq!(g.plans.len(), 2);
    assert_eq!(g.plans[0].symbols.len(), 2);
    assert_eq!(g.plans[1].symbols.len(), 1);
    assert_eq!(g.stubs.len(), 3);
    assert_eq!((g.stubs[2].target_index, g.stubs[2].slot_index), (1, 0));
    assert_eq!(g.stubs[2].name, "g1");
}

#[test]
fn target_with_no_forwardable_export_is_an_error() {
    let r = generate(&vec![target("a.dll", "DllMain\n")]);
    assert_eq!(r.unwrap_err(), GenError::EmptyTarget(0));
    let r2 = generate(&vec![target("a.dll", "ok\n"), target("b.dll", "; nothing\n")]);
    assert_eq!(r2.unwrap_err(), GenError::EmptyTarget(1));
}

#[test]
fn duplicate_export_name_is_an_error() {
    let r = generate(&vec![target("a.dll", "same\n"), target("b.dll", "same\n")]);
    assert_eq!(r.unwrap_err(), GenError::DuplicateName("same".to_string()));
    let r2 = generate(&vec![target("a.dll", "twice\ntwice\n")]);
    assert_eq!(r2.unwrap_err(), GenError::DuplicateName("twice".to_string()));
}
