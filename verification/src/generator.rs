//! The stub set generator: the offline pass that turns parsed export
//! manifests into one forwarding stub per exported symbol, plus the
//! per-target resolution plan that fills the forward table at load time.
//!
//! Slot indices are assigned in manifest order, skipping `DllMain` (the
//! proxy supplies its own); generator and bootstrap share this order.

use vstd::prelude::*;

use crate::manifest::{desc_wf, descs_view, ExportDescriptor, ExportKind, ExportSpec};

verus! {

/// The models of a sequence of viewable values.
pub open spec fn seq_views<T: View>(s: Seq<T>) -> Seq<T::V> {
    s.map_values(|x: T| x@)
}

/// How one table slot is resolved in the real library at load time.
#[derive(Clone, Debug, PartialEq)]
pub enum SymbolRef {
    ByName(String),
    ByOrdinal(u16),
}

/// Mathematical model of a resolution instruction.
pub enum SymbolRefSpec {
    ByName(Seq<char>),
    ByOrdinal(u16),
}

impl View for SymbolRef {
    type V = SymbolRefSpec;

    open spec fn view(&self) -> SymbolRefSpec {
        match self {
            SymbolRef::ByName(n) => SymbolRefSpec::ByName(n@),
            SymbolRef::ByOrdinal(o) => SymbolRefSpec::ByOrdinal(*o),
        }
    }
}

/// One real library to proxy: its file name and its manifest's exports,
/// in manifest order.
#[derive(Clone, Debug, PartialEq)]
pub struct ModuleTarget {
    pub library_name: String,
    pub exports: Vec<ExportDescriptor>,
}

/// Mathematical model of a target.
pub struct TargetSpec {
    pub library_name: Seq<char>,
    pub exports: Seq<ExportSpec>,
}

impl View for ModuleTarget {
    type V = TargetSpec;

    open spec fn view(&self) -> TargetSpec {
        TargetSpec { library_name: self.library_name@, exports: descs_view(self.exports@) }
    }
}

/// A target's resolution plan: slot `i` of its table region is filled by
/// looking up `symbols[i]` in the loaded real library.
#[derive(Clone, Debug, PartialEq)]
pub struct TargetPlan {
    pub library_name: String,
    pub symbols: Vec<SymbolRef>,
}

/// Mathematical model of a resolution plan.
pub struct PlanSpec {
    pub library_name: Seq<char>,
    pub symbols: Seq<SymbolRefSpec>,
}

impl View for TargetPlan {
    type V = PlanSpec;

    open spec fn view(&self) -> PlanSpec {
        PlanSpec { library_name: self.library_name@, symbols: seq_views(self.symbols@) }
    }
}

/// One forwarding stub to emit: an exported function named `name` that
/// tail-jumps through table slot `(target_index, slot_index)`.
#[derive(Clone, Debug, PartialEq)]
pub struct StubSpec {
    pub name: String,
    pub target_index: usize,
    pub slot_index: usize,
}

/// Mathematical model of a stub.
pub struct StubView {
    pub name: Seq<char>,
    pub target_index: int,
    pub slot_index: int,
}

impl View for StubSpec {
    type V = StubView;

    open spec fn view(&self) -> StubView {
        StubView {
            name: self.name@,
            target_index: self.target_index as int,
            slot_index: self.slot_index as int,
        }
    }
}

/// Everything the generator emits: the stubs of all targets, flattened in
/// target order, and one resolution plan per target.
#[derive(Clone, Debug, PartialEq)]
pub struct GeneratedSet {
    pub stubs: Vec<StubSpec>,
    pub plans: Vec<TargetPlan>,
}

/// Why generation failed.
#[derive(Clone, Debug, PartialEq)]
pub enum GenError {
    /// The target at this index has no forwardable export.
    EmptyTarget(usize),
    /// This exported name occurs more than once across all targets.
    DuplicateName(String),
}

/// The proxy's own lifecycle entry point, never forwarded.
pub open spec fn dllmain_name() -> Seq<char> {
    "DllMain"@
}

/// Whether an export gets a stub: everything but `DllMain`.
pub open spec fn forwardable(d: ExportSpec) -> bool {
    d.name != dllmain_name()
}

/// The forwardable exports of a manifest, in manifest order.
pub open spec fn fwd_exports(s: Seq<ExportSpec>) -> Seq<ExportSpec>
    decreases s.len(),
{
    if s.len() == 0 {
        Seq::empty()
    } else {
        fwd_exports(s.drop_last()) + (if forwardable(s.last()) {
            seq![s.last()]
        } else {
            Seq::<ExportSpec>::empty()
        })
    }
}

/// How the bootstrap resolves one export: by ordinal when it is
/// ordinal-only, else by name.
pub open spec fn lookup_of(d: ExportSpec) -> SymbolRefSpec {
    if d.kind == ExportKind::OrdinalOnly {
        SymbolRefSpec::ByOrdinal(d.ordinal.unwrap())
    } else {
        SymbolRefSpec::ByName(d.name)
    }
}

/// The resolution instructions of one target: slot `j` resolves export `j`.
pub open spec fn plan_symbols(ds: Seq<ExportSpec>) -> Seq<SymbolRefSpec> {
    Seq::new(ds.len(), |j: int| lookup_of(ds[j]))
}

/// The stubs of one target: stub `j` carries export `j`'s name and slot `j`.
pub open spec fn stubs_for(t: int, ds: Seq<ExportSpec>) -> Seq<StubView> {
    Seq::new(ds.len(), |j: int| StubView { name: ds[j].name, target_index: t, slot_index: j })
}

/// The names of one target's forwardable exports, in slot order.
pub open spec fn fwd_names(ds: Seq<ExportSpec>) -> Seq<Seq<char>> {
    Seq::new(ds.len(), |j: int| ds[j].name)
}

/// All stubs of all targets, flattened in target order.
pub open spec fn all_stubs(ts: Seq<TargetSpec>) -> Seq<StubView>
    decreases ts.len(),
{
    if ts.len() == 0 {
        Seq::empty()
    } else {
        all_stubs(ts.drop_last()) + stubs_for(
            ts.len() - 1,
            fwd_exports(ts.last().exports),
        )
    }
}

/// All exported stub names of all targets, flattened in target order.
pub open spec fn all_names(ts: Seq<TargetSpec>) -> Seq<Seq<char>>
    decreases ts.len(),
{
    if ts.len() == 0 {
        Seq::empty()
    } else {
        all_names(ts.drop_last()) + fwd_names(fwd_exports(ts.last().exports))
    }
}

/// No name occurs twice.
pub open spec fn names_distinct(ns: Seq<Seq<char>>) -> bool {
    forall|i: int, j: int| 0 <= i < j < ns.len() ==> ns[i] != ns[j]
}

/// Every export descriptor of every target satisfies its invariant.
pub open spec fn targets_wf(ts: Seq<TargetSpec>) -> bool {
    forall|t: int, k: int|
        0 <= t < ts.len() && 0 <= k < ts[t].exports.len() ==> desc_wf(#[trigger] ts[t].exports[k])
}

/// When the generator accepts its input: every target keeps at least one
/// forwardable export, and no exported name repeats across targets.
pub open spec fn gen_accepts(ts: Seq<TargetSpec>) -> bool {
    &&& forall|t: int|
        0 <= t < ts.len() ==> #[trigger] fwd_exports(ts[t].exports).len() > 0
    &&& names_distinct(all_names(ts))
}

/// Stub names and the flat name list align: position for position, the name
/// list holds exactly the stubs' names.
pub proof fn lemma_names_align(ts: Seq<TargetSpec>)
    ensures
        all_names(ts).len() == all_stubs(ts).len(),
        forall|m: int| 0 <= m < all_stubs(ts).len() ==> all_names(ts)[m] == all_stubs(ts)[m].name,
    decreases ts.len(),
{
    if ts.len() > 0 {
        lemma_names_align(ts.drop_last());
    }
}

/// Where each stub sits in the flat stub list: target `t`'s block starts at
/// the length of the preceding targets' stubs, and its `k`-th entry carries
/// the `k`-th forwardable export's name at slot `k`.
pub proof fn lemma_stub_index(ts: Seq<TargetSpec>, t: int, k: int)
    requires
        0 <= t < ts.len(),
        0 <= k < fwd_exports(ts[t].exports).len(),
    ensures
        ({
            let e = fwd_exports(ts[t].exports)[k];
            let off = all_stubs(ts.take(t)).len();
            &&& off + k < all_stubs(ts).len()
            &&& all_stubs(ts)[off + k] == (StubView {
                name: e.name,
                target_index: t,
                slot_index: k,
            })
        }),
    decreases ts.len(),
{
    if t == ts.len() - 1 {
        assert(ts.take(t) =~= ts.drop_last());
    } else {
        lemma_stub_index(ts.drop_last(), t, k);
        assert(ts.drop_last().take(t) =~= ts.take(t));
        assert(ts.drop_last()[t] == ts[t]);
    }
}

/// For every export of a target's manifest except `DllMain` there is exactly
/// one generated stub — it carries that export's name, belongs to that
/// target, and sits at the export's slot — and exactly one resolution
/// instruction at the same slot, by ordinal for an ordinal-only export and
/// by name otherwise.
pub proof fn lemma_one_stub_per_export(ts: Seq<TargetSpec>, t: int, k: int)
    requires
        gen_accepts(ts),
        0 <= t < ts.len(),
        0 <= k < fwd_exports(ts[t].exports).len(),
    ensures
        ({
            let e = fwd_exports(ts[t].exports)[k];
            let off = all_stubs(ts.take(t)).len();
            &&& off + k < all_stubs(ts).len()
            &&& all_stubs(ts)[off + k] == (StubView {
                name: e.name,
                target_index: t,
                slot_index: k,
            })
            &&& plan_symbols(fwd_exports(ts[t].exports))[k] == lookup_of(e)
            &&& forall|m: int|
                0 <= m < all_stubs(ts).len() && all_stubs(ts)[m].name == e.name ==> m == off + k
        }),
{
    lemma_stub_index(ts, t, k);
    lemma_names_align(ts);
    let e = fwd_exports(ts[t].exports)[k];
    let off = all_stubs(ts.take(t)).len();
    assert forall|m: int|
        0 <= m < all_stubs(ts).len() && all_stubs(ts)[m].name == e.name implies m == off + k by {
        if m != off + k {
            assert(all_names(ts)[m] == all_stubs(ts)[m].name);
            assert(all_names(ts)[off + k] == e.name);
            if m < off + k {
                assert(all_names(ts)[m] != all_names(ts)[off + k]);
            } else {
                assert(all_names(ts)[off + k] != all_names(ts)[m]);
            }
        }
    };
}

/// Slot assignment is deterministic and order-preserving: the generated
/// stubs, names and resolution instructions are a function of the manifests
/// alone — re-running the generator on an unchanged input yields identical
/// slot assignments — and stub `k` of each target holds exactly slot `k`.
pub proof fn lemma_generation_deterministic(ts: Seq<TargetSpec>, us: Seq<TargetSpec>)
    requires
        ts == us,
    ensures
        all_stubs(ts) == all_stubs(us),
        all_names(ts) == all_names(us),
        forall|t: int|
            0 <= t < ts.len() ==> plan_symbols(fwd_exports((#[trigger] ts[t]).exports))
                == plan_symbols(fwd_exports(us[t].exports)),
        forall|t: int, k: int|
            0 <= t < ts.len() && 0 <= k < fwd_exports(ts[t].exports).len() ==> (#[trigger]
            stubs_for(t, fwd_exports(ts[t].exports))[k]).slot_index == k,
{
}

/// How many exports resolve by name.
pub open spec fn count_named(ds: Seq<ExportSpec>) -> int
    decreases ds.len(),
{
    if ds.len() == 0 {
        0
    } else {
        count_named(ds.drop_last()) + (if ds.last().kind == ExportKind::Named {
            1int
        } else {
            0int
        })
    }
}

/// How many exports are ordinal-only.
pub open spec fn count_ordinal(ds: Seq<ExportSpec>) -> int
    decreases ds.len(),
{
    if ds.len() == 0 {
        0
    } else {
        count_ordinal(ds.drop_last()) + (if ds.last().kind == ExportKind::OrdinalOnly {
            1int
        } else {
            0int
        })
    }
}

/// For a manifest of N named and M ordinal-only exports, none of them
/// `DllMain`, the generated table region has exactly N + M slots, and no
/// two exports share a slot.
pub proof fn lemma_table_size(ds: Seq<ExportSpec>, t: int)
    requires
        forall|k: int| 0 <= k < ds.len() ==> forwardable(#[trigger] ds[k]),
    ensures
        fwd_exports(ds) == ds,
        plan_symbols(fwd_exports(ds)).len() == count_named(ds) + count_ordinal(ds),
        count_named(ds) + count_ordinal(ds) == ds.len(),
        forall|k1: int, k2: int|
            0 <= k1 < k2 < fwd_exports(ds).len() ==> (#[trigger] stubs_for(
                t,
                fwd_exports(ds),
            )[k1]).slot_index != (#[trigger] stubs_for(t, fwd_exports(ds))[k2]).slot_index,
    decreases ds.len(),
{
    if ds.len() > 0 {
        lemma_table_size(ds.drop_last(), t);
        assert(ds.last().kind == ExportKind::Named || ds.last().kind == ExportKind::OrdinalOnly);
        assert(fwd_exports(ds) =~= ds);
    }
}

/// What the generator's acceptance hands the bootstrap: every emitted
/// resolution plan holds at least one slot, which is exactly what the
/// lifecycle controller requires of its plans.
pub proof fn lemma_generated_plans_nonempty(ts: Seq<TargetSpec>, t: int)
    requires
        gen_accepts(ts),
        0 <= t < ts.len(),
    ensures
        plan_symbols(fwd_exports(ts[t].exports)).len() >= 1,
{
}

/// The build-time generation pass. For each target it walks the manifest's
/// exports in order, skips `DllMain`, and emits at slot `i` one stub named
/// after the `i`-th forwardable export together with one resolution
/// instruction (by ordinal for ordinal-only exports, else by name).
/// Fails with `EmptyTarget` on the first target with no forwardable export,
/// else with `DuplicateName` when one exported name repeats across targets.
pub fn generate(targets: &Vec<ModuleTarget>) -> (r: Result<GeneratedSet, GenError>)
    requires
        targets_wf(seq_views(targets@)),
    ensures
        r is Ok <==> gen_accepts(seq_views(targets@)),
        match r {
            Ok(g) => {
                let ts = seq_views(targets@);
                &&& g.plans@.len() == ts.len()
                &&& forall|t: int|
                    0 <= t < ts.len() ==> (#[trigger] g.plans@[t]@).library_name
                        == ts[t].library_name && g.plans@[t]@.symbols == plan_symbols(
                        fwd_exports(ts[t].exports),
                    )
                &&& seq_views(g.stubs@) == all_stubs(ts)
            },
            Err(GenError::EmptyTarget(t)) => {
                let ts = seq_views(targets@);
                &&& t < ts.len()
                &&& fwd_exports(ts[t as int].exports).len() == 0
                &&& forall|u: int|
                    0 <= u < t ==> #[trigger] fwd_exports(ts[u].exports).len() > 0
            },
            Err(GenError::DuplicateName(n)) => {
                let ts = seq_views(targets@);
                &&& forall|t: int|
                    0 <= t < ts.len() ==> #[trigger] fwd_exports(ts[t].exports).len() > 0
                &&& exists|i: int, j: int|
                    0 <= i < j < all_names(ts).len() && all_names(ts)[i] == all_names(ts)[j]
                        && all_names(ts)[j] == n@
            },
        },
{
    let ghost ts = seq_views(targets@);
    let dllmain = String::from_str("DllMain");
    let mut stubs: Vec<StubSpec> = Vec::new();
    let mut plans: Vec<TargetPlan> = Vec::new();
    let mut names: Vec<String> = Vec::new();
    let mut t: usize = 0;
    proof {
        assert(seq_views(stubs@) =~= all_stubs(ts.take(0)));
        assert(seq_views(names@) =~= all_names(ts.take(0)));
    }
    while t < targets.len()
        invariant
            ts == seq_views(targets@),
            targets_wf(ts),
            t <= targets@.len(),
            dllmain@ == dllmain_name(),
            plans@.len() == t,
            forall|u: int|
                0 <= u < t ==> (#[trigger] plans@[u]@).library_name == ts[u].library_name
                    && plans@[u]@.symbols == plan_symbols(fwd_exports(ts[u].exports)),
            seq_views(stubs@) == all_stubs(ts.take(t as int)),
            seq_views(names@) == all_names(ts.take(t as int)),
            forall|u: int| 0 <= u < t ==> #[trigger] fwd_exports(ts[u].exports).len() > 0,
        decreases targets@.len() - t,
    {
        let target = &targets[t];
        let ghost exs = descs_view(target.exports@);
        proof {
            assert(ts[t as int] == targets@[t as int]@);
            assert(ts[t as int].exports == exs);
        }
        let mut syms: Vec<SymbolRef> = Vec::new();
        let mut k: usize = 0;
        proof {
            assert(exs.take(0) =~= Seq::<ExportSpec>::empty());
            assert(seq_views(syms@) =~= plan_symbols(fwd_exports(exs.take(0))));
            assert(fwd_names(fwd_exports(exs.take(0))) =~= Seq::<Seq<char>>::empty());
            assert(seq_views(names@) =~= all_names(ts.take(t as int)) + fwd_names(
                fwd_exports(exs.take(0)),
            ));
            assert(stubs_for(t as int, fwd_exports(exs.take(0))) =~= Seq::<StubView>::empty());
            assert(seq_views(stubs@) =~= all_stubs(ts.take(t as int)) + stubs_for(
                t as int,
                fwd_exports(exs.take(0)),
            ));
        }
        while k < target.exports.len()
            invariant
                ts == seq_views(targets@),
                targets_wf(ts),
                t < targets@.len(),
                ts[t as int].exports == exs,
                exs == descs_view(target.exports@),
                target == targets@[t as int],
                k <= target.exports@.len(),
                exs.len() == target.exports@.len(),
                dllmain@ == dllmain_name(),
                syms@.len() == fwd_exports(exs.take(k as int)).len(),
                seq_views(syms@) == plan_symbols(fwd_exports(exs.take(k as int))),
                seq_views(stubs@) == all_stubs(ts.take(t as int)) + stubs_for(
                    t as int,
                    fwd_exports(exs.take(k as int)),
                ),
                seq_views(names@) == all_names(ts.take(t as int)) + fwd_names(
                    fwd_exports(exs.take(k as int)),
                ),
            decreases target.exports@.len() - k,
        {
            let d = &target.exports[k];
            proof {
                assert(exs[k as int] == d@);
                assert(exs.take(k + 1).drop_last() =~= exs.take(k as int));
                assert(exs.take(k + 1).last() == exs[k as int]);
            }
            if !(d.name == dllmain) {
                let ghost fk = fwd_exports(exs.take(k as int));
                proof {
                    assert(forwardable(d@));
                    assert(fwd_exports(exs.take(k + 1)) =~= fk.push(d@));
                    assert(targets_wf(ts));
                    assert(desc_wf(ts[t as int].exports[k as int]));
                }
                let sym = if let ExportKind::OrdinalOnly = d.kind {
                    SymbolRef::ByOrdinal(d.ordinal.unwrap())
                } else {
                    SymbolRef::ByName(d.name.clone())
                };
                proof {
                    assert(sym@ == lookup_of(d@));
                    assert(plan_symbols(fk.push(d@)) =~~= plan_symbols(fk).push(lookup_of(d@)));
                    assert(stubs_for(t as int, fk.push(d@)) =~~= stubs_for(t as int, fk).push(
                        StubView { name: d@.name, target_index: t as int, slot_index: fk.len() as int },
                    ));
                    assert(fwd_names(fk.push(d@)) =~~= fwd_names(fk).push(d@.name));
                }
                let stub = StubSpec { name: d.name.clone(), target_index: t, slot_index: syms.len() };
                proof {
                    assert(stub@ == (StubView {
                        name: d@.name,
                        target_index: t as int,
                        slot_index: fk.len() as int,
                    }));
                }
                let ghost pre_stubs = stubs@;
                let ghost pre_names = names@;
                let ghost pre_syms = syms@;
                stubs.push(stub);
                names.push(d.name.clone());
                syms.push(sym);
                proof {
                    assert(seq_views(stubs@) =~~= seq_views(pre_stubs).push(stub@));
                    assert(seq_views(names@) =~~= seq_views(pre_names).push(d@.name));
                    assert(seq_views(syms@) =~~= seq_views(pre_syms).push(sym@));
                    assert(seq_views(pre_stubs).push(stub@) =~~= all_stubs(ts.take(t as int))
                        + stubs_for(t as int, fk).push(stub@));
                    assert(seq_views(pre_names).push(d@.name) =~~= all_names(ts.take(t as int))
                        + fwd_names(fk).push(d@.name));
                    assert(seq_views(stubs@) =~~= all_stubs(ts.take(t as int)) + stubs_for(
                        t as int,
                        fwd_exports(exs.take(k + 1)),
                    ));
                    assert(seq_views(names@) =~~= all_names(ts.take(t as int)) + fwd_names(
                        fwd_exports(exs.take(k + 1)),
                    ));
                    assert(seq_views(syms@) =~~= plan_symbols(fwd_exports(exs.take(k + 1))));
                }
            } else {
                proof {
                    assert(!forwardable(d@));
                    assert(fwd_exports(exs.take(k + 1)) =~= fwd_exports(exs.take(k as int)));
                }
            }
            k += 1;
        }
        proof {
            assert(exs.take(exs.len() as int) =~= exs);
        }
        if syms.len() == 0 {
            return Err(GenError::EmptyTarget(t));
        }
        let plan = TargetPlan { library_name: target.library_name.clone(), symbols: syms };
        plans.push(plan);
        proof {
            assert(ts.take(t + 1).drop_last() =~= ts.take(t as int));
            assert(ts.take(t + 1).last() == ts[t as int]);
            assert(seq_views(stubs@) =~~= all_stubs(ts.take(t + 1)));
            assert(seq_views(names@) =~~= all_names(ts.take(t + 1)));
        }
        t += 1;
    }
    proof {
        assert(ts.take(ts.len() as int) =~= ts);
    }
    let mut j: usize = 0;
    while j < names.len()
        invariant
            ts == seq_views(targets@),
            seq_views(names@) == all_names(ts),
            forall|u: int| 0 <= u < ts.len() ==> #[trigger] fwd_exports(ts[u].exports).len() > 0,
            forall|a: int, b: int|
                0 <= a < b < j ==> seq_views(names@)[a] != seq_views(names@)[b],
        decreases names@.len() - j,
    {
        let mut i: usize = 0;
        while i < j
            invariant
                ts == seq_views(targets@),
                j < names@.len(),
                i <= j,
                seq_views(names@) == all_names(ts),
                forall|u: int|
                    0 <= u < ts.len() ==> #[trigger] fwd_exports(ts[u].exports).len() > 0,
                forall|a: int| 0 <= a < i ==> seq_views(names@)[a] != seq_views(names@)[j as int],
            decreases j - i,
        {
            if names[i] == names[j] {
                proof {
                    let gi = i as int;
                    let gj = j as int;
                    assert(seq_views(names@).len() == names@.len());
                    assert(all_names(ts)[gi] == all_names(ts)[gj]);
                    assert(all_names(ts)[gj] == names@[gj]@);
                    assert(0 <= gi < gj < all_names(ts).len() && all_names(ts)[gi] == all_names(
                        ts,
                    )[gj] && all_names(ts)[gj] == names@[gj]@);
                    assert(!names_distinct(all_names(ts)));
                }
                return Err(GenError::DuplicateName(names[j].clone()));
            }
            i += 1;
        }
        j += 1;
    }
    Ok(GeneratedSet { stubs, plans })
}

} // verus!
