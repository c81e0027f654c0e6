use vstd::prelude::*;
use crate::arch::Architecture;
use crate::detect::{DetectionMode, DetectorView};
use crate::dispatch::{CallShape, Strategy};
use crate::emit::{
    cfg_not_any_arch, detection_text, feature_fn_name, not_target_arch_text, quote_text, quoted,
    target_arch_text, version_name,
};
use crate::table::{
    candidate, first_match, lemma_default_overridden, lemma_first_match, viable, winner,
    DispatchTable,
};
use crate::target::{Target, TargetView};

verus! {

/// What a guard stands for.
pub struct GuardView {
    pub entry: int,
    pub target_arch: Seq<char>,
    pub features_detected: Seq<char>,
    pub function: Seq<char>,
}

/// One link of the chain of a dispatcher: where the code is compiled at
/// all, what it asks at a call, and the function it goes to.
#[derive(Debug)]
pub struct Guard {
    /// The position of the entry in the table.
    pub entry: usize,
    /// The attribute that admits the guard on the architectures of the
    /// entry only.
    pub target_arch: String,
    /// The expression that tells whether the features are usable.
    pub features_detected: String,
    /// The name of the function that holds the implementation.
    pub function: String,
}

impl View for Guard {
    type V = GuardView;

    open spec fn view(&self) -> GuardView {
        GuardView {
            entry: self.entry as int,
            target_arch: self.target_arch@,
            features_detected: self.features_detected@,
            function: self.function@,
        }
    }
}

impl DeepView for Guard {
    type V = GuardView;

    open spec fn deep_view(&self) -> GuardView {
        self@
    }
}

/// What the dispatcher of a call site is made of.
#[derive(Debug)]
pub struct DispatchPlan {
    /// Whether the dispatcher caches what it resolved.
    pub strategy: Strategy,
    /// The guards, in the order in which they are asked.
    pub guards: Vec<Guard>,
    /// The name of the function that runs where no guard passes.
    pub fallback: String,
}

/// The guard of the entry at position `entry`, whose target is `t`.
pub open spec fn guard_for(t: TargetView, entry: int, ident: Seq<char>, mode: DetectionMode)
    -> GuardView {
    GuardView {
        entry,
        target_arch: target_arch_text(t.architectures),
        features_detected: detection_text(t, mode),
        function: version_name(ident, Some(t)),
    }
}

/// The guards of a table: one for each entry that requires features, in
/// declaration order. The entries without features get none: on their
/// architectures they are what runs where no guard passes.
pub open spec fn guards_of(targets: Seq<TargetView>, ident: Seq<char>, mode: DetectionMode) -> Seq<
    GuardView,
>
    decreases targets.len(),
{
    if targets.len() == 0 {
        Seq::empty()
    } else {
        let init = guards_of(targets.drop_last(), ident, mode);
        if targets.last().has_features() {
            init.push(guard_for(targets.last(), targets.len() - 1, ident, mode))
        } else {
            init
        }
    }
}

/// The architectures on which an entry without features stands in for
/// the default, entry by entry in declaration order.
pub open spec fn defaulted_architectures(targets: Seq<TargetView>) -> Seq<Architecture>
    decreases targets.len(),
{
    if targets.len() == 0 {
        Seq::empty()
    } else {
        let init = defaulted_architectures(targets.drop_last());
        if targets.last().has_features() {
            init
        } else {
            init + targets.last().architectures
        }
    }
}

/// The default is kept off an architecture exactly where an entry without
/// features lists it, and on those architectures the default never wins.
pub proof fn lemma_defaulted_architectures(
    targets: Seq<TargetView>,
    arch: Architecture,
    detector: DetectorView,
)
    ensures
        defaulted_architectures(targets).contains(arch) <==> exists|k: int|
            0 <= k < targets.len() && !(#[trigger] targets[k]).has_features() && targets[k].lists(
                arch,
            ),
        defaulted_architectures(targets).contains(arch) ==> winner(targets, arch, detector)
            is Some,
    decreases targets.len(),
{
    if targets.len() > 0 {
        let init = targets.drop_last();
        let last = targets.last();
        let before = defaulted_architectures(init);
        let all = defaulted_architectures(targets);
        lemma_defaulted_architectures(init, arch, detector);
        if all.contains(arch) {
            let i = choose|i: int| 0 <= i < all.len() && all[i] == arch;
            if !last.has_features() && i >= before.len() {
                assert(last.architectures[i - before.len()] == arch);
                assert(targets[targets.len() - 1] == last);
            } else {
                assert(before[i] == arch);
                let k = choose|k: int|
                    0 <= k < init.len() && !(#[trigger] init[k]).has_features() && init[k].lists(
                        arch,
                    );
                assert(targets[k] == init[k]);
            }
        }
        if exists|k: int|
            0 <= k < targets.len() && !(#[trigger] targets[k]).has_features() && targets[k].lists(
                arch,
            ) {
            let k = choose|k: int|
                0 <= k < targets.len() && !(#[trigger] targets[k]).has_features()
                    && targets[k].lists(arch);
            if k < init.len() {
                assert(init[k] == targets[k]);
                let i = choose|i: int| 0 <= i < before.len() && before[i] == arch;
                assert(all[i] == arch);
            } else {
                let j = choose|j: int|
                    0 <= j < last.architectures.len() && last.architectures[j] == arch;
                assert(all[before.len() + j] == arch);
            }
            lemma_default_overridden(targets, arch, detector, k);
        }
    }
}

/// The guards stand in the order of the table, each is the guard of its
/// entry, and no entry that requires features is left out.
pub proof fn lemma_guards_of(targets: Seq<TargetView>, ident: Seq<char>, mode: DetectionMode)
    ensures
        forall|k: int|
            0 <= k < guards_of(targets, ident, mode).len() ==> {
                let g = #[trigger] guards_of(targets, ident, mode)[k];
                &&& 0 <= g.entry < targets.len()
                &&& targets[g.entry].has_features()
                &&& g == guard_for(targets[g.entry], g.entry, ident, mode)
            },
        forall|j: int, k: int|
            0 <= j < k < guards_of(targets, ident, mode).len() ==> (#[trigger] guards_of(
                targets,
                ident,
                mode,
            )[j]).entry < (#[trigger] guards_of(targets, ident, mode)[k]).entry,
        forall|i: int|
            0 <= i < targets.len() && (#[trigger] targets[i]).has_features() ==> exists|k: int|
                0 <= k < guards_of(targets, ident, mode).len() && (#[trigger] guards_of(
                    targets,
                    ident,
                    mode,
                )[k]).entry == i,
    decreases targets.len(),
{
    if targets.len() > 0 {
        let init = targets.drop_last();
        let last = targets.len() - 1;
        lemma_guards_of(init, ident, mode);
        let gi = guards_of(init, ident, mode);
        let g = guards_of(targets, ident, mode);
        assert forall|k: int| 0 <= k < gi.len() implies g[k] == gi[k] && 0 <= (#[trigger] gi[k]).entry
            < last && targets[gi[k].entry] == init[gi[k].entry] by {}
        assert forall|i: int|
            0 <= i < targets.len() && (#[trigger] targets[i]).has_features() implies exists|k: int|
            0 <= k < g.len() && (#[trigger] g[k]).entry == i by {
            if i < last {
                assert(init[i] == targets[i]);
                let k = choose|k: int| 0 <= k < gi.len() && (#[trigger] gi[k]).entry == i;
                assert(g[k].entry == i);
            } else {
                assert(g[g.len() - 1].entry == i);
            }
        }
    }
}

/// Asking the guards in their order finds the entry that wins among those
/// that require features, and no guard passes where none of them wins.
pub proof fn lemma_guards_decide(
    targets: Seq<TargetView>,
    ident: Seq<char>,
    mode: DetectionMode,
    arch: Architecture,
    detector: DetectorView,
)
    ensures
        ({
            let guards = guards_of(targets, ident, mode);
            let w = first_match(targets, arch, detector, true);
            if w < targets.len() {
                exists|k: int|
                    {
                        &&& 0 <= k < guards.len()
                        &&& (#[trigger] guards[k]).entry == w
                        &&& viable(targets[w], arch, detector)
                        &&& forall|j: int|
                            0 <= j < k ==> !viable(
                                targets[(#[trigger] guards[j]).entry],
                                arch,
                                detector,
                            )
                    }
            } else {
                forall|k: int|
                    0 <= k < guards.len() ==> !viable(
                        targets[(#[trigger] guards[k]).entry],
                        arch,
                        detector,
                    )
            }
        }),
{
    let guards = guards_of(targets, ident, mode);
    let w = first_match(targets, arch, detector, true);
    lemma_guards_of(targets, ident, mode);
    lemma_first_match(targets, arch, detector, true);
    if w < targets.len() {
        assert(candidate(targets[w], arch, detector, true));
        let k = choose|k: int| 0 <= k < guards.len() && (#[trigger] guards[k]).entry == w;
        assert forall|j: int| 0 <= j < k implies !viable(
            targets[(#[trigger] guards[j]).entry],
            arch,
            detector,
        ) by {
            assert(guards[j].entry < guards[k].entry);
            assert(!candidate(targets[guards[j].entry], arch, detector, true));
        }
    } else {
        assert forall|k: int| 0 <= k < guards.len() implies !viable(
            targets[(#[trigger] guards[k]).entry],
            arch,
            detector,
        ) by {
            assert(!candidate(targets[guards[k].entry], arch, detector, true));
        }
    }
}

/// What a version plan stands for.
pub struct VersionView {
    pub name: Seq<char>,
    pub leading: Seq<Seq<char>>,
    pub trailing: Seq<Seq<char>>,
    pub normalize: bool,
}

/// What the function that holds one version is made of, besides the
/// signature and the body that its author wrote.
#[derive(Debug)]
pub struct VersionPlan {
    /// The name of the function.
    pub name: String,
    /// The attributes that stand before those of the author.
    pub leading: Vec<String>,
    /// The attributes that stand behind those of the author.
    pub trailing: Vec<String>,
    /// Whether the arguments get plain names.
    pub normalize: bool,
}

impl View for VersionPlan {
    type V = VersionView;

    open spec fn view(&self) -> VersionView {
        VersionView {
            name: self.name@,
            leading: self.leading.deep_view(),
            trailing: self.trailing.deep_view(),
            normalize: self.normalize,
        }
    }
}

/// The attribute that marks a function as built for a target.
pub open spec fn target_attribute_text(t: TargetView) -> Seq<char> {
    "#[multiversion::target("@ + quoted(t.canonical_text()) + ")]"@
}

/// The version of `ident` that is built for target `t`. It is marked with
/// its target, inlined where possible and left out of the documentation.
/// Its arguments get plain names only where that was asked for and the
/// target requires features.
pub open spec fn version_of(t: TargetView, ident: Seq<char>, normalize: bool) -> VersionView {
    VersionView {
        name: version_name(ident, Some(t)),
        leading: seq![target_attribute_text(t), "#[inline]"@, "#[doc(hidden)]"@],
        trailing: Seq::empty(),
        normalize: normalize && t.has_features(),
    }
}

/// The default version of `ident`. It is built for no target in
/// particular, always inlined, left out of the documentation, and kept off
/// the architectures on which an entry without features stands in for it.
pub open spec fn default_version_of(targets: Seq<TargetView>, ident: Seq<char>) -> VersionView {
    VersionView {
        name: version_name(ident, None),
        leading: seq!["#[multiversion::target]"@],
        trailing: seq![
            "#[inline(always)]"@,
            "#[doc(hidden)]"@,
            not_target_arch_text(defaulted_architectures(targets)),
        ],
        normalize: false,
    }
}

impl Target {
    /// What the function is made of that holds the version of `ident` for
    /// this target.
    pub fn make_fn(&self, ident: &str, normalize: bool) -> (plan: VersionPlan)
        ensures
            plan@ == version_of(self@, ident@, normalize),
    {
        let mut marker = String::from_str("#[multiversion::target(");
        marker.append(quote_text(self.target_string().as_str()).as_str());
        marker.append(")]");
        let mut leading: Vec<String> = Vec::new();
        leading.push(marker);
        leading.push(String::from_str("#[inline]"));
        leading.push(String::from_str("#[doc(hidden)]"));
        let trailing: Vec<String> = Vec::new();
        let plan = VersionPlan {
            name: feature_fn_name(ident, Some(self)),
            leading,
            trailing,
            normalize: normalize && self.has_features_specified(),
        };
        assert(plan@.leading =~= version_of(self@, ident@, normalize).leading);
        assert(plan@.trailing =~= version_of(self@, ident@, normalize).trailing);
        plan
    }
}

impl<H> DispatchTable<H> {
    /// What the function is made of that holds the default version of
    /// `ident`.
    pub fn default_fn(&self, ident: &str) -> (plan: VersionPlan)
        ensures
            plan@ == default_version_of(self@.targets, ident@),
    {
        let mut leading: Vec<String> = Vec::new();
        leading.push(String::from_str("#[multiversion::target]"));
        let mut trailing: Vec<String> = Vec::new();
        trailing.push(String::from_str("#[inline(always)]"));
        trailing.push(String::from_str("#[doc(hidden)]"));
        trailing.push(self.cfg_if_not_defaulted());
        let plan = VersionPlan {
            name: feature_fn_name(ident, None),
            leading,
            trailing,
            normalize: false,
        };
        assert(plan@.leading =~= default_version_of(self@.targets, ident@).leading);
        assert(plan@.trailing =~= default_version_of(self@.targets, ident@).trailing);
        plan
    }

    /// The attribute that keeps the default off the architectures on which
    /// an entry without features stands in for it.
    pub fn cfg_if_not_defaulted(&self) -> (text: String)
        ensures
            text@ == not_target_arch_text(defaulted_architectures(self@.targets)),
    {
        let ghost targets = self@.targets;
        let n = self.len();
        let mut defaulted: Vec<Architecture> = Vec::new();
        let mut i: usize = 0;
        assert(defaulted@ =~= defaulted_architectures(targets.take(0)));
        while i < n
            invariant
                i <= n,
                n == targets.len(),
                targets == self@.targets,
                defaulted@ == defaulted_architectures(targets.take(i as int)),
            decreases n - i,
        {
            let target = self.target(i);
            assert(targets.take(i + 1).drop_last() =~= targets.take(i as int));
            assert(targets.take(i + 1).last() == targets[i as int]);
            if !target.has_features_specified() {
                let listed = target.architectures();
                let ghost before = defaulted@;
                let mut k: usize = 0;
                while k < listed.len()
                    invariant
                        k <= listed.len(),
                        defaulted@ == before + listed@.take(k as int),
                    decreases listed.len() - k,
                {
                    defaulted.push(listed[k]);
                    assert(before + listed@.take(k + 1) =~= (before + listed@.take(k as int)).push(
                        listed@[k as int],
                    ));
                    k += 1;
                }
                assert(listed@.take(listed.len() as int) =~= listed@);
            }
            i += 1;
        }
        assert(targets.take(n as int) =~= targets);
        cfg_not_any_arch(&defaulted)
    }

    /// What the dispatcher of this table is made of, for a function named
    /// `ident` at a call site of the given shape.
    pub fn dispatch_plan(&self, ident: &str, mode: DetectionMode, shape: CallShape) -> (plan:
        DispatchPlan)
        ensures
            plan.strategy == Strategy::for_call_site(mode, shape),
            plan.guards.deep_view() == guards_of(self@.targets, ident@, mode),
            plan.fallback@ == version_name(ident@, None),
    {
        let ghost targets = self@.targets;
        let n = self.len();
        let mut guards: Vec<Guard> = Vec::new();
        let mut i: usize = 0;
        assert(guards.deep_view() =~= guards_of(targets.take(0), ident@, mode));
        while i < n
            invariant
                i <= n,
                n == targets.len(),
                targets == self@.targets,
                guards.deep_view() == guards_of(targets.take(i as int), ident@, mode),
            decreases n - i,
        {
            let target = self.target(i);
            assert(targets.take(i + 1).drop_last() =~= targets.take(i as int));
            assert(targets.take(i + 1).last() == targets[i as int]);
            if target.has_features_specified() {
                let ghost before = guards.deep_view();
                let guard = Guard {
                    entry: i,
                    target_arch: target.target_arch(),
                    features_detected: target.features_detected(mode),
                    function: feature_fn_name(ident, Some(target)),
                };
                assert(guard@ == guard_for(targets[i as int], i as int, ident@, mode));
                guards.push(guard);
                assert(guards.deep_view() =~= before.push(guard@));
            }
            i += 1;
        }
        assert(targets.take(n as int) =~= targets);
        DispatchPlan {
            strategy: Strategy::pick(mode, shape),
            guards,
            fallback: feature_fn_name(ident, None),
        }
    }
}

} // verus!
