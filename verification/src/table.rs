use vstd::prelude::*;
use crate::arch::Architecture;
use crate::detect::{DetectorView, FeatureDetector};
use crate::error::SetupError;
use crate::target::{parse_spec, Target, TargetView};

verus! {

/// Whether an implementation with target `t` can run on `arch`, going by
/// the answers of `detector`: the target lists the architecture, and every
/// feature it requires is usable there.
pub open spec fn viable(t: TargetView, arch: Architecture, detector: DetectorView) -> bool {
    t.lists(arch) && detector.detected(arch, t.features)
}

/// Equal targets match alike: the order in which a target lists its
/// architectures, and how often it lists one, make no difference.
pub proof fn lemma_equal_targets_match_alike(
    a: TargetView,
    b: TargetView,
    arch: Architecture,
    detector: DetectorView,
)
    requires
        a.same_target(b),
    ensures
        viable(a, arch, detector) == viable(b, arch, detector),
{
}

/// Whether `t` matches and belongs to the pass in hand: the entries that
/// require features are tried first, those that require none afterwards.
pub open spec fn candidate(
    t: TargetView,
    arch: Architecture,
    detector: DetectorView,
    featured: bool,
) -> bool {
    t.has_features() == featured && viable(t, arch, detector)
}

/// The position of the first candidate of a pass; the number of targets
/// where the pass finds none.
pub open spec fn first_match(
    targets: Seq<TargetView>,
    arch: Architecture,
    detector: DetectorView,
    featured: bool,
) -> int
    decreases targets.len(),
{
    if targets.len() == 0 || candidate(targets[0], arch, detector, featured) {
        0
    } else {
        1 + first_match(targets.drop_first(), arch, detector, featured)
    }
}

/// The entry that wins on `arch`, or `None` where the default is to run.
/// Among the entries that require features the first match in declaration
/// order wins. An entry without features stands in for the default on the
/// architectures it lists: it is asked only when no entry with features
/// matched, and then again the first one wins.
pub open spec fn winner(targets: Seq<TargetView>, arch: Architecture, detector: DetectorView)
    -> Option<int> {
    let i = first_match(targets, arch, detector, true);
    let j = first_match(targets, arch, detector, false);
    if i < targets.len() {
        Some(i)
    } else if j < targets.len() {
        Some(j)
    } else {
        None
    }
}

/// `first_match` is a position or the length, nothing before it is a
/// candidate, and what stands at it is one.
pub proof fn lemma_first_match(
    targets: Seq<TargetView>,
    arch: Architecture,
    detector: DetectorView,
    featured: bool,
)
    ensures
        0 <= first_match(targets, arch, detector, featured) <= targets.len(),
        forall|k: int|
            0 <= k < first_match(targets, arch, detector, featured) ==> !candidate(
                #[trigger] targets[k],
                arch,
                detector,
                featured,
            ),
        first_match(targets, arch, detector, featured) < targets.len() ==> candidate(
            targets[first_match(targets, arch, detector, featured)],
            arch,
            detector,
            featured,
        ),
    decreases targets.len(),
{
    if targets.len() == 0 || candidate(targets[0], arch, detector, featured) {
    } else {
        let tail = targets.drop_first();
        lemma_first_match(tail, arch, detector, featured);
        let r = first_match(tail, arch, detector, featured);
        assert forall|k: int| 0 <= k < 1 + r implies !candidate(
            #[trigger] targets[k],
            arch,
            detector,
            featured,
        ) by {
            if k > 0 {
                assert(targets[k] == tail[k - 1]);
            }
        }
        if r < tail.len() {
            assert(targets[r + 1] == tail[r]);
        }
    }
}

/// A position with no candidate before it, that holds a candidate or is
/// the end of the table, is the one that `first_match` finds.
pub proof fn lemma_first_match_is(
    targets: Seq<TargetView>,
    arch: Architecture,
    detector: DetectorView,
    featured: bool,
    k: int,
)
    requires
        0 <= k <= targets.len(),
        forall|j: int| 0 <= j < k ==> !candidate(#[trigger] targets[j], arch, detector, featured),
        k < targets.len() ==> candidate(targets[k], arch, detector, featured),
    ensures
        first_match(targets, arch, detector, featured) == k,
{
    lemma_first_match(targets, arch, detector, featured);
}

/// What `winner` says, without the passes: the winner matches; no earlier
/// entry of its own kind matches; an entry without features wins only
/// where no entry with features matches at all; and the default runs only
/// where nothing matches.
pub proof fn lemma_winner(targets: Seq<TargetView>, arch: Architecture, detector: DetectorView)
    ensures
        match winner(targets, arch, detector) {
            Some(i) => {
                &&& 0 <= i < targets.len()
                &&& viable(targets[i], arch, detector)
                &&& forall|j: int|
                    0 <= j < i && (#[trigger] targets[j]).has_features()
                        == targets[i].has_features() ==> !viable(targets[j], arch, detector)
                &&& !targets[i].has_features() ==> forall|j: int|
                    0 <= j < targets.len() && (#[trigger] targets[j]).has_features() ==> !viable(
                        targets[j],
                        arch,
                        detector,
                    )
            },
            None => forall|j: int|
                0 <= j < targets.len() ==> !viable(#[trigger] targets[j], arch, detector),
        },
{
    lemma_first_match(targets, arch, detector, true);
    lemma_first_match(targets, arch, detector, false);
    let i = first_match(targets, arch, detector, true);
    let j = first_match(targets, arch, detector, false);
    if i >= targets.len() {
        assert forall|k: int|
            0 <= k < targets.len() && (#[trigger] targets[k]).has_features() implies !viable(
            targets[k],
            arch,
            detector,
        ) by {
            assert(!candidate(targets[k], arch, detector, true));
        }
        if j >= targets.len() {
            assert forall|k: int| 0 <= k < targets.len() implies !viable(
                #[trigger] targets[k],
                arch,
                detector,
            ) by {
                assert(!candidate(targets[k], arch, detector, true));
                assert(!candidate(targets[k], arch, detector, false));
            }
        } else {
            assert forall|k: int|
                0 <= k < j && (#[trigger] targets[k]).has_features()
                    == targets[j].has_features() implies !viable(targets[k], arch, detector) by {
                assert(!candidate(targets[k], arch, detector, false));
            }
        }
    } else {
        assert forall|k: int|
            0 <= k < i && (#[trigger] targets[k]).has_features()
                == targets[i].has_features() implies !viable(targets[k], arch, detector) by {
            assert(!candidate(targets[k], arch, detector, true));
        }
    }
}

/// The choice depends on the detector only through its answers for the
/// features that the table asks about: two detectors that agree on those
/// lead to the same choice.
pub proof fn lemma_winner_depends_on_answers(
    targets: Seq<TargetView>,
    arch: Architecture,
    d1: DetectorView,
    d2: DetectorView,
)
    requires
        forall|i: int, k: int|
            0 <= i < targets.len() && 0 <= k < targets[i].features.len() ==> d1.has_feature(
                arch,
                #[trigger] targets[i].features[k],
            ) == d2.has_feature(arch, targets[i].features[k]),
    ensures
        winner(targets, arch, d1) == winner(targets, arch, d2),
{
    assert forall|i: int| 0 <= i < targets.len() implies viable(#[trigger] targets[i], arch, d1)
        == viable(targets[i], arch, d2) by {
        let f = targets[i].features;
        if d1.detected(arch, f) {
            assert forall|k: int| 0 <= k < f.len() implies d2.has_feature(arch, #[trigger] f[k]) by {
                assert(d1.has_feature(arch, targets[i].features[k]));
            }
        }
        if d2.detected(arch, f) {
            assert forall|k: int| 0 <= k < f.len() implies d1.has_feature(arch, #[trigger] f[k]) by {
                assert(d2.has_feature(arch, targets[i].features[k]));
            }
        }
    }
    lemma_first_match(targets, arch, d1, true);
    lemma_first_match(targets, arch, d1, false);
    let i = first_match(targets, arch, d1, true);
    let j = first_match(targets, arch, d1, false);
    assert forall|k: int| 0 <= k < i implies !candidate(#[trigger] targets[k], arch, d2, true) by {
        assert(!candidate(targets[k], arch, d1, true));
    }
    assert forall|k: int| 0 <= k < j implies !candidate(#[trigger] targets[k], arch, d2, false) by {
        assert(!candidate(targets[k], arch, d1, false));
    }
    lemma_first_match_is(targets, arch, d2, true, i);
    lemma_first_match_is(targets, arch, d2, false, j);
}

/// An entry that requires features, followed by one for the same
/// architecture that requires none: where the features are there the
/// first wins, where they are not the second does, and the default never.
pub proof fn lemma_priority(
    a: TargetView,
    b: TargetView,
    arch: Architecture,
    detector: DetectorView,
)
    requires
        a.has_features(),
        a.lists(arch),
        !b.has_features(),
        b.lists(arch),
    ensures
        winner(seq![a, b], arch, detector) == if detector.detected(arch, a.features) {
            Some(0int)
        } else {
            Some(1int)
        },
{
    let targets = seq![a, b];
    assert(targets[0] == a && targets[1] == b);
    assert(b.features =~= Seq::empty());
    if detector.detected(arch, a.features) {
        lemma_first_match_is(targets, arch, detector, true, 0);
    } else {
        lemma_first_match_is(targets, arch, detector, true, 2);
        lemma_first_match_is(targets, arch, detector, false, 1);
    }
}

/// An entry without features stands in for the default on each
/// architecture that it lists, wherever in the table it stands: there the
/// default never runs.
pub proof fn lemma_default_overridden(
    targets: Seq<TargetView>,
    arch: Architecture,
    detector: DetectorView,
    k: int,
)
    requires
        0 <= k < targets.len(),
        !targets[k].has_features(),
        targets[k].lists(arch),
    ensures
        winner(targets, arch, detector) is Some,
{
    lemma_winner(targets, arch, detector);
    assert(targets[k].features =~= Seq::empty());
    assert(viable(targets[k], arch, detector));
}

/// On an architecture that no entry lists the default runs.
pub proof fn lemma_fallback(targets: Seq<TargetView>, arch: Architecture, detector: DetectorView)
    requires
        forall|k: int| 0 <= k < targets.len() ==> !(#[trigger] targets[k]).lists(arch),
    ensures
        winner(targets, arch, detector) is None,
{
    lemma_winner(targets, arch, detector);
}

/// The outcome of matching a table against the running processor.
#[derive(Clone, Copy, Debug, PartialEq, Eq, Structural)]
pub enum ResolvedChoice {
    /// The entry at this position of the table won.
    Specialization(usize),
    /// No entry matched.
    Default,
}

impl View for ResolvedChoice {
    type V = Option<int>;

    open spec fn view(&self) -> Option<int> {
        match self {
            ResolvedChoice::Specialization(i) => Some(*i as int),
            ResolvedChoice::Default => None,
        }
    }
}

/// One declared implementation: the target it was built for, and the
/// handle by which the caller reaches it.
pub struct Specialization<H> {
    pub target: Target,
    pub handle: H,
}

impl<H> Specialization<H> {
    /// Whether the entry requires no feature, and so stands in for the
    /// default on the architectures that it lists.
    pub fn is_architecture_default(&self) -> (b: bool)
        ensures
            b == !self.target@.has_features(),
    {
        !self.target.has_features_specified()
    }
}

impl Target {
    /// Whether an implementation built for this target can run on `arch`,
    /// going by the answers of `detector`.
    pub fn is_viable(&self, arch: Architecture, detector: &FeatureDetector) -> (b: bool)
        ensures
            b == viable(self@, arch, detector@),
    {
        self.lists(arch) && detector.detected(arch, self.features())
    }
}

/// What a table stands for: the targets of its entries in declaration
/// order, the handle of each, and the handle of the default.
pub struct TableView<H> {
    pub targets: Seq<TargetView>,
    pub handles: Seq<H>,
    pub default: H,
}

/// The implementations of one call site: the specializations in the order
/// of their declaration, which is their priority, and the one default.
pub struct DispatchTable<H> {
    specializations: Vec<Specialization<H>>,
    default: H,
}

impl<H> View for DispatchTable<H> {
    type V = TableView<H>;

    closed spec fn view(&self) -> TableView<H> {
        TableView {
            targets: self.specializations@.map_values(|s: Specialization<H>| s.target@),
            handles: self.specializations@.map_values(|s: Specialization<H>| s.handle),
            default: self.default,
        }
    }
}

impl<H> TableView<H> {
    /// The handle that a choice stands for.
    pub open spec fn handle_of(self, choice: Option<int>) -> H {
        match choice {
            Some(i) => self.handles[i],
            None => self.default,
        }
    }

    /// Whether a choice names an entry of the table, or the default.
    pub open spec fn admits(self, choice: Option<int>) -> bool {
        choice matches Some(i) ==> 0 <= i < self.targets.len()
    }
}

impl<H> DispatchTable<H> {
    #[verifier::type_invariant]
    spec fn well_formed(&self) -> bool {
        self.specializations.len() < usize::MAX
    }

    /// A table of `specializations`, in this order, and `default`.
    pub fn new(specializations: Vec<Specialization<H>>, default: H) -> (table: DispatchTable<H>)
        requires
            specializations.len() < usize::MAX,
        ensures
            table@.targets == specializations@.map_values(|s: Specialization<H>| s.target@),
            table@.handles == specializations@.map_values(|s: Specialization<H>| s.handle),
            table@.default == default,
    {
        DispatchTable { specializations, default }
    }

    /// The number of specializations.
    pub fn len(&self) -> (n: usize)
        ensures
            n == self@.targets.len(),
            n == self@.handles.len(),
            n < usize::MAX,
    {
        proof {
            use_type_invariant(self);
        }
        self.specializations.len()
    }

    /// The target of the entry at position `i`.
    pub fn target(&self, i: usize) -> (t: &Target)
        requires
            i < self@.targets.len(),
        ensures
            t@ == self@.targets[i as int],
    {
        &self.specializations[i].target
    }

    /// The handle that a choice stands for.
    pub fn handle(&self, choice: ResolvedChoice) -> (h: &H)
        requires
            self@.admits(choice@),
        ensures
            *h == self@.handle_of(choice@),
    {
        match choice {
            ResolvedChoice::Specialization(i) => &self.specializations[i].handle,
            ResolvedChoice::Default => &self.default,
        }
    }

    /// Picks the implementation for `arch`, going by the answers of
    /// `detector`. Nothing can go wrong: where nothing matches the default
    /// is chosen.
    pub fn select(&self, arch: Architecture, detector: &FeatureDetector) -> (choice:
        ResolvedChoice)
        ensures
            choice@ == winner(self@.targets, arch, detector@),
            self@.admits(choice@),
    {
        let ghost targets = self@.targets;
        proof {
            lemma_winner(targets, arch, detector@);
        }
        let mut i: usize = 0;
        while i < self.specializations.len()
            invariant
                i <= self.specializations.len(),
                targets == self@.targets,
                forall|k: int|
                    0 <= k < i ==> !candidate(#[trigger] targets[k], arch, detector@, true),
            decreases self.specializations.len() - i,
        {
            let target = &self.specializations[i].target;
            if target.has_features_specified() && target.is_viable(arch, detector) {
                proof {
                    lemma_first_match_is(targets, arch, detector@, true, i as int);
                }
                return ResolvedChoice::Specialization(i);
            }
            i += 1;
        }
        proof {
            lemma_first_match_is(targets, arch, detector@, true, i as int);
        }
        let mut j: usize = 0;
        while j < self.specializations.len()
            invariant
                j <= self.specializations.len(),
                targets == self@.targets,
                first_match(targets, arch, detector@, true) == targets.len(),
                forall|k: int|
                    0 <= k < j ==> !candidate(#[trigger] targets[k], arch, detector@, false),
            decreases self.specializations.len() - j,
        {
            let target = &self.specializations[j].target;
            if !target.has_features_specified() && target.is_viable(arch, detector) {
                proof {
                    lemma_first_match_is(targets, arch, detector@, false, j as int);
                }
                return ResolvedChoice::Specialization(j);
            }
            j += 1;
        }
        proof {
            lemma_first_match_is(targets, arch, detector@, false, j as int);
        }
        ResolvedChoice::Default
    }

    /// Invokes the implementation that a choice stands for and hands back
    /// what it returns, whatever that is.
    pub fn invoke<A, R>(&self, choice: ResolvedChoice, args: A) -> (r: R) where H: Fn(A) -> R
        requires
            self@.admits(choice@),
            call_requires(self@.handle_of(choice@), (args,)),
        ensures
            call_ensures(self@.handle_of(choice@), (args,), r),
    {
        let handle = self.handle(choice);
        handle(args)
    }

    /// The handle of the implementation for `arch`.
    pub fn resolve(&self, arch: Architecture, detector: &FeatureDetector) -> (h: &H)
        ensures
            *h == self@.handle_of(winner(self@.targets, arch, detector@)),
    {
        let choice = self.select(arch, detector);
        self.handle(choice)
    }
}

/// Collects the implementations of a call site as they are declared. The
/// table comes out of `build`, which insists on a default.
pub struct TableBuilder<H> {
    specializations: Vec<Specialization<H>>,
    default: Option<H>,
}

/// What a builder stands for: what was declared so far.
pub struct BuilderView<H> {
    pub targets: Seq<TargetView>,
    pub handles: Seq<H>,
    pub default: Option<H>,
}

impl<H> View for TableBuilder<H> {
    type V = BuilderView<H>;

    closed spec fn view(&self) -> BuilderView<H> {
        BuilderView {
            targets: self.specializations@.map_values(|s: Specialization<H>| s.target@),
            handles: self.specializations@.map_values(|s: Specialization<H>| s.handle),
            default: self.default,
        }
    }
}

impl<H> TableBuilder<H> {
    /// A builder that holds nothing yet.
    pub fn new() -> (builder: TableBuilder<H>)
        ensures
            builder@ == (BuilderView {
                targets: Seq::<TargetView>::empty(),
                handles: Seq::<H>::empty(),
                default: None::<H>,
            }),
    {
        let builder = TableBuilder { specializations: Vec::new(), default: None };
        assert(builder@.targets =~= Seq::empty());
        assert(builder@.handles =~= Seq::empty());
        builder
    }

    /// The number of specializations declared so far.
    pub fn len(&self) -> (n: usize)
        ensures
            n == self@.targets.len(),
    {
        self.specializations.len()
    }

    /// Declares the next specialization. A text that does not follow the
    /// grammar is refused and leaves the builder as it was.
    pub fn specialization(&mut self, text: &str, handle: H) -> (r: Result<(), SetupError>)
        ensures
            match parse_spec(text@) {
                Ok(t) => r is Ok && final(self)@ == (BuilderView {
                    targets: old(self)@.targets.push(t),
                    handles: old(self)@.handles.push(handle),
                    default: old(self)@.default,
                }),
                Err(e) => r == Err::<(), SetupError>(SetupError::MalformedSpec(e)) && final(self)@
                    == old(self)@,
            },
    {
        match Target::parse(text) {
            Ok(target) => {
                self.specializations.push(Specialization { target, handle });
                assert(self@.targets =~= old(self)@.targets.push(target@));
                assert(self@.handles =~= old(self)@.handles.push(handle));
                Ok(())
            },
            Err(e) => Err(SetupError::MalformedSpec(e)),
        }
    }

    /// Declares the default. A later declaration replaces an earlier one.
    pub fn default_implementation(&mut self, handle: H)
        ensures
            final(self)@ == (BuilderView { default: Some(handle), ..old(self)@ }),
    {
        self.default = Some(handle);
    }

    /// The table of what was declared. Without a default there is none.
    pub fn build(self) -> (r: Result<DispatchTable<H>, SetupError>)
        requires
            self@.targets.len() < usize::MAX,
        ensures
            match self@.default {
                Some(d) => r matches Ok(table) && table@ == (TableView {
                    targets: self@.targets,
                    handles: self@.handles,
                    default: d,
                }),
                None => r matches Err(e) && e == SetupError::UnreachableDefaultMissing,
            },
    {
        match self.default {
            Some(default) => Ok(DispatchTable { specializations: self.specializations, default }),
            None => Err(SetupError::UnreachableDefaultMissing),
        }
    }
}

} // verus!
