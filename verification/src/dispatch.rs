use vstd::prelude::*;
use crate::arch::Architecture;
use crate::detect::{DetectionMode, DetectorView, FeatureDetector};
use crate::table::{winner, DispatchTable, ResolvedChoice, TableView};
use crate::target::TargetView;

verus! {

/// What the slot of a cache holds before anything was resolved.
pub const UNRESOLVED: usize = 0;

/// The word that stands for a choice in the slot of a cache. It is never
/// the word of an empty slot.
pub open spec fn word_of(choice: Option<int>) -> int {
    match choice {
        None => 1,
        Some(i) => i + 2,
    }
}

/// The choice that a word stands for in the slot of a table with `len`
/// entries. The word of an empty slot stands for none, and neither does a
/// word that no choice of the table has.
pub open spec fn choice_at(word: usize, len: nat) -> Option<ResolvedChoice> {
    if word == 1 {
        Some(ResolvedChoice::Default)
    } else if 2 <= word && word - 2 < len {
        Some(ResolvedChoice::Specialization((word - 2) as usize))
    } else {
        None
    }
}

/// What a caller does that has read `word` from the slot: the choice it
/// goes by and, where it had to resolve, the word that it stores. A caller
/// that finds the slot filled goes by what it found and does not match.
pub open spec fn observe(
    targets: Seq<TargetView>,
    word: usize,
    arch: Architecture,
    detector: DetectorView,
) -> (Option<int>, Option<usize>) {
    match choice_at(word, targets.len()) {
        Some(c) => (c@, None),
        None => {
            let c = winner(targets, arch, detector);
            (c, Some(word_of(c) as usize))
        },
    }
}

/// Whether the slot is empty or holds the word of what resolution gives.
pub open spec fn slot_valid(
    targets: Seq<TargetView>,
    word: usize,
    arch: Architecture,
    detector: DetectorView,
) -> bool {
    word == UNRESOLVED || word == word_of(winner(targets, arch, detector))
}

/// Callers may race for the first resolution without a lock. Each one that
/// reads a valid slot goes by the choice that resolution gives, and what it
/// stores, if anything, is the word of that choice: the slot stays valid
/// whatever the order of the reads and writes. Once the slot is filled
/// nobody resolves or stores again.
pub proof fn lemma_racing_callers_agree(
    targets: Seq<TargetView>,
    word: usize,
    arch: Architecture,
    detector: DetectorView,
)
    requires
        targets.len() < usize::MAX,
        slot_valid(targets, word, arch, detector),
    ensures
        observe(targets, word, arch, detector).0 == winner(targets, arch, detector),
        observe(targets, word, arch, detector).1 matches Some(w) ==> w != UNRESOLVED && slot_valid(
            targets,
            w,
            arch,
            detector,
        ),
        word != UNRESOLVED ==> observe(targets, word, arch, detector).1 is None,
{
    crate::table::lemma_winner(targets, arch, detector);
}

impl ResolvedChoice {
    /// The word that stands for the choice in the slot of a cache, if a
    /// word can hold it. It is never the word of an empty slot.
    pub fn to_word(&self) -> (r: Option<usize>)
        ensures
            match r {
                Some(word) => word == word_of(self@) && word != UNRESOLVED,
                None => word_of(self@) > usize::MAX,
            },
    {
        match self {
            ResolvedChoice::Default => Some(1),
            ResolvedChoice::Specialization(i) => i.checked_add(2),
        }
    }

    /// The choice that `word` stands for in the slot of a table with `len`
    /// entries, if it stands for one.
    pub fn from_word(word: usize, len: usize) -> (choice: Option<ResolvedChoice>)
        ensures
            choice == choice_at(word, len as nat),
    {
        if word == 1 {
            Some(ResolvedChoice::Default)
        } else if word >= 2 && word - 2 < len {
            Some(ResolvedChoice::Specialization(word - 2))
        } else {
            None
        }
    }
}

/// What a caller that has read the slot goes by, and what it has to store.
#[derive(Clone, Copy, Debug, PartialEq, Eq, Structural)]
pub struct Resolution {
    /// The implementation to invoke.
    pub choice: ResolvedChoice,
    /// The word to store in the slot; `None` where the slot was filled.
    pub publish: Option<usize>,
}

impl<H> DispatchTable<H> {
    /// One step of the protocol of a cached call site, for a caller that
    /// has read `word` from the slot. The slot itself may be an atomic word
    /// that many threads share: this function neither reads nor writes it.
    pub fn resolve_observed(
        &self,
        word: usize,
        arch: Architecture,
        detector: &FeatureDetector,
    ) -> (r: Resolution)
        ensures
            (r.choice@, r.publish) == observe(self@.targets, word, arch, detector@),
            self@.admits(r.choice@),
            choice_at(
                match r.publish {
                    Some(w) => w,
                    None => word,
                },
                self@.targets.len(),
            ) == Some(r.choice),
    {
        match ResolvedChoice::from_word(word, self.len()) {
            Some(choice) => Resolution { choice, publish: None },
            None => {
                let choice = self.select(arch, detector);
                Resolution { choice, publish: choice.to_word() }
            },
        }
    }
}

/// The slot of one call site, for a call site with one owner. It starts
/// empty.
#[derive(Debug)]
pub struct DispatchCache {
    word: usize,
}

impl View for DispatchCache {
    type V = usize;

    closed spec fn view(&self) -> usize {
        self.word
    }
}

impl DispatchCache {
    /// An empty slot.
    pub fn new() -> (cache: DispatchCache)
        ensures
            cache@ == UNRESOLVED,
    {
        DispatchCache { word: UNRESOLVED }
    }

    /// The word in the slot.
    pub fn load(&self) -> (word: usize)
        ensures
            word == self@,
    {
        self.word
    }

    /// Puts a word into the slot.
    pub fn store(&mut self, word: usize)
        ensures
            final(self)@ == word,
    {
        self.word = word;
    }
}

/// The two states of a cached call site. There is no way back.
#[derive(Clone, Copy, Debug, PartialEq, Eq, Structural)]
pub enum CacheState {
    Unresolved,
    Resolved(ResolvedChoice),
}

/// A call site that resolves once and then goes by what it has cached.
pub struct CachedDispatcher<H> {
    table: DispatchTable<H>,
    cache: DispatchCache,
}

impl<H> CachedDispatcher<H> {
    /// The table of the call site.
    pub closed spec fn table(&self) -> TableView<H> {
        self.table@
    }

    /// The state of the call site.
    pub closed spec fn state(&self) -> CacheState {
        match choice_at(self.cache@, self.table@.targets.len()) {
            Some(c) => CacheState::Resolved(c),
            None => CacheState::Unresolved,
        }
    }

    /// A call site with an empty cache of its own.
    pub fn new(table: DispatchTable<H>) -> (site: CachedDispatcher<H>)
        ensures
            site.table() == table@,
            site.state() == CacheState::Unresolved,
    {
        CachedDispatcher { table, cache: DispatchCache::new() }
    }

    /// Whether the call site has resolved.
    pub fn is_resolved(&self) -> (b: bool)
        ensures
            b == (self.state() is Resolved),
    {
        ResolvedChoice::from_word(self.cache.load(), self.table.len()).is_some()
    }

    /// The choice for this call. The first call matches the table against
    /// `arch` and the answers of `detector` and caches what it found.
    /// Every later call returns what was cached, whatever it is handed.
    pub fn dispatch(&mut self, arch: Architecture, detector: &FeatureDetector) -> (choice:
        ResolvedChoice)
        ensures
            final(self).table() == old(self).table(),
            final(self).state() == CacheState::Resolved(choice),
            old(self).table().admits(choice@),
            match old(self).state() {
                CacheState::Resolved(cached) => choice == cached,
                CacheState::Unresolved => choice@ == winner(
                    old(self).table().targets,
                    arch,
                    detector@,
                ),
            },
    {
        let r = self.table.resolve_observed(self.cache.load(), arch, detector);
        if let Some(word) = r.publish {
            self.cache.store(word);
        }
        r.choice
    }

    /// Dispatches and invokes: the result is what the chosen implementation
    /// returns for `args`. The call site neither looks at it nor wraps it.
    pub fn call<A, R>(&mut self, arch: Architecture, detector: &FeatureDetector, args: A) -> (r:
        R) where H: Fn(A) -> R
        requires
            forall|c: Option<int>|
                old(self).table().admits(c) ==> call_requires(
                    #[trigger] old(self).table().handle_of(c),
                    (args,),
                ),
        ensures
            final(self).table() == old(self).table(),
            ({
                let choice = match old(self).state() {
                    CacheState::Resolved(cached) => cached@,
                    CacheState::Unresolved => winner(old(self).table().targets, arch, detector@),
                };
                &&& final(self).state() matches CacheState::Resolved(c) && c@ == choice
                &&& call_ensures(old(self).table().handle_of(choice), (args,), r)
            }),
    {
        let choice = self.dispatch(arch, detector);
        self.table.invoke(choice, args)
    }

    /// The handle that a choice stands for.
    pub fn handle(&self, choice: ResolvedChoice) -> (h: &H)
        requires
            self.table().admits(choice@),
        ensures
            *h == self.table().handle_of(choice@),
    {
        self.table.handle(choice)
    }
}

/// A call site that matches anew on every call: an ordered chain of
/// guards, the first that passes decides, and the default stands at its
/// end.
pub struct ChainDispatcher<H> {
    table: DispatchTable<H>,
}

impl<H> ChainDispatcher<H> {
    /// The table of the call site.
    pub closed spec fn table(&self) -> TableView<H> {
        self.table@
    }

    /// A call site over `table`.
    pub fn new(table: DispatchTable<H>) -> (site: ChainDispatcher<H>)
        ensures
            site.table() == table@,
    {
        ChainDispatcher { table }
    }

    /// The choice for this call.
    pub fn dispatch(&self, arch: Architecture, detector: &FeatureDetector) -> (choice:
        ResolvedChoice)
        ensures
            choice@ == winner(self.table().targets, arch, detector@),
            self.table().admits(choice@),
    {
        self.table.select(arch, detector)
    }

    /// Dispatches and invokes: the result is what the chosen implementation
    /// returns for `args`. The call site neither looks at it nor wraps it.
    pub fn call<A, R>(&self, arch: Architecture, detector: &FeatureDetector, args: A) -> (r:
        R) where H: Fn(A) -> R
        requires
            forall|c: Option<int>|
                self.table().admits(c) ==> call_requires(
                    #[trigger] self.table().handle_of(c),
                    (args,),
                ),
        ensures
            call_ensures(
                self.table().handle_of(winner(self.table().targets, arch, detector@)),
                (args,),
                r,
            ),
    {
        let choice = self.table.select(arch, detector);
        self.table.invoke(choice, args)
    }

    /// The handle that a choice stands for.
    pub fn handle(&self, choice: ResolvedChoice) -> (h: &H)
        requires
            self.table().admits(choice@),
        ensures
            *h == self.table().handle_of(choice@),
    {
        self.table.handle(choice)
    }
}

/// The shape of a call site, as far as it decides how to dispatch.
#[derive(Clone, Copy, Debug, PartialEq, Eq, Structural)]
pub struct CallShape {
    /// The signature has type parameters.
    pub generic: bool,
    /// The function is asynchronous.
    pub asynchronous: bool,
    /// The signature takes or returns an opaque type.
    pub opaque_types: bool,
    /// The function is associated with a type or a trait.
    pub associated: bool,
}

impl CallShape {
    /// Whether every call of the function goes to one fixed address.
    pub open spec fn plain(self) -> bool {
        !self.generic && !self.asynchronous && !self.opaque_types && !self.associated
    }
}

/// The two ways to dispatch. Which one a call site takes is settled once,
/// from its shape.
#[derive(Clone, Copy, Debug, PartialEq, Eq, Structural)]
pub enum Strategy {
    /// Resolve once and cache.
    Cached,
    /// Match on every call.
    Chain,
}

impl Strategy {
    /// The strategy for a call site. Caching is for plain functions under
    /// adaptive detection. Everything else takes the chain.
    pub open spec fn for_call_site(mode: DetectionMode, shape: CallShape) -> Strategy {
        if mode == DetectionMode::Adaptive && shape.plain() {
            Strategy::Cached
        } else {
            Strategy::Chain
        }
    }

    /// The strategy for a call site of the given shape.
    pub fn pick(mode: DetectionMode, shape: CallShape) -> (s: Strategy)
        ensures
            s == Strategy::for_call_site(mode, shape),
    {
        let plain = !shape.generic && !shape.asynchronous && !shape.opaque_types
            && !shape.associated;
        match mode {
            DetectionMode::Adaptive => if plain {
                Strategy::Cached
            } else {
                Strategy::Chain
            },
            DetectionMode::Static => Strategy::Chain,
        }
    }
}

/// A call site under the strategy that its shape asked for.
pub enum Dispatcher<H> {
    Cached(CachedDispatcher<H>),
    Chain(ChainDispatcher<H>),
}

impl<H> Dispatcher<H> {
    /// The strategy of the call site.
    pub open spec fn strategy(&self) -> Strategy {
        match self {
            Dispatcher::Cached(_) => Strategy::Cached,
            Dispatcher::Chain(_) => Strategy::Chain,
        }
    }

    /// The table of the call site.
    pub open spec fn table(&self) -> TableView<H> {
        match self {
            Dispatcher::Cached(site) => site.table(),
            Dispatcher::Chain(site) => site.table(),
        }
    }

    /// What the call site has cached, if it caches and has resolved.
    pub open spec fn cached(&self) -> Option<ResolvedChoice> {
        match self {
            Dispatcher::Cached(site) => match site.state() {
                CacheState::Resolved(c) => Some(c),
                CacheState::Unresolved => None,
            },
            Dispatcher::Chain(_) => None,
        }
    }

    /// A call site over `table`, with the strategy for its shape.
    pub fn new(table: DispatchTable<H>, mode: DetectionMode, shape: CallShape) -> (site:
        Dispatcher<H>)
        ensures
            site.table() == table@,
            site.strategy() == Strategy::for_call_site(mode, shape),
            site.cached() is None,
    {
        match Strategy::pick(mode, shape) {
            Strategy::Cached => Dispatcher::Cached(CachedDispatcher::new(table)),
            Strategy::Chain => Dispatcher::Chain(ChainDispatcher::new(table)),
        }
    }

    /// The choice for this call: what the call site has cached, or else
    /// what matching gives.
    pub fn dispatch(&mut self, arch: Architecture, detector: &FeatureDetector) -> (choice:
        ResolvedChoice)
        ensures
            final(self).table() == old(self).table(),
            final(self).strategy() == old(self).strategy(),
            old(self).table().admits(choice@),
            match old(self).cached() {
                Some(cached) => choice == cached,
                None => choice@ == winner(old(self).table().targets, arch, detector@),
            },
            final(self).cached() == if old(self).strategy() == Strategy::Cached {
                Some(choice)
            } else {
                None
            },
    {
        match self {
            Dispatcher::Cached(site) => site.dispatch(arch, detector),
            Dispatcher::Chain(site) => site.dispatch(arch, detector),
        }
    }

    /// Dispatches and invokes: the result is what the chosen implementation
    /// returns for `args`, under either strategy.
    pub fn call<A, R>(&mut self, arch: Architecture, detector: &FeatureDetector, args: A) -> (r:
        R) where H: Fn(A) -> R
        requires
            forall|c: Option<int>|
                old(self).table().admits(c) ==> call_requires(
                    #[trigger] old(self).table().handle_of(c),
                    (args,),
                ),
        ensures
            final(self).table() == old(self).table(),
            final(self).strategy() == old(self).strategy(),
            ({
                let choice = match old(self).cached() {
                    Some(cached) => cached@,
                    None => winner(old(self).table().targets, arch, detector@),
                };
                &&& call_ensures(old(self).table().handle_of(choice), (args,), r)
                &&& old(self).strategy() == Strategy::Cached ==> (final(self).cached() matches Some(
                    c,
                ) && c@ == choice)
                &&& old(self).strategy() == Strategy::Chain ==> final(self).cached() is None
            }),
    {
        match self {
            Dispatcher::Cached(site) => site.call(arch, detector, args),
            Dispatcher::Chain(site) => site.call(arch, detector, args),
        }
    }

    /// The handle that a choice stands for.
    pub fn handle(&self, choice: ResolvedChoice) -> (h: &H)
        requires
            self.table().admits(choice@),
        ensures
            *h == self.table().handle_of(choice@),
    {
        match self {
            Dispatcher::Cached(site) => site.handle(choice),
            Dispatcher::Chain(site) => site.handle(choice),
        }
    }
}

} // verus!
