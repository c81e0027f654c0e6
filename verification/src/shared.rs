use vstd::prelude::*;
use core::sync::atomic::AtomicUsize;
use core::sync::atomic::Ordering;
use crate::arch::Architecture;
use crate::detect::FeatureDetector;
use crate::dispatch::{observe, Resolution, UNRESOLVED};
use crate::table::{DispatchTable, ResolvedChoice, TableView};

verus! {

/// A cached call site that any number of threads may call at once. Its
/// slot is one atomic word, read and written without a lock and with no
/// ordering beyond that of the word itself. Each caller takes the step
/// that `resolve_observed` describes, so callers that race for the first
/// resolution each resolve and each store the same word.
///
/// What another thread has stored is beyond what a contract here can say.
/// So the contracts of this type state what holds whatever the slot held:
/// that the call site agrees with a call site of one owner follows from
/// `lemma_racing_callers_agree`, for as long as the architecture and the
/// answers of the detector are those of the process.
pub struct SharedDispatcher<H> {
    table: DispatchTable<H>,
    slot: AtomicUsize,
}

impl<H> SharedDispatcher<H> {
    /// The table of the call site.
    pub closed spec fn table(&self) -> TableView<H> {
        self.table@
    }

    /// A call site with an empty slot of its own.
    pub fn new(table: DispatchTable<H>) -> (site: SharedDispatcher<H>)
        ensures
            site.table() == table@,
    {
        SharedDispatcher { table, slot: AtomicUsize::new(UNRESOLVED) }
    }

    /// One step of the protocol on the shared slot: reads the slot, matches
    /// where it holds nothing, and stores what matching gave. The result
    /// tells which of the two happened: a caller that stored has resolved
    /// by itself, and its choice is what matching gives.
    pub fn step(&self, arch: Architecture, detector: &FeatureDetector) -> (r: Resolution)
        ensures
            exists|word: usize|
                (r.choice@, r.publish) == #[trigger] observe(
                    self.table().targets,
                    word,
                    arch,
                    detector@,
                ),
            self.table().admits(r.choice@),
    {
        let word = self.slot.load(Ordering::Relaxed);
        let r = self.table.resolve_observed(word, arch, detector);
        match r.publish {
            Some(stored) => self.slot.store(stored, Ordering::Relaxed),
            None => {},
        }
        assert((r.choice@, r.publish) == observe(self.table().targets, word, arch, detector@));
        r
    }

    /// The choice for this call: what the slot holds, or, where it holds
    /// nothing, what matching gives, which is then stored.
    pub fn dispatch(&self, arch: Architecture, detector: &FeatureDetector) -> (choice:
        ResolvedChoice)
        ensures
            self.table().admits(choice@),
    {
        self.step(arch, detector).choice
    }

    /// The handle to go by for this call: that of an entry of the table, or
    /// the default.
    pub fn resolve(&self, arch: Architecture, detector: &FeatureDetector) -> (h: &H)
        ensures
            exists|c: Option<int>|
                self.table().admits(c) && *h == #[trigger] self.table().handle_of(c),
    {
        let choice = self.dispatch(arch, detector);
        self.table.handle(choice)
    }

    /// Dispatches and invokes: the result is what an implementation of the
    /// table returns for `args`.
    pub fn call<A, R>(&self, arch: Architecture, detector: &FeatureDetector, args: A) -> (r:
        R) where H: Fn(A) -> R
        requires
            forall|c: Option<int>|
                self.table().admits(c) ==> call_requires(
                    #[trigger] self.table().handle_of(c),
                    (args,),
                ),
        ensures
            exists|c: Option<int>|
                self.table().admits(c) && call_ensures(
                    #[trigger] self.table().handle_of(c),
                    (args,),
                    r,
                ),
    {
        let choice = self.dispatch(arch, detector);
        self.table.invoke(choice, args)
    }

    /// The handle that a choice stands for.
    pub fn handle(&self, choice: ResolvedChoice) -> (h: &H)
        requires
            self.table().admits(choice@),
        ensures
            *h == self.table().handle_of(choice@),
    {
        self.table.handle(choice)
    }
}

} // verus!
