use vstd::prelude::*;
use crate::arch::Architecture;
use crate::text::text_eq;

verus! {

/// How the answers of a detector were obtained. The mode is chosen once
/// for the whole build, never per call.
#[derive(Clone, Copy, Debug, PartialEq, Eq, Structural)]
pub enum DetectionMode {
    /// The running processor was asked.
    Adaptive,
    /// Only what the build enabled for the whole binary counts.
    Static,
}

/// What a detector stands for: the architecture it answers for and the
/// features that it reports as usable.
pub struct DetectorView {
    pub mode: DetectionMode,
    pub architecture: Architecture,
    pub available: Set<Seq<char>>,
}

impl DetectorView {
    /// Whether `feature` is usable on `arch`. On an architecture other than
    /// the detector's own no feature is.
    pub open spec fn has_feature(self, arch: Architecture, feature: Seq<char>) -> bool {
        arch == self.architecture && self.available.contains(feature)
    }

    /// Whether every one of `features` is usable on `arch`.
    pub open spec fn detected(self, arch: Architecture, features: Seq<Seq<char>>) -> bool {
        forall|i: int| 0 <= i < features.len() ==> self.has_feature(arch, #[trigger] features[i])
    }
}

/// The feature answers for the running processor, taken once and then
/// fixed: asking twice gives the same answer.
#[derive(Debug)]
pub struct FeatureDetector {
    mode: DetectionMode,
    architecture: Architecture,
    available: Vec<String>,
}

impl View for FeatureDetector {
    type V = DetectorView;

    closed spec fn view(&self) -> DetectorView {
        DetectorView {
            mode: self.mode,
            architecture: self.architecture,
            available: self.available.deep_view().to_set(),
        }
    }
}

impl FeatureDetector {
    /// A detector for `architecture` that reports the features of
    /// `available`, and no others, as usable.
    pub fn new(mode: DetectionMode, architecture: Architecture, available: Vec<String>) -> (d:
        FeatureDetector)
        ensures
            d@.mode == mode,
            d@.architecture == architecture,
            d@.available == available.deep_view().to_set(),
    {
        FeatureDetector { mode, architecture, available }
    }

    /// The mode in which the answers were obtained.
    pub fn mode(&self) -> (m: DetectionMode)
        ensures
            m == self@.mode,
    {
        self.mode
    }

    /// The architecture that the detector answers for.
    pub fn architecture(&self) -> (a: Architecture)
        ensures
            a == self@.architecture,
    {
        self.architecture
    }

    /// Whether `feature` is usable on `arch`.
    pub fn has_feature(&self, arch: Architecture, feature: &str) -> (b: bool)
        ensures
            b == self@.has_feature(arch, feature@),
    {
        if arch != self.architecture {
            return false;
        }
        let mut i: usize = 0;
        while i < self.available.len()
            invariant
                i <= self.available.len(),
                arch == self.architecture,
                forall|k: int| 0 <= k < i ==> self.available.deep_view()[k] != feature@,
            decreases self.available.len() - i,
        {
            if text_eq(self.available[i].as_str(), feature) {
                assert(self.available.deep_view()[i as int] == feature@);
                return true;
            }
            i += 1;
        }
        false
    }

    /// Whether every one of `features` is usable on `arch`. Of no features
    /// at all this holds on every architecture.
    pub fn detected(&self, arch: Architecture, features: &Vec<String>) -> (b: bool)
        ensures
            b == self@.detected(arch, features.deep_view()),
    {
        let mut i: usize = 0;
        while i < features.len()
            invariant
                i <= features.len(),
                forall|k: int|
                    0 <= k < i ==> self@.has_feature(arch, #[trigger] features.deep_view()[k]),
            decreases features.len() - i,
        {
            if !self.has_feature(arch, features[i].as_str()) {
                assert(features.deep_view()[i as int] == features[i as int]@);
                return false;
            }
            assert(features.deep_view()[i as int] == features[i as int]@);
            i += 1;
        }
        true
    }
}

} // verus!
