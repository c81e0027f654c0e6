use vstd::prelude::*;
use crate::arch::Architecture;
use crate::error::MalformedSpec;
use crate::order::{
    canonical, canonical_texts, lemma_canonical, lemma_canonical_unique, same_texts,
    strictly_sorted,
};
use crate::text::{
    all_free_of, chars_of, free_of, join, join_text, lemma_join_free_of, lemma_split,
    lemma_split_join, remove_char, split, split_text, without,
};

verus! {

/// What a target stands for: the architectures it lists, in the order in
/// which they were given, and the features it requires, in canonical form.
pub struct TargetView {
    pub architectures: Seq<Architecture>,
    pub features: Seq<Seq<char>>,
}

impl TargetView {
    /// What holds of every target: it lists an architecture, and its
    /// features are strictly sorted texts that could stand between two `+`.
    pub open spec fn wf(self) -> bool {
        &&& self.architectures.len() > 0
        &&& strictly_sorted(self.features)
        &&& all_free_of(self.features, '+')
        &&& forall|i: int| 0 <= i < self.features.len() ==> (#[trigger] self.features[i]).len() > 0
    }

    /// Whether the target lists `arch`.
    pub open spec fn lists(self, arch: Architecture) -> bool {
        self.architectures.contains(arch)
    }

    /// Whether the target requires any feature at all.
    pub open spec fn has_features(self) -> bool {
        self.features.len() > 0
    }

    /// Equality of targets: the same set of architectures and the same
    /// features. Order and repetition among the architectures do not count.
    pub open spec fn same_target(self, other: TargetView) -> bool {
        &&& forall|a: Architecture| self.lists(a) == other.lists(a)
        &&& self.features == other.features
    }

    /// The architecture part of the canonical text: the one name, or the
    /// names in brackets with `|` between them.
    pub open spec fn arch_text(self) -> Seq<char> {
        if self.architectures.len() > 1 {
            seq!['['] + join(names_of(self.architectures), seq!['|']) + seq![']']
        } else {
            self.architectures[0].name()
        }
    }

    /// The canonical text: the architecture part, then each feature behind
    /// a `+`.
    pub open spec fn canonical_text(self) -> Seq<char> {
        join(seq![self.arch_text()] + self.features, seq!['+'])
    }
}

/// The names of some architectures, in their order.
pub open spec fn names_of(architectures: Seq<Architecture>) -> Seq<Seq<char>> {
    architectures.map_values(|a: Architecture| a.name())
}

/// Whether an architecture part is a list in brackets.
pub open spec fn bracketed(head: Seq<char>) -> bool {
    head.len() >= 2 && head[0] == '[' && head.last() == ']'
}

/// The architecture names that an architecture part holds.
pub open spec fn arch_names(head: Seq<char>) -> Seq<Seq<char>> {
    if bracketed(head) {
        split(head.subrange(1, head.len() - 1), '|')
    } else {
        seq![head]
    }
}

/// The architectures that go by `names`; the first name that is none
/// decides the error.
pub open spec fn architectures_of(names: Seq<Seq<char>>) -> Result<Seq<Architecture>, MalformedSpec>
    decreases names.len(),
{
    if names.len() == 0 {
        Ok(Seq::empty())
    } else {
        match Architecture::named(names[0]) {
            None => Err(
                if names[0].len() == 0 {
                    MalformedSpec::EmptyBracketElement
                } else {
                    MalformedSpec::UnknownArchitecture
                },
            ),
            Some(a) => match architectures_of(names.drop_first()) {
                Ok(rest) => Ok(seq![a] + rest),
                Err(e) => Err(e),
            },
        }
    }
}

/// Whether one of `parts` is empty.
pub open spec fn has_empty(parts: Seq<Seq<char>>) -> bool {
    exists|i: int| 0 <= i < parts.len() && (#[trigger] parts[i]).len() == 0
}

/// What a target specification text means. The text is cut at each `+`.
/// The first piece is the architecture part, the others are the features.
/// A fault of the architecture part is reported before one of the
/// features, and of the names of a list the first that is at fault.
pub open spec fn parse_spec(s: Seq<char>) -> Result<TargetView, MalformedSpec> {
    let segments = split(s, '+');
    let head = segments[0];
    let wanted = segments.skip(1);
    if head.len() == 0 {
        Err(MalformedSpec::EmptyArchitecture)
    } else if head[0] == '[' && head.last() != ']' {
        Err(MalformedSpec::UnterminatedBracket)
    } else {
        match architectures_of(arch_names(head)) {
            Err(e) => Err(e),
            Ok(architectures) => if has_empty(wanted) {
                Err(MalformedSpec::EmptyFeature)
            } else {
                Ok(TargetView { architectures, features: canonical(wanted) })
            },
        }
    }
}

/// Where `architectures_of` succeeds it names each architecture, one for one.
pub proof fn lemma_architectures_of(names: Seq<Seq<char>>)
    ensures
        architectures_of(names) matches Ok(a) ==> names_of(a) == names,
        architectures_of(names) matches Err(e) ==> e == MalformedSpec::EmptyBracketElement || e
            == MalformedSpec::UnknownArchitecture,
    decreases names.len(),
{
    if names.len() > 0 {
        lemma_architectures_of(names.drop_first());
        if let Some(a) = Architecture::named(names[0]) {
            if let Ok(rest) = architectures_of(names.drop_first()) {
                assert(a.name() == names[0]);
                assert(names_of(seq![a] + rest) =~= seq![names[0]] + names_of(rest));
                assert(names =~= seq![names[0]] + names.drop_first());
            }
        }
    } else {
        assert(names_of(Seq::<Architecture>::empty()) =~= names);
    }
}

/// The names of architectures are read back as those architectures.
pub proof fn lemma_architectures_of_names(a: Seq<Architecture>)
    ensures
        architectures_of(names_of(a)) == Ok::<Seq<Architecture>, MalformedSpec>(a),
    decreases a.len(),
{
    let names = names_of(a);
    if a.len() > 0 {
        lemma_architectures_of_names(a.drop_first());
        Architecture::lemma_names_distinct(a[0], a[0]);
        assert(names[0] == a[0].name());
        assert(names.drop_first() =~= names_of(a.drop_first()));
        assert(seq![a[0]] + a.drop_first() =~= a);
    } else {
        assert(a =~= Seq::empty());
    }
}

/// What `parse_spec` accepts is a well-formed target.
pub proof fn lemma_parse_wf(s: Seq<char>)
    ensures
        parse_spec(s) matches Ok(t) ==> t.wf(),
{
    if let Ok(t) = parse_spec(s) {
        let segments = split(s, '+');
        let head = segments[0];
        let wanted = segments.skip(1);
        lemma_split(s, '+');
        lemma_architectures_of(arch_names(head));
        if bracketed(head) {
            lemma_split(head.subrange(1, head.len() - 1), '|');
        }
        assert(names_of(t.architectures).len() == arch_names(head).len());
        lemma_canonical(wanted);
        assert forall|i: int| 0 <= i < t.features.len() implies free_of(
            #[trigger] t.features[i],
            '+',
        ) && t.features[i].len() > 0 by {
            let f = t.features[i];
            assert(t.features.contains(f));
            assert(wanted.contains(f));
            let j = choose|j: int| 0 <= j < wanted.len() && wanted[j] == f;
            assert(wanted[j] == segments[j + 1]);
        }
    }
}

/// The canonical text of a well-formed target is read back as that target.
pub proof fn lemma_canonical_text_parses(t: TargetView)
    requires
        t.wf(),
    ensures
        parse_spec(t.canonical_text()) == Ok::<TargetView, MalformedSpec>(t),
{
    let head = t.arch_text();
    let names = names_of(t.architectures);
    let segments = seq![head] + t.features;
    assert forall|i: int| 0 <= i < names.len() implies free_of(#[trigger] names[i], '+')
        && free_of(names[i], '|') by {
        Architecture::lemma_name_shape(t.architectures[i]);
    }
    Architecture::lemma_name_shape(t.architectures[0]);
    if t.architectures.len() > 1 {
        let inner = join(names, seq!['|']);
        lemma_join_free_of(names, seq!['|'], '+');
        lemma_split_join(names, '|');
        assert(head.subrange(1, head.len() - 1) =~= inner);
        assert(arch_names(head) == names);
    } else {
        assert(names =~= seq![head]);
        assert(head[0] != '[');
    }
    lemma_architectures_of_names(t.architectures);
    assert forall|i: int| 0 <= i < segments.len() implies free_of(#[trigger] segments[i], '+') by {
        if i > 0 {
            assert(segments[i] == t.features[i - 1]);
        }
    }
    lemma_split_join(segments, '+');
    assert(segments.skip(1) =~= t.features);
    assert(segments[0] == head);
    lemma_canonical_unique(t.features, t.features);
}

/// Reading a text, writing the target in canonical form and reading that
/// again gives the target that the first reading gave.
pub proof fn lemma_round_trip(s: Seq<char>)
    requires
        parse_spec(s) is Ok,
    ensures
        parse_spec(parse_spec(s)->Ok_0.canonical_text()) == parse_spec(s),
{
    lemma_parse_wf(s);
    lemma_canonical_text_parses(parse_spec(s)->Ok_0);
}

/// The order in which a text lists its features, and how often it lists
/// one, make no difference to the target.
pub proof fn lemma_feature_order_irrelevant(s1: Seq<char>, s2: Seq<char>)
    requires
        split(s1, '+')[0] == split(s2, '+')[0],
        same_texts(split(s1, '+').skip(1), split(s2, '+').skip(1)),
    ensures
        parse_spec(s1) == parse_spec(s2),
{
    let w1 = split(s1, '+').skip(1);
    let w2 = split(s2, '+').skip(1);
    lemma_canonical_unique(w1, w2);
    if has_empty(w1) {
        let i = choose|i: int| 0 <= i < w1.len() && (#[trigger] w1[i]).len() == 0;
        assert(w1.contains(w1[i]));
        let j = choose|j: int| 0 <= j < w2.len() && w2[j] == w1[i];
        assert(w2[j].len() == 0);
    }
    if has_empty(w2) {
        let i = choose|i: int| 0 <= i < w2.len() && (#[trigger] w2[i]).len() == 0;
        assert(w2.contains(w2[i]));
        let j = choose|j: int| 0 <= j < w1.len() && w1[j] == w2[i];
        assert(w1[j].len() == 0);
    }
}

/// A set of acceptable architectures together with the features that an
/// implementation requires of the processor. A target is read from a text
/// once and does not change afterwards.
#[derive(Debug)]
pub struct Target {
    architectures: Vec<Architecture>,
    features: Vec<String>,
}

impl View for Target {
    type V = TargetView;

    closed spec fn view(&self) -> TargetView {
        TargetView { architectures: self.architectures@, features: self.features.deep_view() }
    }
}

impl Clone for Target {
    fn clone(&self) -> (copy: Target)
        ensures
            copy@ == self@,
    {
        proof {
            use_type_invariant(self);
        }
        let mut architectures: Vec<Architecture> = Vec::new();
        let mut i: usize = 0;
        while i < self.architectures.len()
            invariant
                i <= self.architectures.len(),
                architectures@ == self.architectures@.take(i as int),
            decreases self.architectures.len() - i,
        {
            architectures.push(self.architectures[i]);
            assert(self.architectures@.take(i + 1) =~= self.architectures@.take(i as int).push(
                self.architectures@[i as int],
            ));
            i += 1;
        }
        assert(self.architectures@.take(self.architectures.len() as int) =~= self.architectures@);
        let mut features: Vec<String> = Vec::new();
        let mut k: usize = 0;
        assert(features.deep_view() =~= self.features.deep_view().take(0));
        while k < self.features.len()
            invariant
                k <= self.features.len(),
                features.deep_view() == self.features.deep_view().take(k as int),
            decreases self.features.len() - k,
        {
            let ghost before = features.deep_view();
            features.push(self.features[k].clone());
            assert(features.deep_view() =~= before.push(self.features[k as int]@));
            assert(self.features.deep_view().take(k + 1) =~= self.features.deep_view().take(
                k as int,
            ).push(self.features[k as int]@));
            k += 1;
        }
        assert(self.features.deep_view().take(self.features.len() as int)
            =~= self.features.deep_view());
        Target { architectures, features }
    }
}

impl PartialEq for Target {
    fn eq(&self, other: &Target) -> (same: bool) {
        let mut k: u8 = 0;
        while k < 8
            invariant
                k <= 8,
                forall|a: Architecture| a.ordinal() < k ==> self@.lists(a) == other@.lists(a),
            decreases 8 - k,
        {
            if let Some(a) = Architecture::from_ordinal(k) {
                if self.lists(a) != other.lists(a) {
                    return false;
                }
            }
            k += 1;
        }
        if self.features.len() != other.features.len() {
            assert(self@.features.len() != other@.features.len());
            return false;
        }
        let mut i: usize = 0;
        while i < self.features.len()
            invariant
                i <= self.features.len(),
                self.features.len() == other.features.len(),
                forall|j: int| 0 <= j < i ==> self@.features[j] == other@.features[j],
            decreases self.features.len() - i,
        {
            if self.features[i] != other.features[i] {
                assert(self@.features[i as int] != other@.features[i as int]);
                return false;
            }
            i += 1;
        }
        assert(self@.features =~= other@.features);
        true
    }
}

impl Eq for Target {

}

impl vstd::std_specs::cmp::PartialEqSpecImpl for Target {
    open spec fn obeys_eq_spec() -> bool {
        true
    }

    open spec fn eq_spec(&self, other: &Target) -> bool {
        self@.same_target(other@)
    }
}

impl Target {
    #[verifier::type_invariant]
    spec fn well_formed(&self) -> bool {
        self@.wf()
    }

    /// Reads a target specification: an architecture name, or a list of
    /// names in brackets with `|` between them, and then any number of
    /// features, each behind a `+`.
    #[verifier::loop_isolation(false)]
    pub fn parse(s: &str) -> (r: Result<Target, MalformedSpec>)
        ensures
            r matches Ok(t) ==> parse_spec(s@) == Ok::<TargetView, MalformedSpec>(t@),
            r matches Err(e) ==> parse_spec(s@) == Err::<TargetView, MalformedSpec>(e),
    {
        let segments = split_text(s, '+');
        let ghost sv = segments.deep_view();
        proof {
            lemma_split(s@, '+');
            lemma_parse_wf(s@);
        }
        let head = segments[0].as_str();
        let hc = chars_of(head);
        if hc.len() == 0 {
            return Err(MalformedSpec::EmptyArchitecture);
        }
        let open = hc[0] == '[';
        if open && hc[hc.len() - 1] != ']' {
            return Err(MalformedSpec::UnterminatedBracket);
        }
        let names = if open {
            split_text(head.substring_char(1, hc.len() - 1), '|')
        } else {
            let mut only: Vec<String> = Vec::new();
            only.push(segments[0].clone());
            assert(only.deep_view() =~= seq![head@]);
            only
        };
        let ghost nv = names.deep_view();
        assert(nv == arch_names(head@));
        let mut architectures: Vec<Architecture> = Vec::new();
        let mut i: usize = 0;
        assert(nv.skip(0) =~= nv);
        while i < names.len()
            invariant
                i <= names.len(),
                nv == names.deep_view(),
                architectures_of(nv) == match architectures_of(nv.skip(i as int)) {
                    Ok(rest) => Ok::<Seq<Architecture>, MalformedSpec>(architectures@ + rest),
                    Err(e) => Err(e),
                },
            decreases names.len() - i,
        {
            let ghost tail = nv.skip(i as int);
            assert(tail[0] == names[i as int]@);
            assert(tail.drop_first() =~= nv.skip(i + 1));
            match Architecture::new(names[i].as_str()) {
                Ok(a) => {
                    proof {
                        if let Ok(rest) = architectures_of(nv.skip(i + 1)) {
                            assert(architectures@ + (seq![a] + rest) =~= architectures@.push(a)
                                + rest);
                        }
                    }
                    architectures.push(a);
                },
                Err(_) => {
                    if names[i].as_str().is_empty() {
                        return Err(MalformedSpec::EmptyBracketElement);
                    } else {
                        return Err(MalformedSpec::UnknownArchitecture);
                    }
                },
            }
            i += 1;
        }
        assert(architectures_of(nv) == Ok::<Seq<Architecture>, MalformedSpec>(architectures@)) by {
            assert(architectures@ + Seq::<Architecture>::empty() =~= architectures@);
        }
        let mut wanted: Vec<String> = Vec::new();
        let mut j: usize = 1;
        assert(wanted.deep_view() =~= sv.subrange(1, 1));
        while j < segments.len()
            invariant
                1 <= j <= segments.len(),
                sv == segments.deep_view(),
                wanted.deep_view() == sv.subrange(1, j as int),
                forall|k: int| 1 <= k < j ==> (#[trigger] sv[k]).len() > 0,
            decreases segments.len() - j,
        {
            assert(sv[j as int] == segments[j as int]@);
            if segments[j].as_str().is_empty() {
                assert(sv.skip(1)[j - 1] == sv[j as int]);
                return Err(MalformedSpec::EmptyFeature);
            }
            let ghost before = wanted.deep_view();
            wanted.push(segments[j].clone());
            assert(wanted.deep_view() =~= before.push(sv[j as int]));
            assert(sv.subrange(1, j + 1) =~= sv.subrange(1, j as int).push(sv[j as int]));
            j += 1;
        }
        assert(sv.subrange(1, segments.len() as int) =~= sv.skip(1));
        assert(!has_empty(sv.skip(1))) by {
            assert forall|k: int| 0 <= k < sv.skip(1).len() implies (#[trigger] sv.skip(1)[k]).len()
                > 0 by {
                assert(sv.skip(1)[k] == sv[k + 1]);
            }
        }
        let features = canonical_texts(&wanted);
        Ok(Target { architectures, features })
    }

    /// The canonical text of the target. Reading it gives the target back.
    pub fn target_string(&self) -> (text: String)
        ensures
            text@ == self@.canonical_text(),
            parse_spec(text@) == Ok::<TargetView, MalformedSpec>(self@),
    {
        proof {
            use_type_invariant(self);
            lemma_canonical_text_parses(self@);
            reveal_strlit("[");
            reveal_strlit("]");
            reveal_strlit("|");
            reveal_strlit("+");
            assert("["@ =~= seq!['[']);
            assert("]"@ =~= seq![']']);
            assert("|"@ =~= seq!['|']);
            assert("+"@ =~= seq!['+']);
        }
        let arches = if self.architectures.len() > 1 {
            let mut names: Vec<String> = Vec::new();
            let mut i: usize = 0;
            assert(names.deep_view() =~= names_of(self.architectures@).take(0));
            while i < self.architectures.len()
                invariant
                    i <= self.architectures.len(),
                    names.deep_view() == names_of(self.architectures@).take(i as int),
                decreases self.architectures.len() - i,
            {
                let ghost before = names.deep_view();
                let name = String::from_str(self.architectures[i].as_str());
                names.push(name);
                assert(names.deep_view() =~= before.push(self.architectures[i as int].name()));
                assert(names_of(self.architectures@).take(i + 1) =~= names_of(
                    self.architectures@,
                ).take(i as int).push(self.architectures[i as int].name()));
                i += 1;
            }
            assert(names_of(self.architectures@).take(self.architectures.len() as int)
                =~= names_of(self.architectures@));
            let mut list = String::from_str("[");
            list.append(join_text(&names, "|").as_str());
            list.append("]");
            list
        } else {
            String::from_str(self.architectures[0].as_str())
        };
        assert(arches@ == self@.arch_text());
        let mut segments: Vec<String> = Vec::new();
        segments.push(arches);
        let mut k: usize = 0;
        assert(segments.deep_view() =~= seq![self@.arch_text()] + self@.features.take(0));
        while k < self.features.len()
            invariant
                k <= self.features.len(),
                segments.deep_view() == seq![self@.arch_text()] + self@.features.take(k as int),
            decreases self.features.len() - k,
        {
            let ghost before = segments.deep_view();
            segments.push(self.features[k].clone());
            assert(segments.deep_view() =~= before.push(self@.features[k as int]));
            assert(seq![self@.arch_text()] + self@.features.take(k + 1) =~= (seq![
                self@.arch_text(),
            ] + self@.features.take(k as int)).push(self@.features[k as int]));
            k += 1;
        }
        assert(self@.features.take(self.features.len() as int) =~= self@.features);
        join_text(&segments, "+")
    }

    /// The architectures that the target lists, as they were given. There
    /// is at least one.
    pub fn architectures(&self) -> (a: &Vec<Architecture>)
        ensures
            a@ == self@.architectures,
            self@.wf(),
    {
        proof {
            use_type_invariant(self);
        }
        &self.architectures
    }

    /// The features that the target requires, in canonical order.
    pub fn features(&self) -> (f: &Vec<String>)
        ensures
            f.deep_view() == self@.features,
            self@.wf(),
    {
        proof {
            use_type_invariant(self);
        }
        &self.features
    }

    /// The names of the architectures that the target lists.
    pub fn arches_as_str(&self) -> (names: Vec<&'static str>)
        ensures
            names@.len() == self@.architectures.len(),
            forall|i: int|
                0 <= i < names@.len() ==> (#[trigger] names@[i])@ == self@.architectures[i].name(),
    {
        let mut names: Vec<&'static str> = Vec::new();
        let mut i: usize = 0;
        while i < self.architectures.len()
            invariant
                i <= self.architectures.len(),
                names@.len() == i,
                forall|k: int|
                    0 <= k < i ==> (#[trigger] names@[k])@ == self.architectures@[k].name(),
            decreases self.architectures.len() - i,
        {
            names.push(self.architectures[i].as_str());
            i += 1;
        }
        names
    }

    /// The features in one word, fit to stand in an identifier: joined by
    /// `_`, with the dots taken out.
    pub fn features_string(&self) -> (word: String)
        ensures
            word@ == without(join(self@.features, seq!['_']), '.'),
    {
        proof {
            reveal_strlit("_");
            assert("_"@ =~= seq!['_']);
        }
        let joined = join_text(&self.features, "_");
        remove_char(joined.as_str(), '.')
    }

    /// Whether the target requires any feature.
    pub fn has_features_specified(&self) -> (b: bool)
        ensures
            b == self@.has_features(),
    {
        self.features.len() > 0
    }

    /// Whether the target lists `arch`.
    pub fn lists(&self, arch: Architecture) -> (b: bool)
        ensures
            b == self@.lists(arch),
    {
        let mut i: usize = 0;
        while i < self.architectures.len()
            invariant
                i <= self.architectures.len(),
                forall|k: int| 0 <= k < i ==> self.architectures@[k] != arch,
            decreases self.architectures.len() - i,
        {
            if self.architectures[i] == arch {
                return true;
            }
            i += 1;
        }
        false
    }
}

} // verus!
