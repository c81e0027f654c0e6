use vstd::prelude::*;
use crate::arch::Architecture;
use crate::detect::DetectionMode;
use crate::target::{Target, TargetView};
use crate::text::{chars_of, join, join_text, without};

verus! {

/// What stands for one character inside a string literal.
pub open spec fn escape_one(c: char) -> Seq<char> {
    if c == '"' || c == '\\' {
        seq!['\\', c]
    } else {
        seq![c]
    }
}

/// A text as it stands inside a string literal: a backslash before each
/// double quote and each backslash.
pub open spec fn escaped(s: Seq<char>) -> Seq<char>
    decreases s.len(),
{
    if s.len() == 0 {
        Seq::empty()
    } else {
        escaped(s.drop_last()) + escape_one(s.last())
    }
}

/// The string literal that denotes `s`.
pub open spec fn quoted(s: Seq<char>) -> Seq<char> {
    seq!['"'] + escaped(s) + seq!['"']
}

/// What the inside of a string literal denotes: a backslash stands for
/// the character behind it.
pub open spec fn unescaped(t: Seq<char>) -> Seq<char>
    decreases t.len(),
{
    if t.len() == 0 {
        Seq::empty()
    } else if t[0] == '\\' && t.len() >= 2 {
        seq![t[1]] + unescaped(t.skip(2))
    } else {
        seq![t[0]] + unescaped(t.skip(1))
    }
}

/// Escaping two texts in a row is escaping each.
pub proof fn lemma_escaped_concat(a: Seq<char>, b: Seq<char>)
    ensures
        escaped(a + b) == escaped(a) + escaped(b),
    decreases b.len(),
{
    if b.len() == 0 {
        assert(a + b =~= a);
        assert(escaped(a) + escaped(b) =~= escaped(a));
    } else {
        lemma_escaped_concat(a, b.drop_last());
        assert((a + b).drop_last() =~= a + b.drop_last());
        assert((a + b).last() == b.last());
        assert(escaped(a + b) =~= escaped(a) + (escaped(b.drop_last()) + escape_one(b.last())));
    }
}

/// Nothing is lost in a string literal: what the escaped text denotes is
/// the text itself.
pub proof fn lemma_unescaped_escaped(s: Seq<char>)
    ensures
        unescaped(escaped(s)) == s,
    decreases s.len(),
{
    if s.len() > 0 {
        let c = s[0];
        let tail = s.skip(1);
        assert(s =~= seq![c] + tail);
        lemma_escaped_concat(seq![c], tail);
        assert(seq![c].drop_last() =~= Seq::<char>::empty());
        assert(escaped(Seq::<char>::empty()) =~= Seq::<char>::empty());
        assert(seq![c].last() == c);
        assert(escaped(seq![c]) =~= escape_one(c));
        lemma_unescaped_escaped(tail);
        let t = escaped(s);
        assert(t == escape_one(c) + escaped(tail));
        if c == '"' || c == '\\' {
            assert(t[0] == '\\' && t[1] == c);
            assert(t.skip(2) =~= escaped(tail));
        } else {
            assert(t[0] == c);
            assert(t.skip(1) =~= escaped(tail));
        }
        assert(unescaped(t) =~= seq![c] + tail);
    }
}

/// The string literal that denotes `s`.
pub fn quote_text(s: &str) -> (lit: String)
    ensures
        lit@ == quoted(s@),
{
    proof {
        reveal_strlit("\"");
        reveal_strlit("\\");
        assert("\""@ =~= seq!['"']);
        assert("\\"@ =~= seq!['\\']);
    }
    let cs = chars_of(s);
    let n = cs.len();
    let mut lit = String::from_str("\"");
    let mut start: usize = 0;
    let mut i: usize = 0;
    assert(lit@ + s@.subrange(0, 0) =~= seq!['"'] + escaped(s@.take(0)));
    while i < n
        invariant
            start <= i <= n,
            n == cs.len(),
            cs@ == s@,
            "\\"@ == seq!['\\'],
            lit@ + s@.subrange(start as int, i as int) == seq!['"'] + escaped(s@.take(i as int)),
        decreases n - i,
    {
        let ghost before = lit@;
        let ghost run = s@.subrange(start as int, i as int);
        let c = cs[i];
        assert(s@.take(i + 1).drop_last() =~= s@.take(i as int));
        assert(s@.take(i + 1).last() == c);
        if c == '"' || c == '\\' {
            lit.append(s.substring_char(start, i));
            lit.append("\\");
            start = i;
            assert(lit@ + s@.subrange(i as int, i + 1) =~= before + run + seq!['\\', c]);
            assert(before + run + seq!['\\', c] =~= (before + run) + escape_one(c));
        } else {
            assert(before + s@.subrange(start as int, i + 1) =~= (before + run) + escape_one(c));
        }
        assert(seq!['"'] + escaped(s@.take(i + 1)) =~= (seq!['"'] + escaped(s@.take(i as int)))
            + escape_one(c));
        i += 1;
    }
    lit.append(s.substring_char(start, n));
    assert(s@.take(n as int) =~= s@);
    lit.append("\"");
    lit
}

impl Architecture {
    /// The name of the macro that asks the running processor for a feature
    /// of this architecture.
    pub open spec fn detector_macro(self) -> Seq<char> {
        match self {
            Architecture::X86 => "is_x86_feature_detected"@,
            Architecture::X86_64 => "is_x86_feature_detected"@,
            Architecture::Arm => "is_arm_feature_detected"@,
            Architecture::Aarch64 => "is_aarch64_feature_detected"@,
            Architecture::Mips => "is_mips_feature_detected"@,
            Architecture::Mips64 => "is_mips64_feature_detected"@,
            Architecture::PowerPC => "is_powerpc_feature_detected"@,
            Architecture::PowerPC64 => "is_powerpc64_feature_detected"@,
        }
    }

    /// The name of the macro that asks the running processor for a feature
    /// of this architecture.
    pub fn feature_detector(&self) -> (name: &'static str)
        ensures
            name@ == self.detector_macro(),
    {
        match self {
            Architecture::X86 => "is_x86_feature_detected",
            Architecture::X86_64 => "is_x86_feature_detected",
            Architecture::Arm => "is_arm_feature_detected",
            Architecture::Aarch64 => "is_aarch64_feature_detected",
            Architecture::Mips => "is_mips_feature_detected",
            Architecture::Mips64 => "is_mips64_feature_detected",
            Architecture::PowerPC => "is_powerpc_feature_detected",
            Architecture::PowerPC64 => "is_powerpc64_feature_detected",
        }
    }
}

/// The condition `target_arch = "name"`.
pub open spec fn arch_clause(a: Architecture) -> Seq<char> {
    "target_arch = "@ + quoted(a.name())
}

/// The condition `target_arch = "name"` of each of some architectures.
pub open spec fn arch_clauses(architectures: Seq<Architecture>) -> Seq<Seq<char>> {
    Seq::new(architectures.len(), |i: int| arch_clause(architectures[i]))
}

/// The attribute that admits code on the given architectures only.
pub open spec fn target_arch_text(architectures: Seq<Architecture>) -> Seq<char> {
    "#[cfg(any("@ + join(arch_clauses(architectures), ", "@) + "))]"@
}

/// The attribute that keeps code off the given architectures.
pub open spec fn not_target_arch_text(architectures: Seq<Architecture>) -> Seq<char> {
    "#[cfg(not(any("@ + join(arch_clauses(architectures), ", "@) + ")))]"@
}

/// The attribute that enables one feature for a function.
pub open spec fn target_feature_text(feature: Seq<char>) -> Seq<char> {
    "#[target_feature(enable = "@ + quoted(feature) + ")]"@
}

/// How one feature is asked for on architecture `a`.
pub open spec fn feature_test(a: Architecture, feature: Seq<char>, mode: DetectionMode) -> Seq<
    char,
> {
    match mode {
        DetectionMode::Adaptive => a.detector_macro() + "!("@ + quoted(feature) + ")"@,
        DetectionMode::Static => "target_feature = "@ + quoted(feature),
    }
}

/// How each of some features is asked for on architecture `a`.
pub open spec fn feature_tests(a: Architecture, features: Seq<Seq<char>>, mode: DetectionMode)
    -> Seq<Seq<char>> {
    Seq::new(features.len(), |i: int| feature_test(a, features[i], mode))
}

/// The expression that tells whether all of `features` are usable on
/// architecture `a`.
pub open spec fn condition_text(a: Architecture, features: Seq<Seq<char>>, mode: DetectionMode)
    -> Seq<char> {
    match mode {
        DetectionMode::Adaptive => join(feature_tests(a, features, mode), " && "@),
        DetectionMode::Static => "cfg!(all("@ + join(feature_tests(a, features, mode), ", "@)
            + "))"@,
    }
}

/// The block that holds the condition for architecture `a` and is compiled
/// there only.
pub open spec fn arch_block(a: Architecture, features: Seq<Seq<char>>, mode: DetectionMode)
    -> Seq<char> {
    "#[cfg("@ + arch_clause(a) + ")] { "@ + condition_text(a, features, mode) + " }"@
}

/// The block of each architecture of a target.
pub open spec fn arch_blocks(t: TargetView, mode: DetectionMode) -> Seq<Seq<char>> {
    Seq::new(t.architectures.len(), |i: int| arch_block(t.architectures[i], t.features, mode))
}

/// The expression that tells at a call whether the features of a target
/// are usable. A target without features asks for nothing.
pub open spec fn detection_text(t: TargetView, mode: DetectionMode) -> Seq<char> {
    if t.has_features() {
        "{ "@ + join(arch_blocks(t, mode), " "@) + " }"@
    } else {
        "true"@
    }
}

/// The features of a target in one word.
pub open spec fn features_word(t: TargetView) -> Seq<char> {
    without(join(t.features, seq!['_']), '.')
}

/// The name of the function that holds one implementation of `ident`: the
/// features of its target in the name where it has any, and the name of
/// the default version otherwise.
pub open spec fn version_name(ident: Seq<char>, target: Option<TargetView>) -> Seq<char> {
    match target {
        Some(t) => if t.has_features() {
            ident + "_"@ + features_word(t) + "_version"@
        } else {
            ident + "_default_version"@
        },
        None => ident + "_default_version"@,
    }
}

/// The attribute that admits code on `architectures` only, or, with
/// `negate`, everywhere else.
fn arch_attribute(architectures: &Vec<Architecture>, negate: bool) -> (text: String)
    ensures
        text@ == if negate {
            not_target_arch_text(architectures@)
        } else {
            target_arch_text(architectures@)
        },
{
    let ghost wanted = arch_clauses(architectures@);
    let mut clauses: Vec<String> = Vec::new();
    let mut i: usize = 0;
    assert(clauses.deep_view() =~= wanted.take(0));
    while i < architectures.len()
        invariant
            i <= architectures.len(),
            wanted == arch_clauses(architectures@),
            clauses.deep_view() == wanted.take(i as int),
        decreases architectures.len() - i,
    {
        let ghost before = clauses.deep_view();
        let mut clause = String::from_str("target_arch = ");
        clause.append(quote_text(architectures[i].as_str()).as_str());
        clauses.push(clause);
        assert(clauses.deep_view() =~= before.push(wanted[i as int]));
        assert(wanted.take(i + 1) =~= wanted.take(i as int).push(wanted[i as int]));
        i += 1;
    }
    assert(wanted.take(architectures.len() as int) =~= wanted);
    let mut text = if negate {
        String::from_str("#[cfg(not(any(")
    } else {
        String::from_str("#[cfg(any(")
    };
    text.append(join_text(&clauses, ", ").as_str());
    if negate {
        text.append(")))]");
    } else {
        text.append("))]");
    }
    text
}

/// The attribute that keeps code off `architectures`.
pub fn cfg_not_any_arch(architectures: &Vec<Architecture>) -> (text: String)
    ensures
        text@ == not_target_arch_text(architectures@),
{
    arch_attribute(architectures, true)
}

/// The expression that tells whether all of `features` are usable on
/// architecture `a`.
fn condition(a: Architecture, features: &Vec<String>, mode: DetectionMode) -> (text: String)
    ensures
        text@ == condition_text(a, features.deep_view(), mode),
{
    let ghost wanted = feature_tests(a, features.deep_view(), mode);
    let mut tests: Vec<String> = Vec::new();
    let mut i: usize = 0;
    assert(tests.deep_view() =~= wanted.take(0));
    while i < features.len()
        invariant
            i <= features.len(),
            wanted == feature_tests(a, features.deep_view(), mode),
            tests.deep_view() == wanted.take(i as int),
        decreases features.len() - i,
    {
        let ghost before = tests.deep_view();
        let lit = quote_text(features[i].as_str());
        let test = match mode {
            DetectionMode::Adaptive => {
                let mut t = String::from_str(a.feature_detector());
                t.append("!(");
                t.append(lit.as_str());
                t.append(")");
                t
            },
            DetectionMode::Static => {
                let mut t = String::from_str("target_feature = ");
                t.append(lit.as_str());
                t
            },
        };
        assert(test@ == wanted[i as int]);
        tests.push(test);
        assert(tests.deep_view() =~= before.push(wanted[i as int]));
        assert(wanted.take(i + 1) =~= wanted.take(i as int).push(wanted[i as int]));
        i += 1;
    }
    assert(wanted.take(features.len() as int) =~= wanted);
    match mode {
        DetectionMode::Adaptive => join_text(&tests, " && "),
        DetectionMode::Static => {
            let mut text = String::from_str("cfg!(all(");
            text.append(join_text(&tests, ", ").as_str());
            text.append("))");
            text
        },
    }
}

impl Target {
    /// The attribute that admits code on the architectures of the target
    /// only.
    pub fn target_arch(&self) -> (text: String)
        ensures
            text@ == target_arch_text(self@.architectures),
    {
        arch_attribute(self.architectures(), false)
    }

    /// The attributes that enable the features of the target for a
    /// function, one for each feature, in canonical order.
    pub fn target_feature(&self) -> (attrs: Vec<String>)
        ensures
            attrs.deep_view() == Seq::new(
                self@.features.len(),
                |i: int| target_feature_text(self@.features[i]),
            ),
    {
        let features = self.features();
        let ghost wanted = Seq::new(
            self@.features.len(),
            |i: int| target_feature_text(self@.features[i]),
        );
        let mut attrs: Vec<String> = Vec::new();
        let mut i: usize = 0;
        assert(attrs.deep_view() =~= wanted.take(0));
        while i < features.len()
            invariant
                i <= features.len(),
                features.deep_view() == self@.features,
                wanted.len() == features.len(),
                forall|k: int|
                    0 <= k < wanted.len() ==> wanted[k] == target_feature_text(self@.features[k]),
                attrs.deep_view() == wanted.take(i as int),
            decreases features.len() - i,
        {
            let ghost before = attrs.deep_view();
            let mut attr = String::from_str("#[target_feature(enable = ");
            attr.append(quote_text(features[i].as_str()).as_str());
            attr.append(")]");
            assert(features.deep_view()[i as int] == features[i as int]@);
            attrs.push(attr);
            assert(attrs.deep_view() =~= before.push(wanted[i as int]));
            assert(wanted.take(i + 1) =~= wanted.take(i as int).push(wanted[i as int]));
            i += 1;
        }
        assert(wanted.take(features.len() as int) =~= wanted);
        attrs
    }

    /// The expression that tells at a call whether the features of the
    /// target are usable: under adaptive detection it asks the processor,
    /// under static detection the build. It holds one block for each
    /// architecture of the target.
    pub fn features_detected(&self, mode: DetectionMode) -> (text: String)
        ensures
            text@ == detection_text(self@, mode),
    {
        if !self.has_features_specified() {
            return String::from_str("true");
        }
        let architectures = self.architectures();
        let features = self.features();
        let ghost wanted = arch_blocks(self@, mode);
        let mut blocks: Vec<String> = Vec::new();
        let mut i: usize = 0;
        assert(blocks.deep_view() =~= wanted.take(0));
        while i < architectures.len()
            invariant
                i <= architectures.len(),
                architectures@ == self@.architectures,
                features.deep_view() == self@.features,
                wanted == arch_blocks(self@, mode),
                blocks.deep_view() == wanted.take(i as int),
            decreases architectures.len() - i,
        {
            let ghost before = blocks.deep_view();
            let a = architectures[i];
            let mut block = String::from_str("#[cfg(");
            block.append("target_arch = ");
            block.append(quote_text(a.as_str()).as_str());
            block.append(")] { ");
            block.append(condition(a, features, mode).as_str());
            block.append(" }");
            assert(block@ =~= wanted[i as int]);
            blocks.push(block);
            assert(blocks.deep_view() =~= before.push(wanted[i as int]));
            assert(wanted.take(i + 1) =~= wanted.take(i as int).push(wanted[i as int]));
            i += 1;
        }
        assert(wanted.take(architectures.len() as int) =~= wanted);
        let mut text = String::from_str("{ ");
        text.append(join_text(&blocks, " ").as_str());
        text.append(" }");
        text
    }
}

/// The name of the function that holds one implementation of `ident`:
/// that of the default version where `target` is `None` or requires no
/// feature.
pub fn feature_fn_name(ident: &str, target: Option<&Target>) -> (name: String)
    ensures
        name@ == version_name(
            ident@,
            match target {
                Some(t) => Some(t@),
                None => None,
            },
        ),
{
    let mut name = String::from_str(ident);
    if let Some(t) = target {
        if t.has_features_specified() {
            name.append("_");
            name.append(t.features_string().as_str());
            name.append("_version");
            assert(name@ =~= ident@ + "_"@ + features_word(t@) + "_version"@);
            return name;
        }
    }
    name.append("_default_version");
    name
}

} // verus!
