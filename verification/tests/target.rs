use multiversion::arch::Architecture;
use multiversion::detect::DetectionMode;
use multiversion::emit::feature_fn_name;
use multiversion::error::MalformedSpec;
use multiversion::target::Target;
use proc_macro2::TokenStream;
use syn::parse::Parser;
use syn::Attribute;

fn attribute(text: &str) -> Attribute {
    let mut attrs = Attribute::parse_outer.parse_str(text).unwrap();
    assert_eq!(attrs.len(), 1);
    attrs.remove(0)
}

fn tokens(text: &str) -> String {
    text.parse::<TokenStream>().unwrap().to_string()
}

#[test]
fn parse_single_arch_no_features() {
    let target = Target::parse("x86").unwrap();
    assert_eq!(*target.architectures(), vec![Architecture::X86]);
    assert_eq!(target.features().is_empty(), true);
}

#[test]
fn parse_multiple_arch_no_features() {
    let target = Target::parse("[arm|aarch64|mips|mips64]").unwrap();
    assert_eq!(
        *target.architectures(),
        vec![
            Architecture::Arm,
            Architecture::Aarch64,
            Architecture::Mips,
            Architecture::Mips64
        ]
    );
    assert_eq!(target.features().len(), 0);
}

#[test]
fn parse_single_arch_with_features() {
    let target = Target::parse("x86_64+sse4.2+xsave").unwrap();
    assert_eq!(*target.architectures(), vec![Architecture::X86_64]);
    assert_eq!(*target.features(), vec!["sse4.2", "xsave"]);
}

#[test]
fn parse_multiple_arch_with_features() {
    let target = Target::parse("[powerpc|powerpc64]+altivec+power8").unwrap();
    assert_eq!(
        *target.architectures(),
        vec![Architecture::PowerPC, Architecture::PowerPC64]
    );
    assert_eq!(*target.features(), vec!["altivec", "power8"]);
}

#[test]
fn parse_no_arch() {
    Target::parse("sse4.2+xsave").unwrap_err();
}

#[test]
fn parse_missing_arch_close() {
    Target::parse("[x86+sse4.2+xsave").unwrap_err();
}

#[test]
fn parse_malformed_arch() {
    Target::parse("[x86|]+sse4.2+xsave").unwrap_err();
}

#[test]
fn parse_extra_plus_start() {
    Target::parse("+x86+sse4.2+xsave").unwrap_err();
}

#[test]
fn parse_extra_plus_end() {
    Target::parse("x86+sse4.2+xsave+").unwrap_err();
}

#[test]
fn generate_single_target_arch() {
    let target = Target::parse("x86+avx").unwrap();
    assert_eq!(
        attribute(&target.target_arch()),
        attribute("#[cfg(any(target_arch = \"x86\"))]")
    );
}

#[test]
fn generate_multiple_target_arch() {
    let target = Target::parse("[x86|x86_64]+avx").unwrap();
    assert_eq!(
        attribute(&target.target_arch()),
        attribute("#[cfg(any(target_arch = \"x86\", target_arch = \"x86_64\"))]")
    );
}

#[test]
fn generate_single_target_feature() {
    let target = Target::parse("x86+avx").unwrap();
    let attrs: Vec<Attribute> = target.target_feature().iter().map(|a| attribute(a)).collect();
    assert_eq!(attrs, vec![attribute("#[target_feature(enable = \"avx\")]")]);
}

#[test]
fn generate_multiple_target_feature() {
    let target = Target::parse("x86+avx+xsave").unwrap();
    let attrs: Vec<Attribute> = target.target_feature().iter().map(|a| attribute(a)).collect();
    assert_eq!(
        attrs,
        vec![
            attribute("#[target_feature(enable = \"avx\")]"),
            attribute("#[target_feature(enable = \"xsave\")]")
        ]
    );
}

#[test]
fn generate_single_features_detect() {
    let target = Target::parse("x86+avx").unwrap();
    assert_eq!(
        tokens(&target.features_detected(DetectionMode::Adaptive)),
        tokens(
            "{
                #[cfg(target_arch = \"x86\")]
                {
                    is_x86_feature_detected!(\"avx\")
                }
            }"
        )
    );
    assert_eq!(
        tokens(&target.features_detected(DetectionMode::Static)),
        tokens(
            "{
                #[cfg(target_arch = \"x86\")]
                {
                    cfg!(all(target_feature = \"avx\"))
                }
            }"
        )
    );
}

#[test]
fn generate_multiple_features_detect() {
    let target = Target::parse("[x86|x86_64]+avx+xsave").unwrap();
    assert_eq!(
        tokens(&target.features_detected(DetectionMode::Adaptive)),
        tokens(
            "{
                #[cfg(target_arch = \"x86\")]
                {
                    is_x86_feature_detected!(\"avx\") && is_x86_feature_detected!(\"xsave\")
                }
                #[cfg(target_arch = \"x86_64\")]
                {
                    is_x86_feature_detected!(\"avx\") && is_x86_feature_detected!(\"xsave\")
                }
            }"
        )
    );
    assert_eq!(
        tokens(&target.features_detected(DetectionMode::Static)),
        tokens(
            "{
                #[cfg(target_arch = \"x86\")]
                {
                    cfg!(all(target_feature = \"avx\", target_feature = \"xsave\"))
                }
                #[cfg(target_arch = \"x86_64\")]
                {
                    cfg!(all(target_feature = \"avx\", target_feature = \"xsave\"))
                }
            }"
        )
    );
}

#[test]
fn malformed_inputs_name_their_fault() {
    assert_eq!(Target::parse("+x86").unwrap_err(), MalformedSpec::EmptyArchitecture);
    assert_eq!(Target::parse("x86+").unwrap_err(), MalformedSpec::EmptyFeature);
    assert_eq!(Target::parse("[x86+avx").unwrap_err(), MalformedSpec::UnterminatedBracket);
    assert_eq!(Target::parse("[x86|]+avx").unwrap_err(), MalformedSpec::EmptyBracketElement);
    assert_eq!(Target::parse("sse4.2").unwrap_err(), MalformedSpec::UnknownArchitecture);
}

#[test]
fn malformed_edge_cases() {
    assert_eq!(Target::parse("").unwrap_err(), MalformedSpec::EmptyArchitecture);
    assert_eq!(Target::parse("+").unwrap_err(), MalformedSpec::EmptyArchitecture);
    assert_eq!(Target::parse("[").unwrap_err(), MalformedSpec::UnterminatedBracket);
    assert_eq!(Target::parse("[]").unwrap_err(), MalformedSpec::EmptyBracketElement);
    assert_eq!(Target::parse("]").unwrap_err(), MalformedSpec::UnknownArchitecture);
    assert_eq!(Target::parse("x86]").unwrap_err(), MalformedSpec::UnknownArchitecture);
    assert_eq!(Target::parse("[|x86]").unwrap_err(), MalformedSpec::EmptyBracketElement);
    assert_eq!(Target::parse("[x86||arm]").unwrap_err(), MalformedSpec::EmptyBracketElement);
    assert_eq!(Target::parse("[x86|sparc]").unwrap_err(), MalformedSpec::UnknownArchitecture);
    assert_eq!(Target::parse("X86").unwrap_err(), MalformedSpec::UnknownArchitecture);
    assert_eq!(Target::parse("x86 ").unwrap_err(), MalformedSpec::UnknownArchitecture);
    assert_eq!(Target::parse("x86++avx").unwrap_err(), MalformedSpec::EmptyFeature);
    assert_eq!(Target::parse("x86+avx+").unwrap_err(), MalformedSpec::EmptyFeature);
}

#[test]
fn the_fault_that_stands_first_is_reported() {
    assert_eq!(Target::parse("+avx+").unwrap_err(), MalformedSpec::EmptyArchitecture);
    assert_eq!(Target::parse("[x86++").unwrap_err(), MalformedSpec::UnterminatedBracket);
    assert_eq!(Target::parse("sparc++").unwrap_err(), MalformedSpec::UnknownArchitecture);
    assert_eq!(Target::parse("[sparc|]").unwrap_err(), MalformedSpec::UnknownArchitecture);
    assert_eq!(Target::parse("[|sparc]").unwrap_err(), MalformedSpec::EmptyBracketElement);
}

#[test]
fn each_fault_has_a_message() {
    assert_eq!(
        MalformedSpec::EmptyArchitecture.message(),
        "expected architecture specifier"
    );
    assert_eq!(MalformedSpec::UnknownArchitecture.message(), "unknown architecture");
    assert_eq!(MalformedSpec::EmptyFeature.message(), "feature string cannot be empty");
    assert_eq!(
        MalformedSpec::UnterminatedBracket.message(),
        "architecture list is not closed"
    );
    assert_eq!(
        MalformedSpec::EmptyBracketElement.message(),
        "architecture list holds an empty name"
    );
}

#[test]
fn canonical_text_of_each_form() {
    assert_eq!(Target::parse("x86").unwrap().target_string(), "x86");
    assert_eq!(Target::parse("[x86]").unwrap().target_string(), "x86");
    assert_eq!(
        Target::parse("[arm|aarch64]").unwrap().target_string(),
        "[arm|aarch64]"
    );
    assert_eq!(
        Target::parse("x86_64+xsave+sse4.2").unwrap().target_string(),
        "x86_64+sse4.2+xsave"
    );
    assert_eq!(
        Target::parse("[mips64|mips]+b+a+b").unwrap().target_string(),
        "[mips64|mips]+a+b"
    );
    assert_eq!(
        Target::parse("[x86|x86]+avx").unwrap().target_string(),
        "[x86|x86]+avx"
    );
}

#[test]
fn round_trip_through_the_canonical_text() {
    for text in [
        "x86",
        "[x86]",
        "x86_64+xsave+sse4.2",
        "[arm|aarch64]+neon",
        "[powerpc|powerpc64]+power8+altivec+power8",
        "[mips|mips64|powerpc|powerpc64]",
        "[x86|x86]+a|b+[c]",
        "aarch64+\u{e9}+z+a",
    ] {
        let first = Target::parse(text).unwrap();
        let second = Target::parse(&first.target_string()).unwrap();
        assert!(first == second);
        assert_eq!(first.architectures(), second.architectures());
        assert_eq!(first.features(), second.features());
        assert_eq!(first.target_string(), second.target_string());
    }
}

#[test]
fn features_come_out_sorted() {
    let target = Target::parse("x86_64+xsave+sse4.2").unwrap();
    assert_eq!(*target.features(), vec!["sse4.2", "xsave"]);
    let other = Target::parse("x86_64+sse4.2+xsave").unwrap();
    assert!(target == other);
    assert_eq!(target.features(), other.features());
}

#[test]
fn features_are_ordered_as_strings_are() {
    let target = Target::parse("x86+b+ab+a+B+abc+\u{e9}+~+0").unwrap();
    let mut expected = vec!["b", "ab", "a", "B", "abc", "\u{e9}", "~", "0"];
    expected.sort_unstable();
    expected.dedup();
    assert_eq!(*target.features(), expected);
    assert_eq!(
        *target.features(),
        vec!["0", "B", "a", "ab", "abc", "b", "~", "\u{e9}"]
    );
}

#[test]
fn repeated_features_count_once() {
    let target = Target::parse("x86+avx+sse+avx+avx").unwrap();
    assert_eq!(*target.features(), vec!["avx", "sse"]);
    assert!(target == Target::parse("x86+sse+avx").unwrap());
}

#[test]
fn targets_are_equal_by_architecture_set() {
    let a = Target::parse("[x86|x86_64]+avx").unwrap();
    let b = Target::parse("[x86_64|x86]+avx").unwrap();
    let c = Target::parse("[x86|x86|x86_64]+avx").unwrap();
    assert!(a == b);
    assert!(a == c);
    assert!(Target::parse("[x86]").unwrap() == Target::parse("x86").unwrap());
    assert!(a != Target::parse("x86+avx").unwrap());
    assert!(a != Target::parse("[x86|x86_64]+avx2").unwrap());
    assert!(a != Target::parse("[x86|x86_64]").unwrap());
    assert!(a != Target::parse("[x86|x86_64]+avx+sse").unwrap());
}

#[test]
fn a_clone_is_the_same_target() {
    let a = Target::parse("[x86|x86_64]+xsave+avx").unwrap();
    let b = a.clone();
    assert!(a == b);
    assert_eq!(a.architectures(), b.architectures());
    assert_eq!(a.features(), b.features());
}

#[test]
fn what_a_target_lists() {
    let target = Target::parse("[arm|aarch64]+neon").unwrap();
    assert!(target.lists(Architecture::Arm));
    assert!(target.lists(Architecture::Aarch64));
    assert!(!target.lists(Architecture::X86));
    assert!(!target.lists(Architecture::X86_64));
    assert!(target.has_features_specified());
    assert!(!Target::parse("arm").unwrap().has_features_specified());
    assert_eq!(target.arches_as_str(), vec!["arm", "aarch64"]);
}

#[test]
fn features_in_one_word() {
    assert_eq!(
        Target::parse("x86_64+xsave+sse4.2").unwrap().features_string(),
        "sse42_xsave"
    );
    assert_eq!(Target::parse("x86+avx").unwrap().features_string(), "avx");
    assert_eq!(Target::parse("x86").unwrap().features_string(), "");
    assert_eq!(Target::parse("x86+.+a.b.+..c").unwrap().features_string(), "_c_ab");
}

#[test]
fn names_of_the_versions() {
    let avx = Target::parse("[x86|x86_64]+avx").unwrap();
    let two = Target::parse("x86_64+xsave+sse4.2").unwrap();
    let plain = Target::parse("arm").unwrap();
    assert_eq!(feature_fn_name("square", Some(&avx)), "square_avx_version");
    assert_eq!(feature_fn_name("square", Some(&two)), "square_sse42_xsave_version");
    assert_eq!(feature_fn_name("square", Some(&plain)), "square_default_version");
    assert_eq!(feature_fn_name("square", None), "square_default_version");
}

#[test]
fn a_target_without_features_asks_for_nothing() {
    let target = Target::parse("[arm|aarch64]").unwrap();
    assert_eq!(target.features_detected(DetectionMode::Adaptive), "true");
    assert_eq!(target.features_detected(DetectionMode::Static), "true");
    assert_eq!(target.target_feature(), Vec::<String>::new());
}

#[test]
fn the_texts_as_they_are_written() {
    let target = Target::parse("[x86|aarch64]+b+a").unwrap();
    assert_eq!(
        target.target_arch(),
        "#[cfg(any(target_arch = \"x86\", target_arch = \"aarch64\"))]"
    );
    assert_eq!(
        target.target_feature(),
        vec!["#[target_feature(enable = \"a\")]", "#[target_feature(enable = \"b\")]"]
    );
    assert_eq!(
        target.features_detected(DetectionMode::Adaptive),
        "{ #[cfg(target_arch = \"x86\")] { is_x86_feature_detected!(\"a\") && \
         is_x86_feature_detected!(\"b\") } #[cfg(target_arch = \"aarch64\")] { \
         is_aarch64_feature_detected!(\"a\") && is_aarch64_feature_detected!(\"b\") } }"
    );
    assert_eq!(
        target.features_detected(DetectionMode::Static),
        "{ #[cfg(target_arch = \"x86\")] { cfg!(all(target_feature = \"a\", target_feature = \
         \"b\")) } #[cfg(target_arch = \"aarch64\")] { cfg!(all(target_feature = \"a\", \
         target_feature = \"b\")) } }"
    );
}

#[test]
fn a_feature_with_a_quote_stays_inside_its_literal() {
    let target = Target::parse("x86+a\"b\\c").unwrap();
    let attrs = target.target_feature();
    assert_eq!(attrs, vec!["#[target_feature(enable = \"a\\\"b\\\\c\")]"]);
    let parsed = attribute(&attrs[0]);
    match parsed.parse_meta().unwrap() {
        syn::Meta::List(list) => match list.nested.first().unwrap() {
            syn::NestedMeta::Meta(syn::Meta::NameValue(pair)) => match &pair.lit {
                syn::Lit::Str(s) => assert_eq!(s.value(), "a\"b\\c"),
                other => panic!("unexpected literal {:?}", other),
            },
            other => panic!("unexpected item {:?}", other),
        },
        other => panic!("unexpected attribute {:?}", other),
    }
}
