use multiversion::arch::Architecture;
use multiversion::detect::{DetectionMode, FeatureDetector};
use multiversion::dispatch::Resolution;
use multiversion::shared::SharedDispatcher;
use multiversion::table::{DispatchTable, ResolvedChoice, TableBuilder};

fn table() -> DispatchTable<fn(u64) -> u64> {
    fn doubled(x: u64) -> u64 {
        2 * x
    }
    fn tripled(x: u64) -> u64 {
        3 * x
    }
    fn same(x: u64) -> u64 {
        x
    }
    let mut builder: TableBuilder<fn(u64) -> u64> = TableBuilder::new();
    builder.specialization("x86_64+avx2", doubled).unwrap();
    builder.specialization("x86_64+avx", tripled).unwrap();
    builder.default_implementation(same);
    builder.build().unwrap()
}

fn cpu(features: &[&str]) -> FeatureDetector {
    let available = features.iter().map(|s| s.to_string()).collect();
    FeatureDetector::new(DetectionMode::Adaptive, Architecture::X86_64, available)
}

#[test]
fn a_shared_site_resolves_once() {
    let site = SharedDispatcher::new(table());
    let x64 = Architecture::X86_64;
    let first = site.dispatch(x64, &cpu(&["avx"]));
    assert_eq!(first, ResolvedChoice::Specialization(1));
    assert_eq!(site.dispatch(x64, &cpu(&["avx"])), first);
    assert_eq!(site.dispatch(x64, &cpu(&["avx", "avx2"])), first);
    assert_eq!(site.dispatch(x64, &cpu(&[])), first);
    assert_eq!(site.handle(first)(5), 15);
    assert_eq!(site.resolve(x64, &cpu(&[]))(5), 15);
    assert_eq!(site.call(x64, &cpu(&[]), 7), 21);
}

#[test]
fn a_shared_site_caches_the_default() {
    let site = SharedDispatcher::new(table());
    let x64 = Architecture::X86_64;
    assert_eq!(site.call(x64, &cpu(&["sse"]), 7), 7);
    assert_eq!(site.dispatch(x64, &cpu(&["avx2"])), ResolvedChoice::Default);
    assert_eq!(site.call(x64, &cpu(&["avx2"]), 9), 9);
}

#[test]
fn only_the_first_step_stores() {
    let site = SharedDispatcher::new(table());
    let x64 = Architecture::X86_64;
    assert_eq!(
        site.step(x64, &cpu(&["avx2"])),
        Resolution { choice: ResolvedChoice::Specialization(0), publish: Some(2) }
    );
    for features in [&["avx2"][..], &["avx"][..], &[][..]] {
        assert_eq!(
            site.step(x64, &cpu(features)),
            Resolution { choice: ResolvedChoice::Specialization(0), publish: None }
        );
    }
}
