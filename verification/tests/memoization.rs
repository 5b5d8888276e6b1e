use divan::entry::{Config, ConstTag, EntryLocation, EntryMeta};
use divan::text::render_u64;

fn meta() -> EntryMeta {
    EntryMeta::new(
        b"add".to_vec(),
        b"add".to_vec(),
        b"bench_mod".to_vec(),
        EntryLocation { file: b"f1".to_vec(), line: 1, col: 1 },
        false,
    )
}

/// One driver access to the entry's configuration: the provider runs
/// only when nothing is cached yet, and its invocations are counted.
fn access_config(m: &mut EntryMeta, calls: &mut u32) -> Config {
    let fresh = if m.config_pending() {
        *calls += 1;
        Config { sample_count: 7, sample_size: 3 }
    } else {
        // Never reached by the provider; the cache answers.
        Config { sample_count: u64::MAX, sample_size: u64::MAX }
    };
    m.config_or_init(fresh)
}

#[test]
fn config_provider_runs_at_most_once() {
    let mut m = meta();
    let mut calls: u32 = 0;
    let c1 = access_config(&mut m, &mut calls);
    let c2 = access_config(&mut m, &mut calls);
    assert_eq!(calls, 1);
    assert_eq!(c1, c2);
    assert_eq!(c1, Config { sample_count: 7, sample_size: 3 });
}

#[test]
fn cached_config_survives_any_later_fresh_value() {
    let mut m = meta();
    let first = m.config_or_init(Config { sample_count: 1, sample_size: 2 });
    let second = m.config_or_init(Config { sample_count: 99, sample_size: 99 });
    assert_eq!(first, second);
}

#[test]
fn const_rendering_is_computed_once_and_stable() {
    let mut t = ConstTag::new(12345);
    assert!(t.rendered.is_none());
    let r1 = t.rendering();
    assert_eq!(r1, b"12345".to_vec());
    assert!(t.rendered.is_some());
    let r2 = t.rendering();
    assert_eq!(r2, b"12345".to_vec());
    assert_eq!(t.rendered.as_ref().unwrap(), &b"12345".to_vec());
}

#[test]
fn decimal_rendering_exact_values() {
    assert_eq!(render_u64(0), b"0".to_vec());
    assert_eq!(render_u64(9), b"9".to_vec());
    assert_eq!(render_u64(10), b"10".to_vec());
    assert_eq!(render_u64(256), b"256".to_vec());
    assert_eq!(render_u64(u64::MAX), b"18446744073709551615".to_vec());
}
