use divan::entry::{EntryLocation, EntryMeta, GroupEntry, TypeTag};
use divan::expand::{capped_consts, expand, ConstSource, ExpandError, Expansion};
use divan::registry::Registry;

fn meta(name: &str) -> EntryMeta {
    EntryMeta::new(
        name.as_bytes().to_vec(),
        name.as_bytes().to_vec(),
        b"bench_mod".to_vec(),
        EntryLocation { file: b"f1".to_vec(), line: 10, col: 1 },
        false,
    )
}

fn tags(names: &[&str]) -> Vec<TypeTag> {
    names.iter().map(|n| TypeTag { name: n.as_bytes().to_vec() }).collect()
}

#[test]
fn no_axes_gives_one_plain_entry() {
    let r = expand(meta("add"), 100, 1, None, ConstSource::Absent, false).unwrap();
    match r {
        Expansion::Plain(b) => {
            assert_eq!(b.id, 1);
            assert_eq!(b.meta.raw_name, b"add".to_vec());
        }
        _ => panic!("expected a plain entry"),
    }
}

#[test]
fn empty_type_list_opts_out_entirely() {
    let r = expand(meta("add"), 100, 1, Some(vec![]), ConstSource::Absent, false).unwrap();
    assert!(matches!(r, Expansion::Nothing));
}

#[test]
fn empty_literal_const_list_opts_out_entirely() {
    let r = expand(
        meta("add"),
        100,
        1,
        Some(tags(&["u32"])),
        ConstSource::Literal(vec![]),
        false,
    )
    .unwrap();
    assert!(matches!(r, Expansion::Nothing));
}

#[test]
fn two_types_three_consts_make_six_variants_type_major() {
    let r = expand(
        meta("add"),
        100,
        10,
        Some(tags(&["u32", "u64"])),
        ConstSource::Literal(vec![1, 2, 4]),
        false,
    )
    .unwrap();
    match r {
        Expansion::Generic(g) => {
            let rows = g.generic_variants.as_ref().unwrap();
            assert_eq!(rows.len(), 2);
            assert_eq!(rows[0].len(), 3);
            assert_eq!(rows[1].len(), 3);
            // Flat identities count row-major from the first variant.
            assert_eq!(rows[0][0].id, 10);
            assert_eq!(rows[0][2].id, 12);
            assert_eq!(rows[1][0].id, 13);
            assert_eq!(rows[1][2].id, 15);
            // Outer axis: types; inner axis: consts.
            assert_eq!(rows[1][0].type_tag.as_ref().unwrap().name, b"u64".to_vec());
            assert_eq!(rows[1][2].const_tag.as_ref().unwrap().value, 4);
            assert_eq!(rows[0][1].type_tag.as_ref().unwrap().name, b"u32".to_vec());
            assert_eq!(rows[0][1].const_tag.as_ref().unwrap().value, 2);
            assert_eq!(g.id, 100);
            assert!(!g.const_major);
        }
        _ => panic!("expected a generic group"),
    }
}

#[test]
fn const_declared_first_makes_consts_the_outer_axis() {
    let r = expand(
        meta("add"),
        100,
        0,
        Some(tags(&["u32", "u64"])),
        ConstSource::Literal(vec![9, 8]),
        true,
    )
    .unwrap();
    match r {
        Expansion::Generic(g) => {
            let rows = g.generic_variants.as_ref().unwrap();
            assert_eq!(rows.len(), 2);
            assert_eq!(rows[0].len(), 2);
            assert_eq!(rows[0][0].const_tag.as_ref().unwrap().value, 9);
            assert_eq!(rows[0][1].const_tag.as_ref().unwrap().value, 9);
            assert_eq!(rows[1][0].const_tag.as_ref().unwrap().value, 8);
            assert_eq!(rows[0][0].type_tag.as_ref().unwrap().name, b"u32".to_vec());
            assert_eq!(rows[0][1].type_tag.as_ref().unwrap().name, b"u64".to_vec());
            assert!(g.const_major);
        }
        _ => panic!("expected a generic group"),
    }
}

#[test]
fn type_axis_alone_makes_one_variant_per_type() {
    let r = expand(
        meta("add"),
        100,
        0,
        Some(tags(&["u8", "u16", "u32"])),
        ConstSource::Absent,
        false,
    )
    .unwrap();
    match r {
        Expansion::Generic(g) => {
            let rows = g.generic_variants.as_ref().unwrap();
            assert_eq!(rows.len(), 3);
            assert_eq!(rows[0].len(), 1);
            assert!(rows[0][0].const_tag.is_none());
        }
        _ => panic!("expected a generic group"),
    }
}

#[test]
fn expression_consts_produce_true_length_not_ceiling() {
    let r = expand(
        meta("add"),
        100,
        0,
        None,
        ConstSource::Expr(vec![3, 1, 4, 1, 5]),
        false,
    )
    .unwrap();
    match r {
        Expansion::Generic(g) => {
            let rows = g.generic_variants.as_ref().unwrap();
            assert_eq!(rows.len(), 1);
            assert_eq!(rows[0].len(), 5);
            let values: Vec<u64> =
                rows[0].iter().map(|v| v.const_tag.as_ref().unwrap().value).collect();
            assert_eq!(values, vec![3, 1, 4, 1, 5]);
        }
        _ => panic!("expected a generic group"),
    }
}

#[test]
fn expression_consts_over_the_ceiling_are_a_declaration_error() {
    let too_many: Vec<u64> = (0..21).collect();
    let r = expand(meta("add"), 100, 0, None, ConstSource::Expr(too_many), false);
    assert_eq!(r.unwrap_err(), ExpandError::TooManyConsts);
}

#[test]
fn expression_consts_at_the_ceiling_are_accepted() {
    let exactly: Vec<u64> = (0..20).collect();
    let r = capped_consts(&exactly).unwrap();
    assert_eq!(r, exactly);
}

#[test]
fn capped_consts_never_expose_filler_slots() {
    let short: Vec<u64> = vec![42, 7];
    assert_eq!(capped_consts(&short).unwrap(), vec![42, 7]);
    let empty: Vec<u64> = vec![];
    assert_eq!(capped_consts(&empty).unwrap(), Vec::<u64>::new());
}

#[test]
fn drained_variants_carry_composed_display_names() {
    let r = expand(
        meta("stack"),
        100,
        10,
        Some(tags(&["u32"])),
        ConstSource::Literal(vec![256]),
        false,
    )
    .unwrap();
    let g = match r {
        Expansion::Generic(g) => g,
        _ => panic!("expected a generic group"),
    };
    let mut reg = Registry::new();
    reg.register_group(g);
    let units = reg.drain_all();
    assert_eq!(units.len(), 1);
    assert_eq!(units[0].display_name, b"stack<u32, 256>".to_vec());
    assert_eq!(units[0].id, 10);
    assert_eq!(units[0].file, b"f1".to_vec());
    assert_eq!(units[0].line, 10);
}

#[test]
fn const_major_display_prints_const_before_type() {
    let r = expand(
        meta("stack"),
        100,
        10,
        Some(tags(&["u32"])),
        ConstSource::Literal(vec![8]),
        true,
    )
    .unwrap();
    let g = match r {
        Expansion::Generic(g) => g,
        _ => panic!("expected a generic group"),
    };
    let mut reg = Registry::new();
    reg.register_group(g);
    let units = reg.drain_all();
    assert_eq!(units[0].display_name, b"stack<8, u32>".to_vec());
}

#[test]
fn plain_group_contributes_nothing_runnable() {
    let mut reg = Registry::new();
    reg.register_group(GroupEntry {
        meta: meta("a_module"),
        id: 50,
        generic_variants: None,
        const_major: false,
    });
    assert!(reg.drain_all().is_empty());
}
