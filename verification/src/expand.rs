//! Generic expansion: turns one declared generic benchmark, with an
//! optional list of types and an optional source of constant values, into
//! the flat set of concrete variants owned by a single group entry.
//!
//! The cross product is taken in declaration order: the first-declared
//! parameter axis varies slowest. A constant source that is an arbitrary
//! expression (not a literal list) is capped at `MAX_EXPR_CONSTS` slots;
//! shorter runtime lists are truncated to their true length, so no filler
//! slot ever escapes, and longer ones are a declaration-time error.

use vstd::prelude::*;

use crate::MAX_EXPR_CONSTS;
use crate::entry::BenchEntry;
use crate::entry::ConstTag;
use crate::entry::EntryMeta;
use crate::entry::GenericBenchEntry;
use crate::entry::GroupEntry;
use crate::entry::TypeTag;
use crate::entry::tag_name_view;
use crate::entry::tag_value_view;

verus! {

/// Where a generic benchmark's constant axis comes from.
pub enum ConstSource {
    /// No constant parameter was declared.
    Absent,
    /// A literal list of values, fully known at declaration.
    Literal(Vec<u64>),
    /// An arbitrary expression that evaluated to these values at load
    /// time; subject to the `MAX_EXPR_CONSTS` ceiling.
    Expr(Vec<u64>),
}

impl ConstSource {
    /// The values of the constant axis, if one was declared.
    pub open spec fn values(self) -> Option<Seq<u64>> {
        match self {
            ConstSource::Absent => None,
            ConstSource::Literal(v) => Some(v@),
            ConstSource::Expr(v) => Some(v@),
        }
    }
}

/// A declaration-time error: no entry is produced and nothing is
/// registered.
#[derive(Clone, Copy, Debug, PartialEq, Eq, Structural)]
pub enum ExpandError {
    /// A non-literal constant source held more than `MAX_EXPR_CONSTS`
    /// values.
    TooManyConsts,
}

/// What one declaration expands to.
#[derive(Debug)]
pub enum Expansion {
    /// The declaration opted out (`types = []` or a literal `consts = []`):
    /// zero entries and zero groups.
    Nothing,
    /// No generic axes at all: a single plain benchmark entry.
    Plain(BenchEntry),
    /// A group owning one variant per (type, constant) pair.
    Generic(GroupEntry),
}

/// Whether the declaration explicitly opted out of generating anything.
pub open spec fn opted_out(types: Option<Vec<TypeTag>>, consts: ConstSource) -> bool {
    ||| (types matches Some(ts) && ts@.len() == 0)
    ||| (consts matches ConstSource::Literal(cs) && cs@.len() == 0)
}

/// Length of the type axis: one slot when the axis is absent.
pub open spec fn type_axis_len(types: Option<Vec<TypeTag>>) -> nat {
    match types {
        Some(ts) => ts@.len(),
        None => 1,
    }
}

/// Length of the constant axis: one slot when the axis is absent.
pub open spec fn const_axis_len(consts: ConstSource) -> nat {
    match consts.values() {
        Some(vs) => vs.len(),
        None => 1,
    }
}

/// The type name of the variant at type-axis position `i`.
pub open spec fn type_name_at(types: Option<Vec<TypeTag>>, i: int) -> Option<Seq<u8>> {
    match types {
        Some(ts) => Some(ts@[i].name@),
        None => None,
    }
}

/// The constant value of the variant at constant-axis position `j`.
pub open spec fn const_value_at(consts: ConstSource, j: int) -> Option<u64> {
    match consts.values() {
        Some(vs) => Some(vs[j]),
        None => None,
    }
}

/// Whether `v` is the variant that belongs at outer position `i`, inner
/// position `j` of the group's variant table: its identity counts flat
/// row-major from `first_id`, its tags pick from whichever axis runs on
/// which level, and its rendering cache starts empty.
pub open spec fn variant_matches(
    v: GenericBenchEntry,
    g: GroupEntry,
    types: Option<Vec<TypeTag>>,
    consts: ConstSource,
    first_id: u64,
    i: int,
    j: int,
) -> bool {
    let inner = if g.const_major {
        type_axis_len(types)
    } else {
        const_axis_len(consts)
    };
    &&& v.group_id == g.id
    &&& v.id == (first_id + i * inner + j) as u64
    &&& tag_name_view(v.type_tag) == type_name_at(
        types,
        if g.const_major {
            j
        } else {
            i
        },
    )
    &&& tag_value_view(v.const_tag) == const_value_at(
        consts,
        if g.const_major {
            i
        } else {
            j
        },
    )
    &&& (v.const_tag matches Some(c) ==> c.rendered is None)
}

/// How many values the first-declared (outer, slow) axis holds.
pub open spec fn outer_axis_len(
    g: GroupEntry,
    types: Option<Vec<TypeTag>>,
    consts: ConstSource,
) -> nat {
    if g.const_major {
        const_axis_len(consts)
    } else {
        type_axis_len(types)
    }
}

/// How many values the second-declared (inner, fast) axis holds.
pub open spec fn inner_axis_len(
    g: GroupEntry,
    types: Option<Vec<TypeTag>>,
    consts: ConstSource,
) -> nat {
    if g.const_major {
        type_axis_len(types)
    } else {
        const_axis_len(consts)
    }
}

/// Whether `rows` is exactly the variant table that `types` and `consts`
/// call for under `g`: the first-declared axis on the outer level, the
/// other inside, every variant with its flat identity and its axis tags.
pub open spec fn rows_are_cross_product(
    g: GroupEntry,
    types: Option<Vec<TypeTag>>,
    consts: ConstSource,
    first_id: u64,
) -> bool {
    let outer = outer_axis_len(g, types, consts);
    let inner = inner_axis_len(g, types, consts);
    &&& g.generic_variants matches Some(rows)
    &&& g.generic_variants->Some_0@.len() == outer
    &&& forall|i: int|
        0 <= i < outer ==> (#[trigger] g.generic_variants->Some_0@[i])@.len() == inner
    &&& forall|i: int, j: int|
        0 <= i < outer && 0 <= j < inner ==> variant_matches(
            #[trigger] g.generic_variants->Some_0@[i]@[j],
            g,
            types,
            consts,
            first_id,
            i,
            j,
        )
}

/// Truncates a non-literal constant source to its true runtime length,
/// or rejects it when it is over the ceiling.
///
/// The capped table is materialized at the full ceiling width, slots past
/// the true length filled with the value at position zero, and then cut
/// back to the true length, so the filler never reaches a caller.
pub fn capped_consts(consts: &Vec<u64>) -> (r: Result<Vec<u64>, ExpandError>)
    ensures
        match r {
            Ok(v) => consts@.len() <= MAX_EXPR_CONSTS && v@ == consts@,
            Err(e) => consts@.len() > MAX_EXPR_CONSTS && e == ExpandError::TooManyConsts,
        },
{
    if consts.len() > MAX_EXPR_CONSTS {
        return Err(ExpandError::TooManyConsts);
    }
    if consts.len() == 0 {
        let empty: Vec<u64> = Vec::new();
        proof {
            assert(empty@ =~= consts@);
        }
        return Ok(empty);
    }
    let fill = consts[0];
    let mut padded: Vec<u64> = Vec::new();
    let mut k: usize = 0;
    while k < MAX_EXPR_CONSTS
        invariant
            k <= MAX_EXPR_CONSTS,
            0 < consts@.len() <= MAX_EXPR_CONSTS,
            fill == consts@[0],
            padded@.len() == k,
            forall|q: int| 0 <= q < k && q < consts@.len() ==> padded@[q] == consts@[q],
        decreases MAX_EXPR_CONSTS - k,
    {
        if k < consts.len() {
            padded.push(consts[k]);
        } else {
            padded.push(fill);
        }
        k = k + 1;
    }
    let mut out: Vec<u64> = Vec::new();
    let mut t: usize = 0;
    while t < consts.len()
        invariant
            t <= consts@.len(),
            consts@.len() <= MAX_EXPR_CONSTS,
            padded@.len() == MAX_EXPR_CONSTS,
            forall|q: int| 0 <= q < consts@.len() ==> padded@[q] == consts@[q],
            out@.len() == t,
            forall|q: int| 0 <= q < t ==> out@[q] == consts@[q],
        decreases consts@.len() - t,
    {
        out.push(padded[t]);
        t = t + 1;
    }
    proof {
        assert(out@ =~= consts@);
    }
    Ok(out)
}

/// Expands one declared benchmark into its registrable form.
///
/// `group_id` names the group produced for a generic declaration;
/// `first_id` is the invocation identity of the first variant (or of the
/// plain entry), later variants counting up from it in the produced
/// order. With no generic axes at all the result is a single plain entry;
/// an explicit empty axis produces nothing; otherwise one variant exists
/// per (type, constant) pair, the first-declared axis varying slowest.
pub fn expand(
    meta: EntryMeta,
    group_id: u64,
    first_id: u64,
    types: Option<Vec<TypeTag>>,
    consts: ConstSource,
    const_major: bool,
) -> (r: Result<Expansion, ExpandError>)
    requires
        type_axis_len(types) * const_axis_len(consts) <= usize::MAX,
        first_id + type_axis_len(types) * const_axis_len(consts) <= u64::MAX,
    ensures
        match r {
            Ok(exp) => match exp {
                Expansion::Nothing => opted_out(types, consts),
                Expansion::Plain(b) => {
                    &&& types is None
                    &&& consts is Absent
                    &&& b.meta == meta
                    &&& b.id == first_id
                },
                Expansion::Generic(g) => {
                    &&& !opted_out(types, consts)
                    &&& !(types is None && consts is Absent)
                    &&& (consts matches ConstSource::Expr(cs) ==> cs@.len() <= MAX_EXPR_CONSTS)
                    &&& g.meta == meta
                    &&& g.id == group_id
                    &&& g.const_major == const_major
                    &&& rows_are_cross_product(g, types, consts, first_id)
                },
            },
            Err(e) => {
                &&& e == ExpandError::TooManyConsts
                &&& consts matches ConstSource::Expr(cs) && cs@.len() > MAX_EXPR_CONSTS
            },
        },
{
    let types_empty = match &types {
        Some(ts) => ts.len() == 0,
        None => false,
    };
    let consts_empty = match &consts {
        ConstSource::Literal(cs) => cs.len() == 0,
        _ => false,
    };
    if types_empty || consts_empty {
        return Ok(Expansion::Nothing);
    }
    let const_values: Option<Vec<u64>> = match &consts {
        ConstSource::Absent => None,
        ConstSource::Literal(cs) => {
            let mut copy: Vec<u64> = Vec::new();
            let mut q: usize = 0;
            while q < cs.len()
                invariant
                    q <= cs@.len(),
                    copy@ == cs@.subrange(0, q as int),
                decreases cs@.len() - q,
            {
                copy.push(cs[q]);
                proof {
                    assert(cs@.subrange(0, q as int).push(cs@[q as int]) =~= cs@.subrange(
                        0,
                        q + 1 as int,
                    ));
                }
                q = q + 1;
            }
            proof {
                assert(cs@.subrange(0, cs@.len() as int) =~= cs@);
            }
            Some(copy)
        },
        ConstSource::Expr(cs) => {
            match capped_consts(cs) {
                Ok(v) => Some(v),
                Err(e) => {
                    return Err(e);
                },
            }
        },
    };
    match (&types, &const_values) {
        (None, None) => Ok(Expansion::Plain(BenchEntry { meta, id: first_id })),
        _ => {
            let tn: usize = match &types {
                Some(ts) => ts.len(),
                None => 1,
            };
            let cn: usize = match &const_values {
                Some(cs) => cs.len(),
                None => 1,
            };
            let outer: usize = if const_major {
                cn
            } else {
                tn
            };
            let inner: usize = if const_major {
                tn
            } else {
                cn
            };
            let ghost gspec = GroupEntry {
                meta: meta,
                id: group_id,
                generic_variants: None,
                const_major: const_major,
            };
            let mut rows: Vec<Vec<GenericBenchEntry>> = Vec::new();
            let mut i: usize = 0;
            proof {
                assert(outer as int * inner as int == tn as int * cn as int)
                    by (nonlinear_arith)
                    requires
                        (outer == tn && inner == cn) || (outer == cn && inner == tn),
                ;
            }
            while i < outer
                invariant
                    i <= outer,
                    gspec.id == group_id,
                    gspec.const_major == const_major,
                    outer * inner <= usize::MAX,
                    first_id + outer * inner <= u64::MAX,
                    tn == type_axis_len(types),
                    cn == const_axis_len(consts),
                    outer == if const_major {
                        cn
                    } else {
                        tn
                    },
                    inner == if const_major {
                        tn
                    } else {
                        cn
                    },
                    types matches Some(ts) ==> tn == ts@.len(),
                    const_values matches Some(cs) ==> consts.values() == Some(cs@),
                    const_values is None <==> consts is Absent,
                    rows@.len() == i,
                    forall|a: int| 0 <= a < i ==> (#[trigger] rows@[a])@.len() == inner,
                    forall|a: int, b: int|
                        0 <= a < i && 0 <= b < inner ==> variant_matches(
                            #[trigger] rows@[a]@[b],
                            gspec,
                            types,
                            consts,
                            first_id,
                            a,
                            b,
                        ),
                decreases outer - i,
            {
                let mut row: Vec<GenericBenchEntry> = Vec::new();
                let mut j: usize = 0;
                proof {
                    assert(i * inner + inner <= outer * inner) by (nonlinear_arith)
                        requires
                            i < outer,
                            0 <= inner,
                    ;
                }
                while j < inner
                    invariant
                        j <= inner,
                        i < outer,
                        gspec.id == group_id,
                        gspec.const_major == const_major,
                        i * inner + inner <= outer * inner,
                        outer * inner <= usize::MAX,
                        first_id + outer * inner <= u64::MAX,
                        tn == type_axis_len(types),
                        cn == const_axis_len(consts),
                        outer == if const_major {
                            cn
                        } else {
                            tn
                        },
                        inner == if const_major {
                            tn
                        } else {
                            cn
                        },
                        types matches Some(ts) ==> tn == ts@.len(),
                        const_values matches Some(cs) ==> consts.values() == Some(cs@),
                        const_values is None <==> consts is Absent,
                        row@.len() == j,
                        forall|b: int|
                            0 <= b < j ==> variant_matches(
                                #[trigger] row@[b],
                                gspec,
                                types,
                                consts,
                                first_id,
                                i as int,
                                b,
                            ),
                    decreases inner - j,
                {
                    let ti: usize = if const_major {
                        j
                    } else {
                        i
                    };
                    let ci: usize = if const_major {
                        i
                    } else {
                        j
                    };
                    let type_tag: Option<TypeTag> = match &types {
                        Some(ts) => Some(
                            TypeTag { name: crate::entry::copy_bytes(&ts[ti].name) },
                        ),
                        None => None,
                    };
                    let const_tag: Option<ConstTag> = match &const_values {
                        Some(cs) => Some(ConstTag::new(cs[ci])),
                        None => None,
                    };
                    proof {
                        assert(i * inner + j < outer * inner) by (nonlinear_arith)
                            requires
                                i < outer,
                                0 <= j < inner,
                        ;
                    }
                    let flat: usize = i * inner + j;
                    let id: u64 = first_id + flat as u64;
                    row.push(GenericBenchEntry { group_id, id, type_tag, const_tag });
                    proof {
                        assert(variant_matches(
                            row@[j as int],
                            gspec,
                            types,
                            consts,
                            first_id,
                            i as int,
                            j as int,
                        ));
                    }
                    j = j + 1;
                }
                rows.push(row);
                i = i + 1;
            }
            let g = GroupEntry { meta, id: group_id, generic_variants: Some(rows), const_major };
            proof {
                assert(rows_are_cross_product(g, types, consts, first_id));
            }
            Ok(Expansion::Generic(g))
        },
    }
}


/// A generic benchmark with its axes declared contributes exactly
/// |types| × |const values| runnable units (an absent axis counting one),
/// and they stand in axis-major order: the unit at flat position
/// `i * inner + j` is the variant at outer position `i`, inner position
/// `j` of the cross product, the first-declared axis varying slowest.
pub proof fn lemma_generic_expansion_units(
    g: GroupEntry,
    types: Option<Vec<TypeTag>>,
    consts: ConstSource,
    first_id: u64,
)
    requires
        rows_are_cross_product(g, types, consts, first_id),
    ensures
        crate::registry::group_units_view(g).len() == type_axis_len(types) * const_axis_len(
            consts,
        ),
        forall|i: int, j: int|
            0 <= i < outer_axis_len(g, types, consts) && 0 <= j < inner_axis_len(g, types, consts)
                ==> crate::registry::group_units_view(g)[i * inner_axis_len(g, types, consts) + j]
                == crate::entry::variant_unit_view(
                g,
                #[trigger] g.generic_variants->Some_0@[i]@[j],
            ),
{
    let rows = g.generic_variants->Some_0;
    let outer = outer_axis_len(g, types, consts);
    let inner = inner_axis_len(g, types, consts);
    crate::registry::lemma_rows_units_cross(g, rows@, inner);
    assert(outer * inner == type_axis_len(types) * const_axis_len(consts)) by (nonlinear_arith)
        requires
            (outer == type_axis_len(types) && inner == const_axis_len(consts)) || (outer
                == const_axis_len(consts) && inner == type_axis_len(types)),
    ;
}

} // verus!
