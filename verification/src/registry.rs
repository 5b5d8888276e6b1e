//! The process-wide registry: an append-only collection of entries,
//! populated by independent contributors before the driver runs, then
//! drained exactly once into the flat list of runnable units.
//!
//! Contributors cannot rely on any relative ordering, so the registry is
//! only ever appended to; the driver establishes the deterministic order
//! later. A platform's load-time aggregation hands its gathered entries to
//! `register_bench` / `register_group` in a one-time bootstrap pass before
//! `drain_all` is called.

use vstd::prelude::*;

use crate::entry::BenchEntry;
use crate::entry::GenericBenchEntry;
use crate::entry::GroupEntry;
use crate::entry::RunUnit;
use crate::entry::UnitView;
use crate::entry::bench_unit_view;
use crate::entry::make_bench_unit;
use crate::entry::make_variant_unit;
use crate::entry::units_view;
use crate::entry::variant_unit_view;

verus! {

/// The units contributed by the variants of one row of a group's
/// variant table, in row order.
pub open spec fn row_units_view(g: GroupEntry, row: Seq<GenericBenchEntry>) -> Seq<UnitView>
    decreases row.len(),
{
    if row.len() == 0 {
        Seq::empty()
    } else {
        row_units_view(g, row.drop_last()).push(variant_unit_view(g, row.last()))
    }
}

/// The units contributed by a sequence of variant rows, row-major.
pub open spec fn rows_units_view(g: GroupEntry, rows: Seq<Vec<GenericBenchEntry>>) -> Seq<UnitView>
    decreases rows.len(),
{
    if rows.len() == 0 {
        Seq::empty()
    } else {
        rows_units_view(g, rows.drop_last()) + row_units_view(g, rows.last()@)
    }
}

/// Everything runnable a group contributes: nothing for a plain grouping,
/// its variants in declared row-major order for a generic benchmark.
pub open spec fn group_units_view(g: GroupEntry) -> Seq<UnitView> {
    match g.generic_variants {
        Some(rows) => rows_units_view(g, rows@),
        None => Seq::empty(),
    }
}

/// The units contributed by a sequence of groups, in registration order.
pub open spec fn groups_units_view(gs: Seq<GroupEntry>) -> Seq<UnitView>
    decreases gs.len(),
{
    if gs.len() == 0 {
        Seq::empty()
    } else {
        groups_units_view(gs.drop_last()) + group_units_view(gs.last())
    }
}

/// The units contributed by a sequence of leaf benchmarks.
pub open spec fn benches_units_view(bs: Seq<BenchEntry>) -> Seq<UnitView>
    decreases bs.len(),
{
    if bs.len() == 0 {
        Seq::empty()
    } else {
        benches_units_view(bs.drop_last()).push(bench_unit_view(bs.last()))
    }
}

/// One row contributes one unit per variant, in row order.
pub proof fn lemma_row_units_len(g: GroupEntry, row: Seq<GenericBenchEntry>)
    ensures
        row_units_view(g, row).len() == row.len(),
        forall|j: int| 0 <= j < row.len() ==> #[trigger] row_units_view(g, row)[j]
            == variant_unit_view(g, row[j]),
    decreases row.len(),
{
    if row.len() > 0 {
        lemma_row_units_len(g, row.drop_last());
    }
}

/// A variant table whose rows all have width `inner` contributes exactly
/// `rows × inner` units, the unit at flat position `i * inner + j` being
/// the variant at outer position `i`, inner position `j`: the cross
/// product in axis-major order.
pub proof fn lemma_rows_units_cross(g: GroupEntry, rows: Seq<Vec<GenericBenchEntry>>, inner: nat)
    requires
        forall|i: int| 0 <= i < rows.len() ==> (#[trigger] rows[i])@.len() == inner,
    ensures
        rows_units_view(g, rows).len() == rows.len() * inner,
        forall|i: int, j: int|
            0 <= i < rows.len() && 0 <= j < inner ==> rows_units_view(g, rows)[i * inner + j]
                == variant_unit_view(g, #[trigger] rows[i]@[j]),
    decreases rows.len(),
{
    if rows.len() == 0 {
        assert(rows.len() * inner == 0) by (nonlinear_arith)
            requires
                rows.len() == 0,
        ;
    } else {
        let pre = rows.drop_last();
        lemma_rows_units_cross(g, pre, inner);
        lemma_row_units_len(g, rows.last()@);
        assert(pre.len() * inner + inner == rows.len() * inner) by (nonlinear_arith)
            requires
                pre.len() + 1 == rows.len(),
        ;
        assert forall|i: int, j: int|
            0 <= i < rows.len() && 0 <= j < inner implies rows_units_view(g, rows)[i * inner + j]
            == variant_unit_view(g, #[trigger] rows[i]@[j]) by {
            assert(0 <= i * inner + j < rows.len() * inner) by (nonlinear_arith)
                requires
                    0 <= i < rows.len(),
                    0 <= j < inner,
            ;
            if i < rows.len() - 1 {
                assert(i * inner + j < pre.len() * inner) by (nonlinear_arith)
                    requires
                        0 <= i < pre.len(),
                        0 <= j < inner,
                ;
                assert(rows_units_view(g, rows)[i * inner + j] == rows_units_view(g, pre)[i * inner
                    + j]);
                assert(rows[i] == pre[i]);
            } else {
                assert(i * inner + j == pre.len() * inner + j) by (nonlinear_arith)
                    requires
                        i == pre.len(),
                ;
                assert(rows_units_view(g, rows)[i * inner + j] == row_units_view(
                    g,
                    rows.last()@,
                )[j]);
            }
        }
    }
}

/// The process-wide, append-only collection of entries: two parallel
/// collections, one of leaf benchmarks, one of groups. It is populated
/// during startup and read-only from the driver's perspective.
pub struct Registry {
    /// Leaf benchmarks, in registration order.
    pub benches: Vec<BenchEntry>,
    /// Groups, in registration order.
    pub groups: Vec<GroupEntry>,
}

impl Registry {
    /// Every runnable unit held by this registry, benchmarks first, then
    /// each group's variants, in registration order.
    pub open spec fn all_units(self) -> Seq<UnitView> {
        benches_units_view(self.benches@) + groups_units_view(self.groups@)
    }

    /// An empty registry.
    pub fn new() -> (r: Registry)
        ensures
            r.benches@ == Seq::<BenchEntry>::empty(),
            r.groups@ == Seq::<GroupEntry>::empty(),
    {
        Registry { benches: Vec::new(), groups: Vec::new() }
    }

    /// Appends one leaf benchmark. May be called any number of times, in
    /// any order relative to other registrations.
    pub fn register_bench(&mut self, b: BenchEntry)
        ensures
            final(self).benches@ == old(self).benches@.push(b),
            final(self).groups@ == old(self).groups@,
    {
        self.benches.push(b);
    }

    /// Appends one group. May be called any number of times, in any order
    /// relative to other registrations.
    pub fn register_group(&mut self, g: GroupEntry)
        ensures
            final(self).groups@ == old(self).groups@.push(g),
            final(self).benches@ == old(self).benches@,
    {
        self.groups.push(g);
    }

    /// Returns every registered runnable unit exactly once: each leaf
    /// benchmark as one unit, and each variant of each generic group as
    /// one unit; plain groups contribute nothing runnable.
    pub fn drain_all(&self) -> (units: Vec<RunUnit>)
        ensures
            units_view(units@) == self.all_units(),
    {
        let mut out: Vec<RunUnit> = Vec::new();
        let mut i: usize = 0;
        proof {
            assert(units_view(out@) =~= benches_units_view(self.benches@.subrange(0, 0)));
        }
        while i < self.benches.len()
            invariant
                i <= self.benches@.len(),
                units_view(out@) == benches_units_view(self.benches@.subrange(0, i as int)),
            decreases self.benches@.len() - i,
        {
            let u = make_bench_unit(&self.benches[i]);
            out.push(u);
            proof {
                let pre = self.benches@.subrange(0, i as int);
                let post = self.benches@.subrange(0, i + 1 as int);
                assert(post.drop_last() =~= pre);
                assert(units_view(out@) =~= benches_units_view(post));
            }
            i = i + 1;
        }
        proof {
            assert(self.benches@.subrange(0, self.benches@.len() as int) =~= self.benches@);
            assert(units_view(out@) =~= benches_units_view(self.benches@) + groups_units_view(
                self.groups@.subrange(0, 0),
            ));
        }
        let mut gi: usize = 0;
        while gi < self.groups.len()
            invariant
                gi <= self.groups@.len(),
                units_view(out@) == benches_units_view(self.benches@) + groups_units_view(
                    self.groups@.subrange(0, gi as int),
                ),
            decreases self.groups@.len() - gi,
        {
            let g = &self.groups[gi];
            match &g.generic_variants {
                None => {
                    proof {
                        let pre = self.groups@.subrange(0, gi as int);
                        let post = self.groups@.subrange(0, gi + 1 as int);
                        assert(post.drop_last() =~= pre);
                        assert(units_view(out@) =~= benches_units_view(self.benches@)
                            + groups_units_view(post));
                    }
                },
                Some(rows) => {
                    let ghost base = units_view(out@);
                    let mut ri: usize = 0;
                    proof {
                        assert(rows_units_view(*g, rows@.subrange(0, 0)) =~= Seq::<
                            UnitView,
                        >::empty());
                        assert(units_view(out@) =~= base + rows_units_view(
                            *g,
                            rows@.subrange(0, 0),
                        ));
                    }
                    while ri < rows.len()
                        invariant
                            ri <= rows@.len(),
                            units_view(out@) == base + rows_units_view(
                                *g,
                                rows@.subrange(0, ri as int),
                            ),
                        decreases rows@.len() - ri,
                    {
                        let row = &rows[ri];
                        let ghost row_base = units_view(out@);
                        let mut vi: usize = 0;
                        proof {
                            assert(row_units_view(*g, row@.subrange(0, 0)) =~= Seq::<
                                UnitView,
                            >::empty());
                            assert(units_view(out@) =~= row_base + row_units_view(
                                *g,
                                row@.subrange(0, 0),
                            ));
                        }
                        while vi < row.len()
                            invariant
                                vi <= row@.len(),
                                units_view(out@) == row_base + row_units_view(
                                    *g,
                                    row@.subrange(0, vi as int),
                                ),
                            decreases row@.len() - vi,
                        {
                            let ghost prev_units = units_view(out@);
                            let u = make_variant_unit(g, &row[vi]);
                            out.push(u);
                            proof {
                                let pre = row@.subrange(0, vi as int);
                                let post = row@.subrange(0, vi + 1 as int);
                                assert(post.drop_last() =~= pre);
                                assert(post.last() == row@[vi as int]);
                                assert(units_view(out@) =~= prev_units.push(u@));
                                assert(row_units_view(*g, post) == row_units_view(*g, pre).push(
                                    variant_unit_view(*g, row@[vi as int]),
                                ));
                                assert(units_view(out@) =~= row_base + row_units_view(*g, post));
                            }
                            vi = vi + 1;
                        }
                        proof {
                            assert(row@.subrange(0, row@.len() as int) =~= row@);
                            let pre = rows@.subrange(0, ri as int);
                            let post = rows@.subrange(0, ri + 1 as int);
                            assert(post.drop_last() =~= pre);
                            assert(post.last() == row);
                            assert(units_view(out@) =~= base + rows_units_view(*g, post));
                        }
                        ri = ri + 1;
                    }
                    proof {
                        assert(rows@.subrange(0, rows@.len() as int) =~= rows@);
                        let pre = self.groups@.subrange(0, gi as int);
                        let post = self.groups@.subrange(0, gi + 1 as int);
                        assert(post.drop_last() =~= pre);
                        assert(units_view(out@) =~= benches_units_view(self.benches@)
                            + groups_units_view(post));
                    }
                },
            }
            gi = gi + 1;
        }
        proof {
            assert(self.groups@.subrange(0, self.groups@.len() as int) =~= self.groups@);
        }
        out
    }
}

} // verus!
