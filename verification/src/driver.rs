//! The driver pipeline: Collect, Filter, Order, Dedup, Execute.
//!
//! The driver reads the registry's units, keeps those selected by the
//! name filter, sorts them ascending by (display name, file, line),
//! collapses runs of units that share an invocation identity, and turns
//! the survivors into an execution plan of output lines and invocations.

use vstd::prelude::*;

use crate::entry::RunUnit;
use crate::entry::UnitView;
use crate::entry::units_view;
use crate::text::bytes_eq;
use crate::text::bytes_lt;
use crate::text::dec_spec;
use crate::text::lemma_lex_trans;
use crate::text::lemma_lex_trichotomy;
use crate::text::lex_lt;
use crate::text::push_bytes;
use crate::text::render_u64;

verus! {

/// Strict order on units: by display name, then file, then line.
pub open spec fn key_lt(a: UnitView, b: UnitView) -> bool {
    ||| lex_lt(a.display_name, b.display_name)
    ||| (a.display_name == b.display_name && lex_lt(a.file, b.file))
    ||| (a.display_name == b.display_name && a.file == b.file && a.line < b.line)
}

/// Two units carry the same (display name, file, line) key.
pub open spec fn key_eq(a: UnitView, b: UnitView) -> bool {
    a.display_name == b.display_name && a.file == b.file && a.line == b.line
}

/// Non-strict order on units: `a` does not come after `b`.
pub open spec fn key_le(a: UnitView, b: UnitView) -> bool {
    !key_lt(b, a)
}

/// The unit order is a strict total order on keys: of `a < b`, `b < a`
/// and key equality, exactly one holds.
pub proof fn lemma_key_trichotomy(a: UnitView, b: UnitView)
    ensures
        key_lt(a, b) || key_lt(b, a) || key_eq(a, b),
        key_lt(a, b) ==> !key_lt(b, a),
        key_lt(a, b) ==> !key_eq(a, b),
{
    lemma_lex_trichotomy(a.display_name, b.display_name);
    lemma_lex_trichotomy(a.file, b.file);
}

/// The unit order is transitive.
pub proof fn lemma_key_lt_trans(a: UnitView, b: UnitView, c: UnitView)
    requires
        key_lt(a, b),
        key_lt(b, c),
    ensures
        key_lt(a, c),
{
    lemma_lex_trichotomy(a.display_name, b.display_name);
    lemma_lex_trichotomy(b.display_name, c.display_name);
    if lex_lt(a.display_name, b.display_name) && lex_lt(b.display_name, c.display_name) {
        lemma_lex_trans(a.display_name, b.display_name, c.display_name);
    }
    if a.display_name == b.display_name && b.display_name == c.display_name {
        if lex_lt(a.file, b.file) && lex_lt(b.file, c.file) {
            lemma_lex_trans(a.file, b.file, c.file);
        }
    }
}

/// Decides `key_lt(a@, b@)`.
pub fn unit_key_lt(a: &RunUnit, b: &RunUnit) -> (r: bool)
    ensures
        r == key_lt(a@, b@),
{
    if bytes_lt(&a.display_name, &b.display_name) {
        return true;
    }
    if !bytes_eq(&a.display_name, &b.display_name) {
        return false;
    }
    if bytes_lt(&a.file, &b.file) {
        return true;
    }
    if !bytes_eq(&a.file, &b.file) {
        return false;
    }
    a.line < b.line
}

/// The sequence is ascending in the unit order.
pub open spec fn sorted_units(s: Seq<UnitView>) -> bool {
    forall|i: int, j: int| 0 <= i < j < s.len() ==> key_le(s[i], s[j])
}

/// No two units of the sequence share a (display name, file, line) key.
pub open spec fn distinct_keys(s: Seq<UnitView>) -> bool {
    forall|i: int, j: int| 0 <= i < j < s.len() ==> !key_eq(s[i], s[j])
}

/// Sorts units ascending by (display name, file, line): the result is
/// ordered and holds exactly the input units.
pub fn order_entries(input: Vec<RunUnit>) -> (r: Vec<RunUnit>)
    ensures
        sorted_units(units_view(r@)),
        units_view(r@).to_multiset() == units_view(input@).to_multiset(),
{
    broadcast use vstd::seq_lib::group_to_multiset_ensures;
    broadcast use vstd::multiset::group_multiset_axioms;

    let mut rest = input;
    let mut out: Vec<RunUnit> = Vec::new();
    let ghost total = units_view(rest@).to_multiset();
    proof {
        assert(units_view(out@) =~= Seq::<UnitView>::empty());
        assert(units_view(out@).to_multiset().add(units_view(rest@).to_multiset()) =~= total);
    }
    while rest.len() > 0
        invariant
            sorted_units(units_view(out@)),
            units_view(out@).to_multiset().add(units_view(rest@).to_multiset()) == total,
            total == units_view(input@).to_multiset(),
            forall|a: int, b: int|
                0 <= a < out@.len() && 0 <= b < rest@.len() ==> key_le(
                    #[trigger] out@[a]@,
                    #[trigger] rest@[b]@,
                ),
        decreases rest@.len(),
    {
        let mut m: usize = 0;
        let mut k: usize = 1;
        proof {
            lemma_key_trichotomy(rest@[0]@, rest@[0]@);
        }
        while k < rest.len()
            invariant
                0 < rest@.len(),
                m < k,
                k <= rest@.len(),
                forall|q: int| 0 <= q < k ==> key_le(rest@[m as int]@, #[trigger] rest@[q]@),
            decreases rest@.len() - k,
        {
            if unit_key_lt(&rest[k], &rest[m]) {
                proof {
                    assert forall|q: int| 0 <= q < k + 1 implies key_le(
                        rest@[k as int]@,
                        #[trigger] rest@[q]@,
                    ) by {
                        lemma_key_trichotomy(rest@[k as int]@, rest@[q]@);
                        if q < k && key_lt(rest@[q]@, rest@[k as int]@) {
                            lemma_key_lt_trans(rest@[q]@, rest@[k as int]@, rest@[m as int]@);
                        }
                        lemma_key_trichotomy(rest@[k as int]@, rest@[k as int]@);
                    }
                }
                m = k;
            } else {
                proof {
                    lemma_key_trichotomy(rest@[k as int]@, rest@[m as int]@);
                    assert forall|q: int| 0 <= q < k + 1 implies key_le(
                        rest@[m as int]@,
                        #[trigger] rest@[q]@,
                    ) by {
                        lemma_key_trichotomy(rest@[m as int]@, rest@[q]@);
                    }
                }
            }
            k = k + 1;
        }
        let ghost rest_old = rest@;
        let ghost out_old = out@;
        let u = rest.remove(m);
        out.push(u);
        proof {
            let x = rest_old[m as int]@;
            let rv = units_view(rest_old);
            let ov = units_view(out_old);
            assert(units_view(rest@) =~= rv.remove(m as int));
            assert(units_view(out@) =~= ov.push(x));
            ov.to_multiset_ensures();
            rv.to_multiset_ensures();
            assert(ov.push(x).to_multiset() =~= ov.to_multiset().insert(x));
            assert(rv.remove(m as int).to_multiset() =~= rv.to_multiset().remove(x));
            assert(rv.contains(x)) by {
                assert(rv[m as int] == x);
            }
            assert(rv.to_multiset().count(x) > 0);
            assert(ov.to_multiset().insert(x).add(rv.to_multiset().remove(x)) =~= ov.to_multiset(
            ).add(rv.to_multiset()));
            assert(units_view(out@).to_multiset().add(units_view(rest@).to_multiset()) =~= total);
            assert forall|a: int, b: int|
                0 <= a < out@.len() && 0 <= b < rest@.len() implies key_le(
                #[trigger] out@[a]@,
                #[trigger] rest@[b]@,
            ) by {
                if a == out@.len() - 1 {
                    if b < m {
                        assert(rest@[b] == rest_old[b]);
                    } else {
                        assert(rest@[b] == rest_old[b + 1]);
                    }
                } else {
                    assert(out@[a] == out_old[a]);
                }
            }
            assert(sorted_units(units_view(out@))) by {
                assert forall|i: int, j: int|
                    0 <= i < j < units_view(out@).len() implies key_le(
                    units_view(out@)[i],
                    units_view(out@)[j],
                ) by {
                    assert(units_view(out@)[i] == out@[i]@);
                    assert(units_view(out@)[j] == out@[j]@);
                    assert(out@[i] == out_old[i]);
                    if j < out_old.len() {
                        assert(out@[j] == out_old[j]);
                        assert(units_view(out_old)[i] == out_old[i]@);
                        assert(units_view(out_old)[j] == out_old[j]@);
                        assert(key_le(units_view(out_old)[i], units_view(out_old)[j]));
                    } else {
                        assert(out@[j]@ == x);
                        assert(key_le(out_old[i]@, rest_old[m as int]@));
                    }
                }
            }
        }
    }
    proof {
        assert(units_view(rest@).to_multiset().len() == 0);
        assert(units_view(out@).to_multiset().add(units_view(rest@).to_multiset()) =~= units_view(
            out@,
        ).to_multiset());
    }
    out
}

/// For a set of units whose keys are pairwise distinct, the order is
/// unique: any two ascending arrangements of the same units coincide.
/// Together with `order_entries`' contract this makes the established
/// order total and stable.
pub proof fn lemma_order_unique(x: Seq<UnitView>, y: Seq<UnitView>)
    requires
        sorted_units(x),
        sorted_units(y),
        x.to_multiset() == y.to_multiset(),
        distinct_keys(x),
    ensures
        x == y,
    decreases x.len(),
{
    broadcast use vstd::seq_lib::group_to_multiset_ensures;
    broadcast use vstd::multiset::group_multiset_axioms;

    if x.len() == 0 {
        assert(y.to_multiset().len() == 0);
        assert(x =~= y);
    } else {
        assert(x.to_multiset().contains(x[0])) by {
            assert(x.contains(x[0]));
        }
        assert(y.to_multiset().contains(y[0])) by {
            assert(y.contains(y[0]));
        }
        assert(y.contains(x[0]));
        assert(x.contains(y[0]));
        let i = choose|i: int| 0 <= i < x.len() && x[i] == y[0];
        let j = choose|j: int| 0 <= j < y.len() && y[j] == x[0];
        assert(key_le(x[0], x[i]) && key_le(y[0], y[j])) by {
            lemma_key_trichotomy(x[0], x[0]);
            lemma_key_trichotomy(y[0], y[0]);
        }
        assert(key_eq(x[0], y[0])) by {
            lemma_key_trichotomy(x[0], y[0]);
        }
        assert(i == 0) by {
            if i > 0 {
                assert(key_eq(x[0], x[i]));
            }
        }
        assert(x[0] == y[0]);
        assert(x.drop_first().to_multiset() =~= x.to_multiset().remove(x[0])) by {
            assert(x.remove(0) =~= x.drop_first());
        }
        assert(y.drop_first().to_multiset() =~= y.to_multiset().remove(y[0])) by {
            assert(y.remove(0) =~= y.drop_first());
        }
        assert(sorted_units(x.drop_first()) && distinct_keys(x.drop_first()) && sorted_units(
            y.drop_first(),
        )) by {
            assert(forall|a: int|
                0 <= a < x.len() - 1 ==> #[trigger] x.drop_first()[a] == x[a + 1]);
            assert(forall|a: int|
                0 <= a < y.len() - 1 ==> #[trigger] y.drop_first()[a] == y[a + 1]);
        }
        lemma_order_unique(x.drop_first(), y.drop_first());
        assert(x.to_multiset().len() == x.len());
        assert(y.to_multiset().len() == y.len());
        assert forall|a: int| 0 <= a < x.len() implies x[a] == y[a] by {
            if a > 0 {
                assert(x.drop_first()[a - 1] == y.drop_first()[a - 1]);
            }
        }
        assert(x =~= y);
    }
}

/// What remains of a sequence of units after collapsing each run of
/// units sharing an invocation identity to its first member.
pub open spec fn dedup_spec(s: Seq<UnitView>) -> Seq<UnitView>
    decreases s.len(),
{
    if s.len() <= 1 {
        s
    } else if s[s.len() - 1].id == s[s.len() - 2].id {
        dedup_spec(s.drop_last())
    } else {
        dedup_spec(s.drop_last()).push(s.last())
    }
}

/// Collapses runs of adjacent units sharing an identity, keeping the
/// first of each run: the identity-based cleanup for the same entry
/// observed through more than one discovery path.
pub fn dedup_entries(input: Vec<RunUnit>) -> (r: Vec<RunUnit>)
    ensures
        units_view(r@) == dedup_spec(units_view(input@)),
{
    let mut out: Vec<RunUnit> = Vec::new();
    let mut i: usize = 0;
    proof {
        assert(units_view(out@) =~= dedup_spec(units_view(input@).subrange(0, 0)));
    }
    while i < input.len()
        invariant
            i <= input@.len(),
            units_view(out@) == dedup_spec(units_view(input@).subrange(0, i as int)),
        decreases input@.len() - i,
    {
        let ghost pre = units_view(input@).subrange(0, i as int);
        let ghost post = units_view(input@).subrange(0, i + 1 as int);
        proof {
            assert(post.drop_last() =~= pre);
            assert(post.last() == input@[i as int]@);
        }
        if i == 0 {
            let u = crate::entry::copy_unit(&input[i]);
            out.push(u);
            proof {
                assert(units_view(out@) =~= dedup_spec(post));
            }
        } else {
            proof {
                assert(post[post.len() - 2] == input@[i - 1]@);
            }
            if input[i].id == input[i - 1].id {
                proof {
                    assert(units_view(out@) =~= dedup_spec(post));
                }
            } else {
                let ghost out_old = out@;
                let u = crate::entry::copy_unit(&input[i]);
                out.push(u);
                proof {
                    assert(units_view(out@) =~= units_view(out_old).push(input@[i as int]@));
                    assert(units_view(out@) =~= dedup_spec(post));
                }
            }
        }
        i = i + 1;
    }
    proof {
        assert(units_view(input@).subrange(0, input@.len() as int) =~= units_view(input@));
    }
    out
}

/// Registering the same entry twice through two discovery paths changes
/// nothing after Dedup: a unit adjacent to one sharing its identity can
/// be dropped without changing the result, so exactly one survivor
/// remains, in its ordered position.
pub proof fn lemma_dedup_collapses_duplicate(s: Seq<UnitView>, i: int)
    requires
        0 <= i < s.len() - 1,
        s[i].id == s[i + 1].id,
    ensures
        dedup_spec(s.remove(i + 1)) == dedup_spec(s),
    decreases s.len(),
{
    let t = s.remove(i + 1);
    if i + 1 == s.len() - 1 {
        assert(t =~= s.drop_last());
    } else {
        assert(t.drop_last() =~= s.drop_last().remove(i + 1));
        lemma_dedup_collapses_duplicate(s.drop_last(), i);
        assert(t[t.len() - 1] == s[s.len() - 1]);
        if i + 1 == s.len() - 2 {
            assert(t[t.len() - 2] == s[s.len() - 3]);
            assert(s[s.len() - 3].id == s[s.len() - 2].id);
        } else {
            assert(t[t.len() - 2] == s[s.len() - 2]);
        }
        assert(t[t.len() - 1].id == t[t.len() - 2].id <==> s[s.len() - 1].id == s[s.len()
            - 2].id);
    }
}


/// Every unit of the deduplicated sequence stands somewhere in the
/// sequence it came from.
pub proof fn lemma_dedup_elements(s: Seq<UnitView>)
    ensures
        forall|i: int| 0 <= i < dedup_spec(s).len() ==> s.contains(#[trigger] dedup_spec(s)[i]),
    decreases s.len(),
{
    if s.len() <= 1 {
        assert forall|i: int| 0 <= i < dedup_spec(s).len() implies s.contains(
            #[trigger] dedup_spec(s)[i],
        ) by {
            assert(s[i] == dedup_spec(s)[i]);
        }
    } else {
        let t = s.drop_last();
        lemma_dedup_elements(t);
        assert forall|i: int| 0 <= i < dedup_spec(s).len() implies s.contains(
            #[trigger] dedup_spec(s)[i],
        ) by {
            if s[s.len() - 1].id == s[s.len() - 2].id || i < dedup_spec(s).len() - 1 {
                assert(dedup_spec(s)[i] == dedup_spec(t)[i]);
                assert(t.contains(dedup_spec(t)[i]));
                let j = choose|j: int| 0 <= j < t.len() && t[j] == dedup_spec(t)[i];
                assert(s[j] == dedup_spec(s)[i]);
            } else {
                assert(s[s.len() - 1] == dedup_spec(s)[i]);
            }
        }
    }
}

/// An ordered sequence stays ordered after Dedup: each survivor keeps
/// its position relative to the other survivors.
pub proof fn lemma_dedup_sorted(s: Seq<UnitView>)
    requires
        sorted_units(s),
    ensures
        sorted_units(dedup_spec(s)),
    decreases s.len(),
{
    if s.len() > 1 {
        let t = s.drop_last();
        assert(sorted_units(t)) by {
            assert forall|i: int, j: int| 0 <= i < j < t.len() implies key_le(t[i], t[j]) by {
                assert(t[i] == s[i]);
                assert(t[j] == s[j]);
            }
        }
        lemma_dedup_sorted(t);
        if s[s.len() - 1].id != s[s.len() - 2].id {
            lemma_dedup_elements(t);
            let d = dedup_spec(t);
            assert forall|i: int, j: int|
                0 <= i < j < dedup_spec(s).len() implies key_le(
                dedup_spec(s)[i],
                dedup_spec(s)[j],
            ) by {
                if j < d.len() {
                    assert(key_le(d[i], d[j]));
                } else {
                    assert(dedup_spec(s)[i] == d[i]);
                    assert(t.contains(d[i]));
                    let w = choose|w: int| 0 <= w < t.len() && t[w] == d[i];
                    assert(key_le(s[w], s[s.len() - 1]));
                    assert(dedup_spec(s)[j] == s[s.len() - 1]);
                }
            }
        }
    }
}

/// The ignore policy, selected externally (command-line parsing).
#[derive(Clone, Copy, Debug, PartialEq, Eq, Structural)]
pub enum IgnoreMode {
    /// Skip entries marked ignored; the default.
    SkipIgnored,
    /// Run only the entries marked ignored.
    OnlyIgnored,
    /// Run everything regardless of the ignore flag.
    RunAll,
}

/// What the driver does with the surviving entries.
#[derive(Clone, Copy, Debug, PartialEq, Eq, Structural)]
pub enum Action {
    /// Invoke each entry inside a fresh measurement context and report
    /// its statistics.
    Run,
    /// Invoke each entry exactly once, without measurement, requiring it
    /// to complete.
    Validate,
    /// Print each entry's location and name without invoking it.
    List,
}

/// Whether the ignore policy lets an entry with this flag run.
pub open spec fn should_run(mode: IgnoreMode, ignored: bool) -> bool {
    match mode {
        IgnoreMode::SkipIgnored => !ignored,
        IgnoreMode::OnlyIgnored => ignored,
        IgnoreMode::RunAll => true,
    }
}

/// Decides `should_run(mode, ignored)`.
pub fn should_run_unit(mode: IgnoreMode, ignored: bool) -> (r: bool)
    ensures
        r == should_run(mode, ignored),
{
    match mode {
        IgnoreMode::SkipIgnored => !ignored,
        IgnoreMode::OnlyIgnored => ignored,
        IgnoreMode::RunAll => true,
    }
}

/// `p` occurs in `s` starting at position `k`.
pub open spec fn match_at(s: Seq<u8>, p: Seq<u8>, k: int) -> bool {
    0 <= k && k + p.len() <= s.len() && s.subrange(k, k + p.len()) == p
}

/// `p` occurs somewhere in `s`.
pub open spec fn contains_bytes(s: Seq<u8>, p: Seq<u8>) -> bool {
    exists|k: int| match_at(s, p, k)
}

/// Decides whether `p@` occurs in `s@` at position `k`.
fn bytes_match_at(s: &Vec<u8>, p: &Vec<u8>, k: usize) -> (r: bool)
    requires
        k + p@.len() <= s@.len(),
    ensures
        r == match_at(s@, p@, k as int),
{
    let slen: usize = s.len();
    let mut q: usize = 0;
    while q < p.len()
        invariant
            q <= p@.len(),
            k + p@.len() <= s@.len(),
            slen == s@.len(),
            forall|t: int| 0 <= t < q ==> s@[k + t] == p@[t],
        decreases p@.len() - q,
    {
        if s[k + q] != p[q] {
            proof {
                assert(s@.subrange(k as int, k + p@.len())[q as int] == s@[k + q]);
            }
            return false;
        }
        q = q + 1;
    }
    proof {
        assert(s@.subrange(k as int, k + p@.len()) =~= p@);
    }
    true
}

/// Decides whether `p@` occurs anywhere in `s@`.
pub fn bytes_contains(s: &Vec<u8>, p: &Vec<u8>) -> (r: bool)
    ensures
        r == contains_bytes(s@, p@),
{
    if p.len() > s.len() {
        proof {
            assert(forall|k: int| !match_at(s@, p@, k));
        }
        return false;
    }
    if p.len() == 0 {
        proof {
            assert(s@.subrange(0, 0) =~= p@);
            assert(match_at(s@, p@, 0));
        }
        return true;
    }
    let last: usize = s.len() - p.len();
    let bound: usize = last + 1;
    let mut k: usize = 0;
    while k < bound
        invariant
            last == s@.len() - p@.len(),
            bound == last + 1,
            0 < p@.len() <= s@.len(),
            k <= bound,
            forall|t: int| 0 <= t < k ==> !match_at(s@, p@, t),
        decreases bound - k,
    {
        if bytes_match_at(s, p, k) {
            proof {
                assert(contains_bytes(s@, p@));
            }
            return true;
        }
        k = k + 1;
    }
    proof {
        assert(forall|t: int| t > last ==> !match_at(s@, p@, t));
    }
    false
}

/// The optional name pattern, as a byte sequence.
pub open spec fn pat_view(p: Option<Vec<u8>>) -> Option<Seq<u8>> {
    match p {
        Some(v) => Some(v@),
        None => None,
    }
}

/// Whether a unit passes the name filter: with no pattern everything is
/// selected, else the pattern must occur in the display name.
pub open spec fn selected(u: UnitView, pat: Option<Seq<u8>>) -> bool {
    match pat {
        Some(p) => contains_bytes(u.display_name, p),
        None => true,
    }
}

/// Keeps exactly the units whose display name matches the requested
/// pattern, in their incoming order. A pattern matching nothing is not
/// an error: the surviving set is then empty.
pub fn filter_entries(input: Vec<RunUnit>, pattern: &Option<Vec<u8>>) -> (r: Vec<RunUnit>)
    ensures
        units_view(r@) == units_view(input@).filter(
            |u: UnitView| selected(u, pat_view(*pattern)),
        ),
{
    let ghost pred = |u: UnitView| selected(u, pat_view(*pattern));
    let mut out: Vec<RunUnit> = Vec::new();
    let mut i: usize = 0;
    proof {
        reveal(Seq::filter);
        assert(units_view(out@) =~= units_view(input@).subrange(0, 0).filter(pred));
    }
    while i < input.len()
        invariant
            i <= input@.len(),
            pred == (|u: UnitView| selected(u, pat_view(*pattern))),
            units_view(out@) == units_view(input@).subrange(0, i as int).filter(pred),
        decreases input@.len() - i,
    {
        let keep: bool = match pattern {
            Some(p) => bytes_contains(&input[i].display_name, p),
            None => true,
        };
        let ghost pre = units_view(input@).subrange(0, i as int);
        let ghost post = units_view(input@).subrange(0, i + 1 as int);
        proof {
            reveal(Seq::filter);
            assert(post.drop_last() =~= pre);
            assert(post.last() == input@[i as int]@);
            assert(keep == pred(input@[i as int]@));
        }
        if keep {
            let ghost out_old = out@;
            let u = crate::entry::copy_unit(&input[i]);
            out.push(u);
            proof {
                reveal(Seq::filter);
                assert(units_view(out@) =~= units_view(out_old).push(input@[i as int]@));
                assert(units_view(out@) =~= post.filter(pred));
            }
        } else {
            proof {
                reveal(Seq::filter);
                assert(units_view(out@) =~= post.filter(pred));
            }
        }
        i = i + 1;
    }
    proof {
        assert(units_view(input@).subrange(0, input@.len() as int) =~= units_view(input@));
    }
    out
}

/// The bytes of `Running '`.
pub open spec fn running_prefix() -> Seq<u8> {
    seq![
        'R' as u8,
        'u' as u8,
        'n' as u8,
        'n' as u8,
        'i' as u8,
        'n' as u8,
        'g' as u8,
        ' ' as u8,
        '\'' as u8,
    ]
}

/// The bytes of `Ignoring '`.
pub open spec fn ignoring_prefix() -> Seq<u8> {
    seq![
        'I' as u8,
        'g' as u8,
        'n' as u8,
        'o' as u8,
        'r' as u8,
        'i' as u8,
        'n' as u8,
        'g' as u8,
        ' ' as u8,
        '\'' as u8,
    ]
}

/// The line announcing that an entry runs: `Running '<name>'`.
pub open spec fn running_line(name: Seq<u8>) -> Seq<u8> {
    running_prefix() + name + seq!['\'' as u8]
}

/// The line announcing that an entry is skipped: `Ignoring '<name>'`.
pub open spec fn ignoring_line(name: Seq<u8>) -> Seq<u8> {
    ignoring_prefix() + name + seq!['\'' as u8]
}

/// The enumeration line of one unit:
/// `<file> - <name> (line <line>): bench`.
pub open spec fn list_line(u: UnitView) -> Seq<u8> {
    u.file + seq![' ' as u8, '-' as u8, ' ' as u8] + u.display_name + seq![
        ' ' as u8,
        '(' as u8,
        'l' as u8,
        'i' as u8,
        'n' as u8,
        'e' as u8,
        ' ' as u8,
    ] + dec_spec(u.line as nat) + seq![
        ')' as u8,
        ':' as u8,
        ' ' as u8,
        'b' as u8,
        'e' as u8,
        'n' as u8,
        'c' as u8,
        'h' as u8,
    ]
}

/// Builds `Running '<name>'`.
pub fn build_running_line(name: &Vec<u8>) -> (r: Vec<u8>)
    ensures
        r@ == running_line(name@),
{
    let mut out: Vec<u8> = Vec::new();
    out.push('R' as u8);
    out.push('u' as u8);
    out.push('n' as u8);
    out.push('n' as u8);
    out.push('i' as u8);
    out.push('n' as u8);
    out.push('g' as u8);
    out.push(' ' as u8);
    out.push('\'' as u8);
    push_bytes(&mut out, name);
    out.push('\'' as u8);
    proof {
        assert(out@ =~= running_line(name@));
    }
    out
}

/// Builds `Ignoring '<name>'`.
pub fn build_ignoring_line(name: &Vec<u8>) -> (r: Vec<u8>)
    ensures
        r@ == ignoring_line(name@),
{
    let mut out: Vec<u8> = Vec::new();
    out.push('I' as u8);
    out.push('g' as u8);
    out.push('n' as u8);
    out.push('o' as u8);
    out.push('r' as u8);
    out.push('i' as u8);
    out.push('n' as u8);
    out.push('g' as u8);
    out.push(' ' as u8);
    out.push('\'' as u8);
    push_bytes(&mut out, name);
    out.push('\'' as u8);
    proof {
        assert(out@ =~= ignoring_line(name@));
    }
    out
}

/// Builds `<file> - <name> (line <line>): bench`.
pub fn build_list_line(u: &RunUnit) -> (r: Vec<u8>)
    ensures
        r@ == list_line(u@),
{
    let mut out = crate::entry::copy_bytes(&u.file);
    out.push(' ' as u8);
    out.push('-' as u8);
    out.push(' ' as u8);
    push_bytes(&mut out, &u.display_name);
    out.push(' ' as u8);
    out.push('(' as u8);
    out.push('l' as u8);
    out.push('i' as u8);
    out.push('n' as u8);
    out.push('e' as u8);
    out.push(' ' as u8);
    let digits = render_u64(u.line);
    push_bytes(&mut out, &digits);
    out.push(')' as u8);
    out.push(':' as u8);
    out.push(' ' as u8);
    out.push('b' as u8);
    out.push('e' as u8);
    out.push('n' as u8);
    out.push('c' as u8);
    out.push('h' as u8);
    proof {
        assert(out@ =~= list_line(u@));
    }
    out
}

/// One step of the execution plan: a line to print, and the identity to
/// invoke, if this step invokes anything.
#[derive(Clone, Debug)]
pub struct PlanStep {
    /// The identity the embedder maps to the entry's callable; `None`
    /// for a step that only prints.
    pub invoke: Option<u64>,
    /// The line to print for this step, as UTF-8 bytes.
    pub output: Vec<u8>,
}

/// What the plan step for one surviving unit must be.
///
/// Under `List`, every unit is enumerated without being invoked. Under
/// `Run` and `Validate`, a unit the ignore policy lets run is announced
/// and invoked; one it does not is reported as ignored, never silently
/// dropped, and contributes nothing further.
pub open spec fn step_matches(st: PlanStep, u: UnitView, action: Action, mode: IgnoreMode) -> bool {
    match action {
        Action::List => st.invoke is None && st.output@ == list_line(u),
        _ => if should_run(mode, u.ignored) {
            st.invoke == Some(u.id) && st.output@ == running_line(u.display_name)
        } else {
            st.invoke is None && st.output@ == ignoring_line(u.display_name)
        },
    }
}

/// Turns the ordered, deduplicated survivors into the execution plan:
/// one step per unit, in order.
pub fn execution_plan(units: &Vec<RunUnit>, action: Action, mode: IgnoreMode) -> (steps: Vec<
    PlanStep,
>)
    ensures
        steps@.len() == units@.len(),
        forall|i: int|
            0 <= i < units@.len() ==> step_matches(#[trigger] steps@[i], units@[i]@, action, mode),
{
    let mut steps: Vec<PlanStep> = Vec::new();
    let mut i: usize = 0;
    while i < units.len()
        invariant
            i <= units@.len(),
            steps@.len() == i,
            forall|t: int|
                0 <= t < i ==> step_matches(#[trigger] steps@[t], units@[t]@, action, mode),
        decreases units@.len() - i,
    {
        let u = &units[i];
        let step: PlanStep = match action {
            Action::List => PlanStep { invoke: None, output: build_list_line(u) },
            _ => {
                if should_run_unit(mode, u.ignored) {
                    PlanStep { invoke: Some(u.id), output: build_running_line(&u.display_name) }
                } else {
                    PlanStep { invoke: None, output: build_ignoring_line(&u.display_name) }
                }
            },
        };
        steps.push(step);
        i = i + 1;
    }
    steps
}

/// The stages of one invocation, composed: Collect, Filter, Order,
/// Dedup, and the plan the Execute stage follows.
pub struct Pipeline {
    /// The selected units in their established order, before duplicate
    /// removal.
    pub ordered: Vec<RunUnit>,
    /// The surviving units: ordered, one per invocation identity run.
    pub survivors: Vec<RunUnit>,
    /// One step per survivor, in order.
    pub steps: Vec<PlanStep>,
}

/// Runs the driver pipeline over a populated registry.
///
/// The selected units are exactly those of the registry whose display
/// name matches the pattern; they are arranged ascending by
/// (display name, file, line); runs of equal invocation identities are
/// collapsed to their first member; and the plan holds one step per
/// survivor.
pub fn run_pipeline(
    reg: &crate::registry::Registry,
    pattern: &Option<Vec<u8>>,
    action: Action,
    mode: IgnoreMode,
) -> (r: Pipeline)
    ensures
        sorted_units(units_view(r.ordered@)),
        units_view(r.ordered@).to_multiset() == reg.all_units().filter(
            |u: UnitView| selected(u, pat_view(*pattern)),
        ).to_multiset(),
        units_view(r.survivors@) == dedup_spec(units_view(r.ordered@)),
        sorted_units(units_view(r.survivors@)),
        r.steps@.len() == r.survivors@.len(),
        forall|i: int|
            0 <= i < r.survivors@.len() ==> step_matches(
                #[trigger] r.steps@[i],
                r.survivors@[i]@,
                action,
                mode,
            ),
{
    let collected = reg.drain_all();
    let kept = filter_entries(collected, pattern);
    let ordered = order_entries(kept);
    let survivors = dedup_entries(ordered_ref_copy(&ordered));
    let steps = execution_plan(&survivors, action, mode);
    proof {
        lemma_dedup_sorted(units_view(ordered@));
    }
    Pipeline { ordered, survivors, steps }
}

/// A fresh vector holding the same units.
fn ordered_ref_copy(v: &Vec<RunUnit>) -> (r: Vec<RunUnit>)
    ensures
        units_view(r@) == units_view(v@),
        r@.len() == v@.len(),
{
    let mut out: Vec<RunUnit> = Vec::new();
    let mut i: usize = 0;
    while i < v.len()
        invariant
            i <= v@.len(),
            out@.len() == i,
            forall|t: int| 0 <= t < i ==> #[trigger] out@[t]@ == v@[t]@,
        decreases v@.len() - i,
    {
        let u = crate::entry::copy_unit(&v[i]);
        out.push(u);
        i = i + 1;
    }
    proof {
        assert(units_view(out@) =~= units_view(v@));
    }
    out
}

/// Whether any entry of an invocation failed: the whole invocation is
/// then considered failed, though each failure stayed isolated to its
/// entry.
pub fn overall_failed(results: &Vec<bool>) -> (r: bool)
    ensures
        r == results@.contains(true),
{
    let mut i: usize = 0;
    while i < results.len()
        invariant
            i <= results@.len(),
            forall|t: int| 0 <= t < i ==> !results@[t],
        decreases results@.len() - i,
    {
        if results[i] {
            return true;
        }
        i = i + 1;
    }
    proof {
        assert(!results@.contains(true));
    }
    false
}

} // verus!
