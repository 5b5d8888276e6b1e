//! Entry model: value types describing a benchmark or a benchmark group.
//!
//! An entry records its identity (`raw_name`), a user-facing display name,
//! its source location (used for tie-breaking and display), an ignore flag,
//! and a configuration that is computed at most once and cached thereafter.
//! Names and paths are held as UTF-8 bytes so that the ordering contracts
//! can speak of plain byte sequences.

use vstd::prelude::*;

use crate::text::dec_spec;
use crate::text::push_bytes;
use crate::text::render_u64;

verus! {

/// A fresh byte vector holding the same bytes as `src`.
pub fn copy_bytes(src: &Vec<u8>) -> (r: Vec<u8>)
    ensures
        r@ == src@,
{
    let mut v: Vec<u8> = Vec::new();
    push_bytes(&mut v, src);
    proof {
        assert(Seq::<u8>::empty() + src@ =~= src@);
    }
    v
}

/// What a compute-once cache returns for one access: the cached value if
/// one is present, else the freshly computed one.
pub open spec fn memo_value<T>(cache: Option<T>, fresh: T) -> T {
    match cache {
        Some(prev) => prev,
        None => fresh,
    }
}

/// The cache after one access: always filled, with the returned value.
pub open spec fn memo_after<T>(cache: Option<T>, fresh: T) -> Option<T> {
    Some(memo_value(cache, fresh))
}

/// Compute-once caches are stable: after a first access, a second access
/// returns the identical value — whatever a re-run provider would hand in —
/// and leaves the cache unchanged. Accessing twice therefore never needs
/// the provider's second result.
pub proof fn lemma_memo_stable<T>(cache: Option<T>, fresh1: T, fresh2: T)
    ensures
        memo_value(memo_after(cache, fresh1), fresh2) == memo_value(cache, fresh1),
        memo_after(memo_after(cache, fresh1), fresh2) == memo_after(cache, fresh1),
{
}

/// Per-entry benchmark configuration.
///
/// The driver never constructs one itself; a provider attached at the
/// declaration site computes it, and the entry caches the result.
#[derive(Clone, Copy, Debug, PartialEq, Eq, Structural)]
pub struct Config {
    /// How many samples the measurement loop should take.
    pub sample_count: u64,
    /// How many iterations make up one sample.
    pub sample_size: u64,
}

/// Source position at which an entry was declared; fixed at declaration,
/// used only for tie-breaking and display.
#[derive(Clone, Debug)]
#[verifier::ext_equal]
pub struct EntryLocation {
    /// Path of the declaring source file, as UTF-8 bytes.
    pub file: Vec<u8>,
    /// 1-based line of the declaration.
    pub line: u64,
    /// 1-based column of the declaration.
    pub col: u64,
}

/// Shared metadata of a benchmark or group entry.
#[derive(Clone, Debug)]
#[verifier::ext_equal]
pub struct EntryMeta {
    /// The declared identifier; the identity used for duplicate detection.
    pub raw_name: Vec<u8>,
    /// The user-facing name; defaults to `raw_name`, may be overridden.
    pub display_name: Vec<u8>,
    /// Path of the module that declared the entry, as UTF-8 bytes.
    pub module: Vec<u8>,
    /// Where the entry was declared.
    pub location: EntryLocation,
    /// Whether the entry was marked ignored at its declaration site.
    pub ignored: bool,
    /// The configuration, once computed; `None` until first access.
    pub cached_config: Option<Config>,
}

impl EntryMeta {
    /// The cached configuration as seen by specifications.
    pub open spec fn config_cache(self) -> Option<Config> {
        self.cached_config
    }

    /// Builds metadata with an empty configuration cache.
    pub fn new(
        raw_name: Vec<u8>,
        display_name: Vec<u8>,
        module: Vec<u8>,
        location: EntryLocation,
        ignored: bool,
    ) -> (m: EntryMeta)
        ensures
            m.raw_name == raw_name,
            m.display_name == display_name,
            m.module == module,
            m.location == location,
            m.ignored == ignored,
            m.config_cache() is None,
    {
        EntryMeta { raw_name, display_name, module, location, ignored, cached_config: None }
    }

    /// Whether the configuration still has to be computed by the provider.
    ///
    /// Callers consult this before invoking the provider, so that the
    /// provider runs at most once per entry.
    pub fn config_pending(&self) -> (r: bool)
        ensures
            r == (self.config_cache() is None),
    {
        self.cached_config.is_none()
    }

    /// First-access-wins cached read of the configuration.
    ///
    /// `fresh` is the value the external provider computed for this access;
    /// it is stored and returned only if no configuration was cached yet.
    /// Once a value is cached, every later access returns that same value
    /// and leaves the entry unchanged.
    pub fn config_or_init(&mut self, fresh: Config) -> (c: Config)
        ensures
            c == memo_value(old(self).config_cache(), fresh),
            final(self).config_cache() == memo_after(old(self).config_cache(), fresh),
            old(self).config_cache() is Some ==> *final(self) == *old(self),
            final(self).raw_name == old(self).raw_name,
            final(self).display_name == old(self).display_name,
            final(self).module == old(self).module,
            final(self).location == old(self).location,
            final(self).ignored == old(self).ignored,
    {
        match self.cached_config {
            Some(prev) => prev,
            None => {
                self.cached_config = Some(fresh);
                fresh
            },
        }
    }
}

/// Identifies the concrete type a generic benchmark was instantiated at;
/// carries the type's name for display and duplicate detection, not full
/// reflection.
#[derive(Clone, Debug)]
#[verifier::ext_equal]
pub struct TypeTag {
    /// The type's name, as UTF-8 bytes.
    pub name: Vec<u8>,
}

/// A constant value a generic benchmark was instantiated at, together
/// with a rendering of it that is computed at most once.
#[derive(Clone, Debug)]
#[verifier::ext_equal]
pub struct ConstTag {
    /// The constant the benchmark variant was instantiated with.
    pub value: u64,
    /// Decimal rendering of `value`; `None` until first requested.
    pub rendered: Option<Vec<u8>>,
}

impl ConstTag {
    /// The rendering cache only ever holds the decimal form of `value`.
    pub open spec fn wf(self) -> bool {
        match self.rendered {
            Some(r) => r@ == dec_spec(self.value as nat),
            None => true,
        }
    }

    /// Tags a constant value, with the rendering still to be computed.
    pub fn new(value: u64) -> (t: ConstTag)
        ensures
            t.value == value,
            t.rendered is None,
            t.wf(),
    {
        ConstTag { value, rendered: None }
    }

    /// The rendered form of the constant, computed on first access and
    /// cached; later accesses return the cached bytes unchanged.
    pub fn rendering(&mut self) -> (r: Vec<u8>)
        requires
            old(self).wf(),
        ensures
            r@ == dec_spec(old(self).value as nat),
            final(self).value == old(self).value,
            final(self).rendered matches Some(c) && c@ == r@,
            final(self).wf(),
            old(self).rendered is Some ==> *final(self) == *old(self),
    {
        match &self.rendered {
            Some(cached) => copy_bytes(cached),
            None => {
                let fresh = render_u64(self.value);
                let out = copy_bytes(&fresh);
                self.rendered = Some(fresh);
                out
            },
        }
    }
}

/// A leaf benchmark: directly runnable.
#[derive(Clone, Debug)]
#[verifier::ext_equal]
pub struct BenchEntry {
    /// Name, location, ignore flag and configuration cache.
    pub meta: EntryMeta,
    /// Invocation identity: the embedder maps it to the declared callable,
    /// and the driver collapses entries observed twice under the same
    /// identity.
    pub id: u64,
}

/// One monomorphized variant of a generic benchmark.
#[derive(Clone, Debug)]
#[verifier::ext_equal]
pub struct GenericBenchEntry {
    /// Identity of the `GroupEntry` that owns this variant.
    pub group_id: u64,
    /// Invocation identity of this variant (see `BenchEntry::id`).
    pub id: u64,
    /// The concrete type axis value, when the benchmark has a type axis.
    pub type_tag: Option<TypeTag>,
    /// The constant axis value, when the benchmark has a constant axis.
    pub const_tag: Option<ConstTag>,
}

/// A benchmark group: either a plain grouping, or the owner of a generic
/// benchmark's instantiations.
#[derive(Clone, Debug)]
#[verifier::ext_equal]
pub struct GroupEntry {
    /// Name, location, ignore flag and configuration cache.
    pub meta: EntryMeta,
    /// Identity of the group itself (groups are not runnable).
    pub id: u64,
    /// For a generic benchmark, its variants: the outer list follows the
    /// first-declared axis, the inner list the second. `None` for a plain
    /// grouping, which contributes nothing runnable.
    pub generic_variants: Option<Vec<Vec<GenericBenchEntry>>>,
    /// Whether the constant parameter was declared before the type
    /// parameter; decides which axis varies slower in the produced order
    /// and which tag is printed first in a variant's display name.
    pub const_major: bool,
}

/// Separator between the type and constant tag in a display name.
pub open spec fn tag_separator() -> Seq<u8> {
    seq![',' as u8, ' ' as u8]
}

/// The name carried by an optional type tag.
pub open spec fn tag_name_view(ty: Option<TypeTag>) -> Option<Seq<u8>> {
    match ty {
        Option::Some(t) => Some(t.name@),
        Option::None => None,
    }
}

/// The value carried by an optional constant tag.
pub open spec fn tag_value_view(ct: Option<ConstTag>) -> Option<u64> {
    match ct {
        Option::Some(c) => Some(c.value),
        Option::None => None,
    }
}

/// The text between angle brackets of a variant's display name: its tags
/// in declaration order.
pub open spec fn variant_tags(tname: Option<Seq<u8>>, cval: Option<u64>, const_major: bool) -> Seq<
    u8,
> {
    match (tname, cval) {
        (Option::None, Option::None) => Seq::empty(),
        (Option::Some(t), Option::None) => t,
        (Option::None, Option::Some(c)) => dec_spec(c as nat),
        (Option::Some(t), Option::Some(c)) => if const_major {
            dec_spec(c as nat) + tag_separator() + t
        } else {
            t + tag_separator() + dec_spec(c as nat)
        },
    }
}

/// The display name of a variant: the group's name, followed by the
/// instantiation tags in angle brackets when there are any.
pub open spec fn variant_display(
    base: Seq<u8>,
    tname: Option<Seq<u8>>,
    cval: Option<u64>,
    const_major: bool,
) -> Seq<u8> {
    if tname is None && cval is None {
        base
    } else {
        base + seq!['<' as u8] + variant_tags(tname, cval, const_major) + seq!['>' as u8]
    }
}

/// Builds a variant's display name, matching `variant_display`.
pub fn variant_display_name(
    base: &Vec<u8>,
    ty: &Option<TypeTag>,
    ct: &Option<ConstTag>,
    const_major: bool,
) -> (r: Vec<u8>)
    ensures
        r@ == variant_display(base@, tag_name_view(*ty), tag_value_view(*ct), const_major),
{
    let mut out = copy_bytes(base);
    match (ty, ct) {
        (Option::None, Option::None) => out,
        _ => {
            out.push('<' as u8);
            match (ty, ct) {
                (Option::None, Option::None) => {
                },
                (Option::Some(t), Option::None) => {
                    push_bytes(&mut out, &t.name);
                },
                (Option::None, Option::Some(c)) => {
                    let digits = render_u64(c.value);
                    push_bytes(&mut out, &digits);
                },
                (Option::Some(t), Option::Some(c)) => {
                    let digits = render_u64(c.value);
                    if const_major {
                        push_bytes(&mut out, &digits);
                        out.push(',' as u8);
                        out.push(' ' as u8);
                        push_bytes(&mut out, &t.name);
                    } else {
                        push_bytes(&mut out, &t.name);
                        out.push(',' as u8);
                        out.push(' ' as u8);
                        push_bytes(&mut out, &digits);
                    }
                },
            }
            out.push('>' as u8);
            proof {
                assert(out@ =~= variant_display(
                    base@,
                    tag_name_view(*ty),
                    tag_value_view(*ct),
                    const_major,
                ));
            }
            out
        },
    }
}

/// A directly runnable unit, as the driver sees it after Collect: a leaf
/// benchmark, or one variant of a generic benchmark.
#[derive(Clone, Debug)]
#[verifier::ext_equal]
pub struct RunUnit {
    /// Invocation identity; the dedup key, and the handle the embedder
    /// maps back to the callable.
    pub id: u64,
    /// The name the driver sorts by and prints.
    pub display_name: Vec<u8>,
    /// Declaring file, the first tie-breaker of the order.
    pub file: Vec<u8>,
    /// Declaring line, the second tie-breaker of the order.
    pub line: u64,
    /// Whether the declaring entry was marked ignored.
    pub ignored: bool,
}

/// The mathematical value of a `RunUnit`: the same fields, with byte
/// vectors abstracted to byte sequences.
pub struct UnitView {
    /// Invocation identity.
    pub id: u64,
    /// The name the driver sorts by and prints.
    pub display_name: Seq<u8>,
    /// Declaring file.
    pub file: Seq<u8>,
    /// Declaring line.
    pub line: u64,
    /// Whether the declaring entry was marked ignored.
    pub ignored: bool,
}

impl View for RunUnit {
    type V = UnitView;

    open spec fn view(&self) -> UnitView {
        UnitView {
            id: self.id,
            display_name: self.display_name@,
            file: self.file@,
            line: self.line,
            ignored: self.ignored,
        }
    }
}

/// The views of a sequence of units.
pub open spec fn units_view(s: Seq<RunUnit>) -> Seq<UnitView> {
    s.map_values(|u: RunUnit| u.view())
}

/// The unit a leaf benchmark contributes to the driver.
pub open spec fn bench_unit_view(b: BenchEntry) -> UnitView {
    UnitView {
        id: b.id,
        display_name: b.meta.display_name@,
        file: b.meta.location.file@,
        line: b.meta.location.line,
        ignored: b.meta.ignored,
    }
}

/// The unit one variant of a group contributes: the group's location and
/// ignore flag, under the variant's composed name and own identity.
pub open spec fn variant_unit_view(g: GroupEntry, v: GenericBenchEntry) -> UnitView {
    UnitView {
        id: v.id,
        display_name: variant_display(
            g.meta.display_name@,
            tag_name_view(v.type_tag),
            tag_value_view(v.const_tag),
            g.const_major,
        ),
        file: g.meta.location.file@,
        line: g.meta.location.line,
        ignored: g.meta.ignored,
    }
}

/// Builds the runnable unit for one variant of a group.
pub fn make_variant_unit(g: &GroupEntry, v: &GenericBenchEntry) -> (u: RunUnit)
    ensures
        u@ == variant_unit_view(*g, *v),
{
    let display_name = variant_display_name(
        &g.meta.display_name,
        &v.type_tag,
        &v.const_tag,
        g.const_major,
    );
    RunUnit {
        id: v.id,
        display_name,
        file: copy_bytes(&g.meta.location.file),
        line: g.meta.location.line,
        ignored: g.meta.ignored,
    }
}

/// A fresh unit holding the same values as `u`.
pub fn copy_unit(u: &RunUnit) -> (r: RunUnit)
    ensures
        r@ == u@,
{
    RunUnit {
        id: u.id,
        display_name: copy_bytes(&u.display_name),
        file: copy_bytes(&u.file),
        line: u.line,
        ignored: u.ignored,
    }
}

/// Builds the runnable unit for a leaf benchmark.
pub fn make_bench_unit(b: &BenchEntry) -> (u: RunUnit)
    ensures
        u@ == bench_unit_view(*b),
{
    RunUnit {
        id: b.id,
        display_name: copy_bytes(&b.meta.display_name),
        file: copy_bytes(&b.meta.location.file),
        line: b.meta.location.line,
        ignored: b.meta.ignored,
    }
}

} // verus!
