//! Comparison of descriptor set layouts reflected from shaders, used to merge the layouts
//! of the shaders of one pipeline.

use crate::layout::descriptor::DescriptorType;
use crate::layout::shaders::{lemma_union_bits, ShaderStageFlags};
use vstd::prelude::*;

verus! {

/// Binding of a descriptor set layout, as reflected from a shader.
#[derive(Clone, Copy, Debug)]
pub struct LayoutBinding {
    /// Binding index.
    pub binding: u32,
    /// Type of the descriptors.
    pub ty: DescriptorType,
    /// Number of descriptors.
    pub count: usize,
    /// Stages that use the binding.
    pub stage_flags: ShaderStageFlags,
    /// Whether the binding has immutable samplers.
    pub immutable_samplers: bool,
}

/// Layout of one descriptor set.
#[derive(Clone, Debug)]
pub struct SetLayout {
    /// Bindings of the set.
    pub bindings: Vec<LayoutBinding>,
}

/// This enum provides logical comparison results for descriptor sets. Because shaders can share bindings,
/// we cannot do a strict equality check for exclusion - we must see if shaders match, or if they are the same bindings
/// but mismatched descriptions.
#[derive(Debug, Eq, PartialEq, Structural, Clone, Copy, Hash)]
pub enum BindingEquality {
    /// The bindings match
    Equal,
    /// The bindings share a binding index, but have different values. This is usually an error case.
    SameBindingNonEqual,
    /// The bindings do not equal
    NotEqual,
}

/// Result of comparing two bindings: equal when index, count, immutable samplers and type
/// all agree (stages are not compared), else related by the index alone.
pub open spec fn binding_equality(lhv: LayoutBinding, rhv: LayoutBinding) -> BindingEquality {
    if lhv.binding == rhv.binding && lhv.count == rhv.count && lhv.immutable_samplers == rhv.immutable_samplers
        && lhv.ty == rhv.ty {
        BindingEquality::Equal
    } else if lhv.binding == rhv.binding {
        BindingEquality::SameBindingNonEqual
    } else {
        BindingEquality::NotEqual
    }
}

/// Logically compares two descriptor layout bindings to determine their relational equality.
pub fn compare_bindings(lhv: &LayoutBinding, rhv: &LayoutBinding) -> (r: BindingEquality)
    ensures
        r == binding_equality(*lhv, *rhv),
        r == BindingEquality::Equal <==> (lhv.binding == rhv.binding && lhv.count == rhv.count && lhv.ty == rhv.ty
            && lhv.immutable_samplers == rhv.immutable_samplers),
        r == BindingEquality::NotEqual <==> lhv.binding != rhv.binding,
{
    if lhv.binding == rhv.binding && lhv.count == rhv.count && lhv.immutable_samplers == rhv.immutable_samplers
        && lhv.ty == rhv.ty {
        return BindingEquality::Equal;
    } else {
        if lhv.binding == rhv.binding {
            return BindingEquality::SameBindingNonEqual;
        }
    }
    return BindingEquality::NotEqual;
}

/// Bindings are equal exactly when they describe the same descriptors at the same index:
/// same index, number of descriptors, descriptor type and immutable samplers. Bindings of
/// one index that differ in any of these are never equal, and bindings of different indices
/// are unrelated.
pub proof fn lemma_binding_equality_meaning(a: LayoutBinding, b: LayoutBinding)
    ensures
        binding_equality(a, b) == BindingEquality::Equal <==> (a.binding == b.binding && a.count == b.count && a.ty
            == b.ty && a.immutable_samplers == b.immutable_samplers),
        binding_equality(a, b) == BindingEquality::SameBindingNonEqual <==> (a.binding == b.binding && (a.count
            != b.count || a.ty != b.ty || a.immutable_samplers != b.immutable_samplers)),
        binding_equality(a, b) == BindingEquality::NotEqual <==> a.binding != b.binding,
{
}

/// Comparing a binding with itself finds it equal.
pub proof fn lemma_binding_equal_reflexive(b: LayoutBinding)
    ensures
        binding_equality(b, b) == BindingEquality::Equal,
{
}

/// Comparison of bindings does not depend on their order.
pub proof fn lemma_binding_equality_symmetric(a: LayoutBinding, b: LayoutBinding)
    ensures
        binding_equality(a, b) == binding_equality(b, a),
{
}

/// This enum provides logical comparison results for sets. Because shaders can share bindings,
/// we cannot do a strict equality check for exclusion - we must see if shaders match, or if they are the same bindings
/// but mismatched descriptions.
#[derive(Debug, Eq, PartialEq, Structural, Clone, Copy, Hash)]
pub enum SetEquality {
    /// The sets match
    Equal,
    /// The sets share a binding index, but have different values. This is usually an error case.
    SubsetOf,
    /// A superset set layout. This means LHV contains more data than RHV
    SupersetOf,
    /// Invalid Match
    NotEqual,
}

/// Position of the last binding of index `key` in `s`: bindings of one index that come
/// later replace earlier ones.
pub open spec fn last_with(s: Seq<LayoutBinding>, key: u32) -> Option<int>
    decreases s.len(),
{
    if s.len() == 0 {
        None
    } else if s.last().binding == key {
        Some(s.len() - 1)
    } else {
        last_with(s.drop_last(), key)
    }
}

/// The binding at `p` is the last of its index in `s`.
pub open spec fn is_last(s: Seq<LayoutBinding>, p: int) -> bool {
    forall|q: int| p < q < s.len() ==> s[q].binding != s[p].binding
}

/// Relation of the sets suggested by their numbers of bindings.
pub open spec fn size_relation(l: Seq<LayoutBinding>, r: Seq<LayoutBinding>) -> SetEquality {
    if l.len() == r.len() {
        SetEquality::Equal
    } else if l.len() > r.len() {
        SetEquality::SupersetOf
    } else {
        SetEquality::SubsetOf
    }
}

/// Binding index `p` of `l`, the last of its index, contradicts `predicate`: `r` has a
/// binding of that index that differs, or has none while the sets should be equal or
/// `l` a subset.
pub open spec fn conflicts(l: Seq<LayoutBinding>, r: Seq<LayoutBinding>, predicate: SetEquality, p: int) -> bool {
    &&& 0 <= p < l.len()
    &&& is_last(l, p)
    &&& match last_with(r, l[p].binding) {
        Some(q) => binding_equality(l[p], r[q]) != BindingEquality::Equal,
        None => predicate == SetEquality::Equal || predicate == SetEquality::SubsetOf,
    }
}

/// Binding index `q` of `r`, the last of its index, has no binding of that index in `l`
/// while `l` should be a superset of `r`.
pub open spec fn missing(l: Seq<LayoutBinding>, r: Seq<LayoutBinding>, predicate: SetEquality, q: int) -> bool {
    &&& 0 <= q < r.len()
    &&& is_last(r, q)
    &&& predicate == SetEquality::SupersetOf
    &&& last_with(l, r[q].binding) is None
}

/// Result of comparing set layouts: not equal when some binding conflicts, or when `l`
/// is the larger set but lacks a binding of `r`; else the relation of their sizes.
pub open spec fn set_equality(l: Seq<LayoutBinding>, r: Seq<LayoutBinding>) -> SetEquality {
    if (exists|p: int| #[trigger] conflicts(l, r, size_relation(l, r), p)) || (exists|q: int|
        #[trigger] missing(l, r, size_relation(l, r), q)) {
        SetEquality::NotEqual
    } else {
        size_relation(l, r)
    }
}

/// Position of the last binding of index `key` in `s`.
fn find_last(s: &Vec<LayoutBinding>, key: u32) -> (r: Option<usize>)
    ensures
        match r {
            Some(q) => last_with(s@, key) == Some(q as int) && q < s.len(),
            None => last_with(s@, key) is None,
        },
{
    let mut i = s.len();
    proof {
        assert(s@.subrange(0, i as int) =~= s@);
    }
    while i > 0
        invariant
            i <= s.len(),
            last_with(s@, key) == last_with(s@.subrange(0, i as int), key),
        decreases i,
    {
        if s[i - 1].binding == key {
            proof {
                assert(s@.subrange(0, i as int).last() == s@[i - 1]);
            }
            return Some(i - 1);
        }
        proof {
            assert(s@.subrange(0, i as int).drop_last() =~= s@.subrange(0, i - 1));
        }
        i = i - 1;
    }
    proof {
        assert(s@.subrange(0, 0) =~= Seq::<LayoutBinding>::empty());
    }
    None
}

/// Whether the binding at `p` is the last of its index.
fn is_last_at(s: &Vec<LayoutBinding>, p: usize) -> (r: bool)
    requires
        p < s.len(),
    ensures
        r == is_last(s@, p as int),
{
    let mut q = p + 1;
    while q < s.len()
        invariant
            p < q <= s.len(),
            forall|k: int| p < k < q ==> s@[k].binding != s@[p as int].binding,
        decreases s.len() - q,
    {
        if s[q].binding == s[p].binding {
            return false;
        }
        q = q + 1;
    }
    true
}

/// Logically compares two descriptor set layouts. Bindings may not be in order; of
/// several bindings with one index, the last counts.
pub fn compare_set(lhv: &SetLayout, rhv: &SetLayout) -> (r: SetEquality)
    ensures
        r == set_equality(lhv.bindings@, rhv.bindings@),
{
    let l = &lhv.bindings;
    let rb = &rhv.bindings;
    let predicate = if l.len() == rb.len() {
        SetEquality::Equal
    } else if l.len() > rb.len() {
        SetEquality::SupersetOf
    } else {
        SetEquality::SubsetOf
    };
    let mut p: usize = 0;
    while p < l.len()
        invariant
            p <= l.len(),
            l@ == lhv.bindings@,
            rb@ == rhv.bindings@,
            predicate == size_relation(l@, rb@),
            forall|k: int| 0 <= k < p ==> !#[trigger] conflicts(l@, rb@, predicate, k),
        decreases l.len() - p,
    {
        if is_last_at(l, p) {
            match find_last(rb, l[p].binding) {
                Some(q) => {
                    match compare_bindings(&l[p], &rb[q]) {
                        BindingEquality::Equal => {},
                        _ => {
                            proof {
                                assert(conflicts(l@, rb@, size_relation(l@, rb@), p as int));
                            }
                            return SetEquality::NotEqual;
                        },
                    }
                },
                None => {
                    match predicate {
                        SetEquality::Equal | SetEquality::SubsetOf => {
                            proof {
                                assert(conflicts(l@, rb@, size_relation(l@, rb@), p as int));
                            }
                            return SetEquality::NotEqual;
                        },
                        _ => {},
                    }
                },
            }
        }
        p = p + 1;
    }
    if predicate == SetEquality::SupersetOf {
        let mut q: usize = 0;
        while q < rb.len()
            invariant
                q <= rb.len(),
                l@ == lhv.bindings@,
                rb@ == rhv.bindings@,
                predicate == size_relation(l@, rb@),
                predicate == SetEquality::SupersetOf,
                forall|k: int| 0 <= k < l@.len() ==> !#[trigger] conflicts(l@, rb@, predicate, k),
                forall|k: int| 0 <= k < q ==> !#[trigger] missing(l@, rb@, predicate, k),
            decreases rb.len() - q,
        {
            if is_last_at(rb, q) {
                if find_last(l, rb[q].binding).is_none() {
                    proof {
                        assert(missing(l@, rb@, size_relation(l@, rb@), q as int));
                    }
                    return SetEquality::NotEqual;
                }
            }
            q = q + 1;
        }
    }
    proof {
        assert forall|k: int| !#[trigger] missing(l@, rb@, predicate, k) by {}
    }
    predicate
}

/// A set layout compared with itself is equal to it.
pub proof fn lemma_set_equal_reflexive(s: Seq<LayoutBinding>)
    ensures
        set_equality(s, s) == SetEquality::Equal,
{
    assert forall|q: int| !#[trigger] missing(s, s, SetEquality::Equal, q) by {}
    assert forall|p: int| !#[trigger] conflicts(s, s, SetEquality::Equal, p) by {
        if 0 <= p < s.len() && is_last(s, p) {
            lemma_last_with_is_last(s, p);
        }
    }
}

/// The last binding of its index is what `last_with` finds for that index.
proof fn lemma_last_with_is_last(s: Seq<LayoutBinding>, p: int)
    requires
        0 <= p < s.len(),
        is_last(s, p),
    ensures
        last_with(s, s[p].binding) == Some(p),
    decreases s.len(),
{
    if p < s.len() - 1 {
        assert(s.last().binding != s[p].binding);
        assert(s.drop_last()[p] == s[p]);
        lemma_last_with_is_last(s.drop_last(), p);
    }
}

/// Bound of a range of indices.
#[derive(Clone, Copy, Debug, PartialEq, Eq, Structural)]
pub enum IndexBound {
    /// The bound is part of the range.
    Included(usize),
    /// The bound is just outside the range.
    Excluded(usize),
    /// No bound.
    Unbounded,
}

/// `item` lies within the bounds `start` and `end`.
pub open spec fn in_bounds(start: IndexBound, end: IndexBound, item: usize) -> bool {
    &&& match start {
        IndexBound::Included(s) => s <= item,
        IndexBound::Excluded(s) => s < item,
        IndexBound::Unbounded => true,
    }
    &&& match end {
        IndexBound::Included(e) => item <= e,
        IndexBound::Excluded(e) => item < e,
        IndexBound::Unbounded => true,
    }
}

/// Whether `item` lies within the range with bounds `start` and `end`.
pub fn range_contains(start: IndexBound, end: IndexBound, item: usize) -> (r: bool)
    ensures
        r == in_bounds(start, end, item),
{
    (match start {
        IndexBound::Included(s) => s <= item,
        IndexBound::Excluded(s) => s < item,
        IndexBound::Unbounded => true,
    }) && (match end {
        IndexBound::Included(e) => item <= e,
        IndexBound::Excluded(e) => item < e,
        IndexBound::Unbounded => true,
    })
}

} // verus!

verus! {

/// Push constant range reflected from a shader: the stages that use it and its bytes.
#[derive(Clone, Copy, Debug)]
pub struct PushConstant {
    /// Stages that use the range.
    pub stages: ShaderStageFlags,
    /// Offset of the first byte.
    pub start: u32,
    /// Offset past the last byte.
    pub end: u32,
}

/// Pipeline layout: descriptor set layouts and push constant ranges.
#[derive(Clone, Debug)]
pub struct Layout {
    /// Set layouts, by set index.
    pub sets: Vec<SetLayout>,
    /// Push constant ranges.
    pub push_constants: Vec<PushConstant>,
}

/// What reflection tells of one shader: its set layouts, its stage and its push constants.
#[derive(Clone, Debug)]
pub struct ShaderReflection {
    /// Set layouts, by set index.
    pub sets: Vec<SetLayout>,
    /// Stage of the shader.
    pub stage: ShaderStageFlags,
    /// Push constant ranges.
    pub push_constants: Vec<PushConstant>,
}

/// Failure to merge the layouts of several shaders.
#[derive(Clone, Copy, Debug, PartialEq, Eq, Structural)]
pub enum MergeError {
    /// Mismatching bindings between shaders for the set of this index.
    MismatchingBindings(usize),
}

/// Bindings of each set layout.
pub open spec fn sets_view(sets: Seq<SetLayout>) -> Seq<Seq<LayoutBinding>> {
    sets.map_values(|s: SetLayout| s.bindings@)
}

/// `b` used by `stage` too.
pub open spec fn with_stage(b: LayoutBinding, stage: ShaderStageFlags) -> LayoutBinding {
    LayoutBinding { stage_flags: b.stage_flags.spec_union(stage), ..b }
}

/// Merge set layout `set`, of index `n`, of a shader of stage `stage` into `sets`: a new
/// index is added; a larger set replaces the one there; an equal or smaller one adds the
/// stage to the bindings there; a conflicting one fails.
pub open spec fn merge_set(
    sets: Seq<Seq<LayoutBinding>>,
    n: int,
    set: Seq<LayoutBinding>,
    stage: ShaderStageFlags,
) -> Option<Seq<Seq<LayoutBinding>>> {
    if n < sets.len() {
        match set_equality(set, sets[n]) {
            SetEquality::NotEqual => None,
            SetEquality::SupersetOf => Some(sets.update(n, set)),
            _ => Some(sets.update(n, sets[n].map_values(|b: LayoutBinding| with_stage(b, stage)))),
        }
    } else {
        Some(sets.push(set))
    }
}

/// What a comparison of set layouts answers. Of several bindings of one index the last
/// counts. Equal sets have as many bindings and each binding of `l` has an equal one in
/// `r`; `l` is a subset when it has fewer bindings, each with an equal one in `r`; `l` is a
/// superset when it has more bindings, holds every index of `r`, and its bindings of
/// indices that `r` has are equal to those of `r`.
pub proof fn lemma_set_equality_meaning(l: Seq<LayoutBinding>, r: Seq<LayoutBinding>)
    ensures
        set_equality(l, r) == SetEquality::Equal ==> l.len() == r.len(),
        set_equality(l, r) == SetEquality::SubsetOf ==> l.len() < r.len(),
        set_equality(l, r) == SetEquality::SupersetOf ==> l.len() > r.len(),
        set_equality(l, r) == SetEquality::Equal || set_equality(l, r) == SetEquality::SubsetOf ==> forall|p: int|
            0 <= p < l.len() && is_last(l, p) ==> match last_with(r, #[trigger] l[p].binding) {
                Some(q) => binding_equality(l[p], r[q]) == BindingEquality::Equal,
                None => false,
            },
        set_equality(l, r) == SetEquality::SupersetOf ==> {
            &&& forall|p: int|
                0 <= p < l.len() && is_last(l, p) ==> match last_with(r, #[trigger] l[p].binding) {
                    Some(q) => binding_equality(l[p], r[q]) == BindingEquality::Equal,
                    None => true,
                }
            &&& forall|q: int| 0 <= q < r.len() && is_last(r, q) ==> last_with(l, #[trigger] r[q].binding) is Some
        },
{
    if set_equality(l, r) != SetEquality::NotEqual {
        assert forall|p: int| 0 <= p < l.len() && is_last(l, p) implies !conflicts(l, r, size_relation(l, r), p) by {}
        assert forall|q: int| 0 <= q < r.len() && is_last(r, q) implies !missing(l, r, size_relation(l, r), q) by {}
    }
}

/// Merging set layout `set` of a shader of stage `stage` at index `n`: it fails exactly
/// when the layouts conflict; other indices are untouched; a larger set replaces the one
/// there; otherwise the set there keeps its bindings, each with the same index, type,
/// count and samplers, still used by its stages and now by `stage` as well; a new index
/// takes the set as it is.
pub proof fn lemma_merge_set_stages(
    sets: Seq<Seq<LayoutBinding>>,
    n: int,
    set: Seq<LayoutBinding>,
    stage: ShaderStageFlags,
)
    requires
        0 <= n <= sets.len(),
    ensures
        merge_set(sets, n, set, stage) is None <==> (n < sets.len() && set_equality(set, sets[n])
            == SetEquality::NotEqual),
        merge_set(sets, n, set, stage) matches Some(r) ==> {
            &&& n < sets.len() ==> r.len() == sets.len()
            &&& forall|m: int| 0 <= m < sets.len() && m != n ==> #[trigger] r[m] == sets[m]
            &&& n == sets.len() ==> r.len() == sets.len() + 1 && r[n] == set
            &&& n < sets.len() && set_equality(set, sets[n]) == SetEquality::SupersetOf ==> r[n] == set
            &&& n < sets.len() && set_equality(set, sets[n]) != SetEquality::SupersetOf ==> {
                &&& r[n].len() == sets[n].len()
                &&& forall|k: int|
                    0 <= k < sets[n].len() ==> {
                        &&& (#[trigger] r[n][k]).stage_flags.bits_view() & stage.bits_view() == stage.bits_view()
                        &&& r[n][k].stage_flags.bits_view() & sets[n][k].stage_flags.bits_view()
                            == sets[n][k].stage_flags.bits_view()
                        &&& r[n][k].binding == sets[n][k].binding
                        &&& r[n][k].ty == sets[n][k].ty
                        &&& r[n][k].count == sets[n][k].count
                        &&& r[n][k].immutable_samplers == sets[n][k].immutable_samplers
                    }
            }
        },
{
    if n < sets.len() {
        assert forall|k: int| 0 <= k < sets[n].len() implies #[trigger] with_stage(sets[n][k], stage).stage_flags.bits_view()
            & stage.bits_view() == stage.bits_view() && with_stage(sets[n][k], stage).stage_flags.bits_view()
            & sets[n][k].stage_flags.bits_view() == sets[n][k].stage_flags.bits_view() by {
            lemma_union_bits(sets[n][k].stage_flags, stage);
        }
    }
}

/// Merge the first `k` set layouts of a shader into `sets`; the error is the index of the
/// first set that conflicts.
pub open spec fn merge_shader_sets(
    sets: Seq<Seq<LayoutBinding>>,
    shader: Seq<Seq<LayoutBinding>>,
    stage: ShaderStageFlags,
    k: nat,
) -> Result<Seq<Seq<LayoutBinding>>, int>
    decreases k,
{
    if k == 0 {
        Ok(sets)
    } else {
        match merge_shader_sets(sets, shader, stage, (k - 1) as nat) {
            Ok(s) => match merge_set(s, k - 1, shader[k - 1], stage) {
                Some(s2) => Ok(s2),
                None => Err(k - 1),
            },
            Err(e) => Err(e),
        }
    }
}

/// `after` holds the bindings of `before`, one for one, with the same index, type, count and
/// samplers, each still used by the stages that used it and now by `stage` as well.
pub open spec fn gains_stage(before: Seq<LayoutBinding>, after: Seq<LayoutBinding>, stage: ShaderStageFlags) -> bool {
    &&& after.len() == before.len()
    &&& forall|k: int|
        0 <= k < before.len() ==> {
            &&& (#[trigger] after[k]).stage_flags.bits_view() & stage.bits_view() == stage.bits_view()
            &&& after[k].stage_flags.bits_view() & before[k].stage_flags.bits_view()
                == before[k].stage_flags.bits_view()
            &&& after[k].binding == before[k].binding
            &&& after[k].ty == before[k].ty
            &&& after[k].count == before[k].count
            &&& after[k].immutable_samplers == before[k].immutable_samplers
        }
}

/// Merging the first `k` set layouts of a shader of stage `stage` into `sets`: it fails at
/// the first index whose layouts conflict. Otherwise set `m` of the result is, for `m` past
/// the shader's sets, the one of `sets`; for `m` past `sets`, the shader's; where the
/// shader's set is larger, the shader's; and else that of `sets`, its bindings now used by
/// `stage` too.
pub proof fn lemma_merge_shader_sets(
    sets: Seq<Seq<LayoutBinding>>,
    shader: Seq<Seq<LayoutBinding>>,
    stage: ShaderStageFlags,
    k: nat,
)
    requires
        k <= shader.len(),
    ensures
        match merge_shader_sets(sets, shader, stage, k) {
            Ok(r) => {
                &&& r.len() == if k > sets.len() { k as int } else { sets.len() as int }
                &&& forall|m: int| 0 <= m < k && m < sets.len() ==> set_equality(#[trigger] shader[m], sets[m])
                    != SetEquality::NotEqual
                &&& forall|m: int|
                    0 <= m < r.len() ==> {
                        &&& m >= k ==> #[trigger] r[m] == sets[m]
                        &&& m < k && m >= sets.len() ==> r[m] == shader[m]
                        &&& m < k && m < sets.len() && set_equality(shader[m], sets[m]) == SetEquality::SupersetOf
                            ==> r[m] == shader[m]
                        &&& m < k && m < sets.len() && set_equality(shader[m], sets[m]) != SetEquality::SupersetOf
                            ==> gains_stage(sets[m], r[m], stage)
                    }
            },
            Err(e) => {
                &&& 0 <= e < k && e < sets.len()
                &&& set_equality(shader[e], sets[e]) == SetEquality::NotEqual
                &&& forall|m: int| 0 <= m < e ==> set_equality(#[trigger] shader[m], sets[m]) != SetEquality::NotEqual
            },
        },
    decreases k,
{
    if k > 0 {
        let j = k - 1;
        lemma_merge_shader_sets(sets, shader, stage, j as nat);
        match merge_shader_sets(sets, shader, stage, j as nat) {
            Ok(prev) => {
                if j < sets.len() {
                    assert(prev[j as int] == sets[j as int]);
                }
                lemma_merge_set_stages(prev, j as int, shader[j as int], stage);
                match merge_set(prev, j as int, shader[j as int], stage) {
                    Some(r) => {
                        assert forall|m: int| 0 <= m < r.len() && m != j implies #[trigger] r[m] == prev[m] by {}
                    },
                    None => {},
                }
            },
            Err(e) => {},
        }
    }
}

/// Merge the layouts of the first `k` shaders: their set layouts in order, and all their
/// push constant ranges; the error is the index of the first set that conflicts.
pub open spec fn merge_spec(shaders: Seq<ShaderReflection>, k: nat) -> Result<
    (Seq<Seq<LayoutBinding>>, Seq<PushConstant>),
    int,
>
    decreases k,
{
    if k == 0 {
        Ok((Seq::empty(), Seq::empty()))
    } else {
        match merge_spec(shaders, (k - 1) as nat) {
            Ok((sets, pcs)) => {
                let s = shaders[k - 1];
                match merge_shader_sets(sets, sets_view(s.sets@), s.stage, s.sets@.len()) {
                    Ok(sets2) => Ok((sets2, pcs + s.push_constants@)),
                    Err(e) => Err(e),
                }
            },
            Err(e) => Err(e),
        }
    }
}

/// Merging the layouts of the first `k` shaders extends the merge of the first `k - 1`
/// with shader `k - 1`: its push constant ranges come after the earlier ones; a set index
/// that only it has takes its set; where its set is larger than the merged one it replaces
/// it; where its set is equal or smaller, every binding of the merged set stays and becomes
/// visible to its stage; where the two conflict, the merge fails with the first such index;
/// indices it has no set for are untouched.
pub proof fn lemma_merge_layouts_step(shaders: Seq<ShaderReflection>, k: nat)
    requires
        0 < k <= shaders.len(),
    ensures
        ({
            let s = shaders[k - 1];
            let own = sets_view(s.sets@);
            match merge_spec(shaders, (k - 1) as nat) {
                Ok((before, pcs)) => match merge_spec(shaders, k) {
                    Ok((after, pcs2)) => {
                        &&& pcs2 == pcs + s.push_constants@
                        &&& after.len() == if own.len() > before.len() { own.len() as int } else { before.len() as int }
                        &&& forall|n: int|
                            0 <= n < after.len() ==> {
                                &&& n >= own.len() ==> #[trigger] after[n] == before[n]
                                &&& n < own.len() && n >= before.len() ==> after[n] == own[n]
                                &&& n < own.len() && n < before.len() ==> set_equality(own[n], before[n])
                                    != SetEquality::NotEqual
                                &&& n < own.len() && n < before.len() && set_equality(own[n], before[n])
                                    == SetEquality::SupersetOf ==> after[n] == own[n]
                                &&& n < own.len() && n < before.len() && set_equality(own[n], before[n])
                                    != SetEquality::SupersetOf ==> gains_stage(before[n], after[n], s.stage)
                            }
                    },
                    Err(e) => {
                        &&& 0 <= e < own.len() && e < before.len()
                        &&& set_equality(own[e], before[e]) == SetEquality::NotEqual
                        &&& forall|m: int| 0 <= m < e ==> set_equality(#[trigger] own[m], before[m])
                            != SetEquality::NotEqual
                    },
                },
                Err(e) => merge_spec(shaders, k) == Err::<(Seq<Seq<LayoutBinding>>, Seq<PushConstant>), int>(e),
            }
        }),
{
    let s = shaders[k - 1];
    let own = sets_view(s.sets@);
    match merge_spec(shaders, (k - 1) as nat) {
        Ok((before, pcs)) => {
            lemma_merge_shader_sets(before, own, s.stage, own.len());
        },
        Err(e) => {},
    }
}

/// Copy of a set layout.
fn copy_set(set: &SetLayout) -> (r: SetLayout)
    ensures
        r.bindings@ == set.bindings@,
{
    let mut bindings: Vec<LayoutBinding> = Vec::new();
    let mut i: usize = 0;
    while i < set.bindings.len()
        invariant
            i <= set.bindings.len(),
            bindings@ == set.bindings@.subrange(0, i as int),
        decreases set.bindings.len() - i,
    {
        bindings.push(set.bindings[i]);
        i = i + 1;
        proof {
            assert(bindings@ =~= set.bindings@.subrange(0, i as int));
        }
    }
    proof {
        assert(bindings@ =~= set.bindings@);
    }
    SetLayout { bindings }
}

/// Copy of a set layout whose bindings are used by `stage` too.
fn add_stage(set: &SetLayout, stage: ShaderStageFlags) -> (r: SetLayout)
    ensures
        r.bindings@ == set.bindings@.map_values(|b: LayoutBinding| with_stage(b, stage)),
{
    let mut bindings: Vec<LayoutBinding> = Vec::new();
    let mut i: usize = 0;
    while i < set.bindings.len()
        invariant
            i <= set.bindings.len(),
            bindings@ == set.bindings@.subrange(0, i as int).map_values(|b: LayoutBinding| with_stage(b, stage)),
        decreases set.bindings.len() - i,
    {
        let b = set.bindings[i];
        let flags = b.stage_flags.union(stage);
        bindings.push(LayoutBinding { stage_flags: flags, ..b });
        i = i + 1;
        proof {
            assert(bindings@ =~= set.bindings@.subrange(0, i as int).map_values(
                |b: LayoutBinding| with_stage(b, stage),
            ));
        }
    }
    proof {
        assert(set.bindings@.subrange(0, i as int) =~= set.bindings@);
    }
    SetLayout { bindings }
}

/// Merge the reflected layouts of the shaders of one pipeline into a single layout.
pub fn merge_layouts(shaders: &Vec<ShaderReflection>) -> (r: Result<Layout, MergeError>)
    ensures
        match merge_spec(shaders@, shaders@.len()) {
            Ok((sets, pcs)) => r matches Ok(l) && sets_view(l.sets@) == sets && l.push_constants@ == pcs,
            Err(n) => r == Err::<Layout, MergeError>(MergeError::MismatchingBindings(n as usize)),
        },
{
    let mut sets: Vec<SetLayout> = Vec::new();
    let mut push_constants: Vec<PushConstant> = Vec::new();
    let mut k: usize = 0;
    proof {
        assert(sets_view(sets@) =~= Seq::<Seq<LayoutBinding>>::empty());
    }
    while k < shaders.len()
        invariant
            k <= shaders.len(),
            merge_spec(shaders@, k as nat) == Ok::<(Seq<Seq<LayoutBinding>>, Seq<PushConstant>), int>(
                (sets_view(sets@), push_constants@),
            ),
        decreases shaders.len() - k,
    {
        let shader = &shaders[k];
        let ghost start = sets_view(sets@);
        let mut n: usize = 0;
        while n < shader.sets.len()
            invariant
                n <= shader.sets.len(),
                k < shaders.len(),
                shader == &shaders@[k as int],
                merge_spec(shaders@, k as nat) == Ok::<(Seq<Seq<LayoutBinding>>, Seq<PushConstant>), int>(
                    (start, push_constants@),
                ),
                merge_shader_sets(start, sets_view(shader.sets@), shader.stage, n as nat) == Ok::<
                    Seq<Seq<LayoutBinding>>,
                    int,
                >(sets_view(sets@)),
            decreases shader.sets.len() - n,
        {
            let set = &shader.sets[n];
            let ghost before = sets_view(sets@);
            proof {
                assert(sets_view(shader.sets@)[n as int] == set.bindings@);
            }
            if n < sets.len() {
                proof {
                    assert(before[n as int] == sets@[n as int].bindings@);
                }
                match compare_set(set, &sets[n]) {
                    SetEquality::NotEqual => {
                        proof {
                            assert(merge_set(before, n as int, set.bindings@, shader.stage) is None);
                            assert(merge_shader_sets(start, sets_view(shader.sets@), shader.stage, (n + 1) as nat)
                                == Err::<Seq<Seq<LayoutBinding>>, int>(n as int));
                            lemma_merge_shader_sets_stops(start, sets_view(shader.sets@), shader.stage, (n + 1) as nat, shader.sets@.len());
                            assert(sets_view(shader.sets@).len() == shader.sets@.len());
                            assert(merge_spec(shaders@, (k + 1) as nat) == Err::<
                                (Seq<Seq<LayoutBinding>>, Seq<PushConstant>),
                                int,
                            >(n as int));
                            lemma_merge_spec_stops(shaders@, (k + 1) as nat, shaders@.len());
                        }
                        return Err(MergeError::MismatchingBindings(n));
                    },
                    SetEquality::SupersetOf => {
                        let copy = copy_set(set);
                        sets.set(n, copy);
                        proof {
                            assert(sets_view(sets@) =~= before.update(n as int, set.bindings@));
                        }
                    },
                    _ => {
                        let updated = add_stage(&sets[n], shader.stage);
                        sets.set(n, updated);
                        proof {
                            assert(sets_view(sets@) =~= before.update(
                                n as int,
                                before[n as int].map_values(|b: LayoutBinding| with_stage(b, shader.stage)),
                            ));
                        }
                    },
                }
            } else {
                let copy = copy_set(set);
                sets.push(copy);
                proof {
                    assert(sets_view(sets@) =~= before.push(set.bindings@));
                }
            }
            n = n + 1;
        }
        let mut p: usize = 0;
        let ghost pcs0 = push_constants@;
        while p < shader.push_constants.len()
            invariant
                p <= shader.push_constants.len(),
                push_constants@ == pcs0 + shader.push_constants@.subrange(0, p as int),
            decreases shader.push_constants.len() - p,
        {
            push_constants.push(shader.push_constants[p]);
            p = p + 1;
            proof {
                assert(push_constants@ =~= pcs0 + shader.push_constants@.subrange(0, p as int));
            }
        }
        proof {
            assert(shader.push_constants@.subrange(0, p as int) =~= shader.push_constants@);
        }
        k = k + 1;
    }
    Ok(Layout { sets, push_constants })
}

/// Once merging a shader's sets fails, merging more of them fails the same way.
proof fn lemma_merge_shader_sets_stops(
    sets: Seq<Seq<LayoutBinding>>,
    shader: Seq<Seq<LayoutBinding>>,
    stage: ShaderStageFlags,
    k: nat,
    m: nat,
)
    requires
        k <= m,
        merge_shader_sets(sets, shader, stage, k) is Err,
    ensures
        merge_shader_sets(sets, shader, stage, m) == merge_shader_sets(sets, shader, stage, k),
    decreases m - k,
{
    if k < m {
        lemma_merge_shader_sets_stops(sets, shader, stage, k, (m - 1) as nat);
    }
}

/// Once merging shaders fails, merging more of them fails the same way.
proof fn lemma_merge_spec_stops(shaders: Seq<ShaderReflection>, k: nat, m: nat)
    requires
        k <= m,
        merge_spec(shaders, k) is Err,
    ensures
        merge_spec(shaders, m) == merge_spec(shaders, k),
    decreases m - k,
{
    if k < m {
        lemma_merge_spec_stops(shaders, k, (m - 1) as nat);
    }
}

} // verus!
