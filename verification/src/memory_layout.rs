//! Struct layout analysis: field reordering by alignment and padding removal.
use vstd::prelude::*;
use crate::ast::StructField;
use crate::text::str_eq;

verus! {

/// Memory layout of a struct.
#[derive(Debug, Clone)]
pub struct StructLayout {
    pub size: usize,
    pub alignment: usize,
    pub field_offsets: Vec<usize>,
    pub original_order: Vec<String>,
    pub optimized_order: Vec<String>,
}

/// Mathematical content of a layout.
pub struct LayoutModel {
    pub size: int,
    pub alignment: int,
    pub field_offsets: Seq<int>,
    pub original_order: Seq<Seq<char>>,
    pub optimized_order: Seq<Seq<char>>,
}

impl View for StructLayout {
    type V = LayoutModel;

    open spec fn view(&self) -> LayoutModel {
        LayoutModel {
            size: self.size as int,
            alignment: self.alignment as int,
            field_offsets: self.field_offsets@.map_values(|o: usize| o as int),
            original_order: self.original_order@.map_values(|n: String| n@),
            optimized_order: self.optimized_order@.map_values(|n: String| n@),
        }
    }
}

/// Rounds `v` up to a multiple of `a`.
pub open spec fn align_up_spec(v: int, a: int) -> int {
    (v + a - 1) / a * a
}

/// A (size, alignment) pair describes how one field occupies memory.
pub open spec fn is_align(a: int) -> bool {
    a == 1 || a == 4 || a == 8
}

/// End offset after placing the fields one after another.
pub open spec fn fold_end(s: Seq<(int, int)>) -> int
    decreases s.len(),
{
    if s.len() == 0 {
        0
    } else {
        align_up_spec(fold_end(s.drop_last()), s.last().1) + s.last().0
    }
}

/// The largest alignment among the fields (at least 1).
pub open spec fn fold_max_align(s: Seq<(int, int)>) -> int
    decreases s.len(),
{
    if s.len() == 0 {
        1
    } else {
        let m = fold_max_align(s.drop_last());
        if m >= s.last().1 { m } else { s.last().1 }
    }
}

/// The offsets at which the fields are placed.
pub open spec fn fold_offsets(s: Seq<(int, int)>) -> Seq<int>
    decreases s.len(),
{
    if s.len() == 0 {
        Seq::empty()
    } else {
        fold_offsets(s.drop_last()).push(align_up_spec(fold_end(s.drop_last()), s.last().1))
    }
}

/// Total size of a struct whose fields are placed in the given order.
pub open spec fn layout_size(s: Seq<(int, int)>) -> int {
    align_up_spec(fold_end(s), fold_max_align(s))
}

/// Whether field `x` must come strictly before field `y` in the optimised order:
/// larger alignment first, then larger size.
pub open spec fn goes_before(x: (Seq<char>, int, int), y: (Seq<char>, int, int)) -> bool {
    x.2 > y.2 || (x.2 == y.2 && x.1 > y.1)
}

/// Inserts `x` into a sorted sequence after every element it does not go before.
pub open spec fn insert_sorted(s: Seq<(Seq<char>, int, int)>, x: (Seq<char>, int, int)) -> Seq<(Seq<char>, int, int)>
    decreases s.len(),
{
    if s.len() == 0 {
        seq![x]
    } else if goes_before(x, s[0]) {
        seq![x] + s
    } else {
        seq![s[0]] + insert_sorted(s.drop_first(), x)
    }
}

/// Stable sort of the fields by descending alignment, then descending size.
pub open spec fn sort_fields(s: Seq<(Seq<char>, int, int)>) -> Seq<(Seq<char>, int, int)>
    decreases s.len(),
{
    if s.len() == 0 {
        Seq::empty()
    } else {
        insert_sorted(sort_fields(s.drop_last()), s.last())
    }
}

/// The (size, alignment) pairs of a sequence of field descriptions.
pub open spec fn sizes_of(s: Seq<(Seq<char>, int, int)>) -> Seq<(int, int)> {
    s.map_values(|f: (Seq<char>, int, int)| (f.1, f.2))
}

/// The names of a sequence of field descriptions.
pub open spec fn names_of(s: Seq<(Seq<char>, int, int)>) -> Seq<Seq<char>> {
    s.map_values(|f: (Seq<char>, int, int)| f.0)
}

/// Layout stored most recently under a name, in an insertion log.
pub open spec fn find_layout(s: Seq<(Seq<char>, LayoutModel)>, name: Seq<char>) -> Option<LayoutModel>
    decreases s.len(),
{
    if s.len() == 0 {
        None
    } else if s.last().0 == name {
        Some(s.last().1)
    } else {
        find_layout(s.drop_last(), name)
    }
}

/// Size and alignment of a type, given the layouts known so far.
pub open spec fn type_info_spec(known: Seq<(Seq<char>, LayoutModel)>, ty: Seq<char>) -> (int, int) {
    if ty == "int"@ {
        (4, 4)
    } else if ty == "float"@ {
        (4, 4)
    } else if ty == "bool"@ {
        (1, 1)
    } else if ty == "string"@ {
        (16, 8)
    } else {
        match find_layout(known, ty) {
            Some(l) => (l.size, l.alignment),
            None => (8, 8),
        }
    }
}

/// Field descriptions (name, size, alignment) of a field list.
pub open spec fn describe(known: Seq<(Seq<char>, LayoutModel)>, fields: Seq<StructField>) -> Seq<(Seq<char>, int, int)> {
    fields.map_values(|f: StructField| (f.name@, type_info_spec(known, f.ty@).0, type_info_spec(known, f.ty@).1))
}

/// Room that a sequence of fields may take: each field's size plus the largest padding.
pub open spec fn budget(s: Seq<(int, int)>) -> int
    decreases s.len(),
{
    if s.len() == 0 {
        0
    } else {
        budget(s.drop_last()) + s.last().0 + 8
    }
}

/// Every pair has a non-negative size and a supported alignment.
pub open spec fn sizes_ok(s: Seq<(int, int)>) -> bool {
    forall|i: int| 0 <= i < s.len() ==> #[trigger] s[i].0 >= 0 && is_align(s[i].1)
}

proof fn lemma_align_up_bounds(v: int, a: int)
    requires
        v >= 0,
        is_align(a),
    ensures
        v <= align_up_spec(v, a) <= v + a - 1,
        align_up_spec(v, a) % a == 0,
{
    assert(v <= align_up_spec(v, a) <= v + a - 1 && align_up_spec(v, a) % a == 0) by (nonlinear_arith)
        requires
            v >= 0,
            a == 1 || a == 4 || a == 8,
    {
    }
}

proof fn lemma_fold_bounds(s: Seq<(int, int)>)
    requires
        sizes_ok(s),
    ensures
        0 <= fold_end(s) <= budget(s),
        is_align(fold_max_align(s)),
        budget(s) >= 0,
    decreases s.len(),
{
    if s.len() > 0 {
        let t = s.drop_last();
        assert forall|i: int| 0 <= i < t.len() implies #[trigger] t[i].0 >= 0 && is_align(t[i].1) by {
            assert(t[i] == s[i]);
        }
        lemma_fold_bounds(t);
        assert(s.last() == s[s.len() - 1]);
        assert(s[s.len() - 1].0 >= 0 && is_align(s[s.len() - 1].1));
        lemma_align_up_bounds(fold_end(t), s.last().1);
    }
}

proof fn lemma_budget_take(s: Seq<(int, int)>, i: int)
    requires
        sizes_ok(s),
        0 <= i <= s.len(),
    ensures
        budget(s.take(i)) <= budget(s),
    decreases s.len() - i,
{
    if i < s.len() {
        lemma_budget_take(s, i + 1);
        assert(s.take(i + 1).drop_last() =~= s.take(i));
        assert(s[i].0 >= 0);
    } else {
        assert(s.take(i) =~= s);
    }
}

proof fn lemma_insert_sorted_split(s: Seq<(Seq<char>, int, int)>, x: (Seq<char>, int, int), p: int)
    requires
        0 <= p <= s.len(),
        forall|j: int| 0 <= j < p ==> !goes_before(x, #[trigger] s[j]),
        p < s.len() ==> goes_before(x, s[p]),
    ensures
        insert_sorted(s, x) == s.take(p) + seq![x] + s.skip(p),
    decreases s.len(),
{
    if s.len() == 0 {
        assert(s.take(p) + seq![x] + s.skip(p) =~= seq![x]);
    } else if p == 0 {
        assert(s.take(p) + seq![x] + s.skip(p) =~= seq![x] + s);
    } else {
        let t = s.drop_first();
        assert forall|j: int| 0 <= j < p - 1 implies !goes_before(x, #[trigger] t[j]) by {
            assert(t[j] == s[j + 1]);
        }
        assert(!goes_before(x, s[0]));
        lemma_insert_sorted_split(t, x, p - 1);
        assert(seq![s[0]] + (t.take(p - 1) + seq![x] + t.skip(p - 1)) =~= s.take(p) + seq![x] + s.skip(p));
    }
}

proof fn lemma_insert_sorted_budget(s: Seq<(Seq<char>, int, int)>, x: (Seq<char>, int, int))
    ensures
        budget(sizes_of(insert_sorted(s, x))) == budget(sizes_of(s)) + x.1 + 8,
        insert_sorted(s, x).len() == s.len() + 1,
    decreases s.len(),
{
    if s.len() == 0 {
        assert(sizes_of(seq![x]).drop_last() =~= Seq::empty());
        assert(sizes_of(s) =~= Seq::empty());
    } else if goes_before(x, s[0]) {
        lemma_budget_prepend(sizes_of(s), (x.1, x.2));
        assert(sizes_of(seq![x] + s) =~= seq![(x.1, x.2)] + sizes_of(s));
    } else {
        let t = s.drop_first();
        lemma_insert_sorted_budget(t, x);
        lemma_budget_prepend(sizes_of(insert_sorted(t, x)), (s[0].1, s[0].2));
        lemma_budget_prepend(sizes_of(t), (s[0].1, s[0].2));
        assert(sizes_of(seq![s[0]] + insert_sorted(t, x)) =~= seq![(s[0].1, s[0].2)] + sizes_of(insert_sorted(t, x)));
        assert(sizes_of(s) =~= seq![(s[0].1, s[0].2)] + sizes_of(t));
    }
}

proof fn lemma_budget_prepend(s: Seq<(int, int)>, y: (int, int))
    ensures
        budget(seq![y] + s) == budget(s) + y.0 + 8,
    decreases s.len(),
{
    if s.len() == 0 {
        assert((seq![y] + s).drop_last() =~= Seq::empty());
        assert((seq![y] + s).last() == y);
        assert(budget(Seq::<(int, int)>::empty()) == 0);
        assert(budget(s) == 0);
    } else {
        lemma_budget_prepend(s.drop_last(), y);
        assert((seq![y] + s).drop_last() =~= seq![y] + s.drop_last());
        assert((seq![y] + s).last() == s.last());
    }
}

proof fn lemma_sort_budget(s: Seq<(Seq<char>, int, int)>)
    ensures
        budget(sizes_of(sort_fields(s))) == budget(sizes_of(s)),
        sort_fields(s).len() == s.len(),
    decreases s.len(),
{
    if s.len() > 0 {
        lemma_sort_budget(s.drop_last());
        lemma_insert_sorted_budget(sort_fields(s.drop_last()), s.last());
        assert(sizes_of(s).drop_last() =~= sizes_of(s.drop_last()));
    }
}

/// A field description with a non-negative size and a supported alignment.
pub open spec fn field_ok(f: (Seq<char>, int, int)) -> bool {
    f.1 >= 0 && is_align(f.2)
}

proof fn lemma_insert_sorted_elems(s: Seq<(Seq<char>, int, int)>, x: (Seq<char>, int, int))
    requires
        forall|j: int| 0 <= j < s.len() ==> field_ok(#[trigger] s[j]),
        field_ok(x),
    ensures
        forall|j: int| 0 <= j < insert_sorted(s, x).len() ==> field_ok(#[trigger] insert_sorted(s, x)[j]),
    decreases s.len(),
{
    lemma_insert_sorted_budget(s, x);
    if s.len() > 0 && !goes_before(x, s[0]) {
        let t = s.drop_first();
        assert forall|j: int| 0 <= j < t.len() implies field_ok(#[trigger] t[j]) by {
            assert(t[j] == s[j + 1]);
        }
        lemma_insert_sorted_elems(t, x);
        let r = insert_sorted(s, x);
        assert forall|j: int| 0 <= j < r.len() implies field_ok(#[trigger] r[j]) by {
            if j > 0 {
                assert(r[j] == insert_sorted(t, x)[j - 1]);
            }
        }
    }
}

proof fn lemma_sort_elems(s: Seq<(Seq<char>, int, int)>)
    requires
        forall|j: int| 0 <= j < s.len() ==> field_ok(#[trigger] s[j]),
    ensures
        forall|j: int| 0 <= j < sort_fields(s).len() ==> field_ok(#[trigger] sort_fields(s)[j]),
    decreases s.len(),
{
    if s.len() > 0 {
        let t = s.drop_last();
        assert forall|j: int| 0 <= j < t.len() implies field_ok(#[trigger] t[j]) by {
            assert(t[j] == s[j]);
        }
        lemma_sort_elems(t);
        assert(field_ok(s[s.len() - 1]));
        lemma_insert_sorted_elems(sort_fields(t), s.last());
    }
}

/// Whether a sequence of field descriptions is in the optimised order: no
/// field goes before one placed earlier.
pub open spec fn in_layout_order(s: Seq<(Seq<char>, int, int)>) -> bool {
    forall|i: int, j: int| 0 <= i < j < s.len() ==> !goes_before(#[trigger] s[j], #[trigger] s[i])
}

/// Inserting into a sorted sequence gives the sequence with one more
/// element.
proof fn lemma_insert_sorted_multiset(s: Seq<(Seq<char>, int, int)>, x: (Seq<char>, int, int))
    ensures
        insert_sorted(s, x).to_multiset() == s.to_multiset().insert(x),
    decreases s.len(),
{
    broadcast use vstd::seq_lib::lemma_multiset_commutative, vstd::seq_lib::to_multiset_build,
        vstd::multiset::group_multiset_axioms;
    vstd::seq_lib::to_multiset_len(Seq::<(Seq<char>, int, int)>::empty());
    vstd::multiset::lemma_multiset_empty_len(Seq::<(Seq<char>, int, int)>::empty().to_multiset());
    if s.len() == 0 {
        assert(seq![x] =~= Seq::<(Seq<char>, int, int)>::empty().push(x));
        assert(s =~= Seq::<(Seq<char>, int, int)>::empty());
    } else {
        let t = s.drop_first();
        assert(s =~= seq![s[0]] + t);
        assert(seq![s[0]] =~= Seq::<(Seq<char>, int, int)>::empty().push(s[0]));
        assert(seq![x] =~= Seq::<(Seq<char>, int, int)>::empty().push(x));
        assert(Seq::<(Seq<char>, int, int)>::empty().to_multiset() =~= vstd::multiset::Multiset::empty());
        if !goes_before(x, s[0]) {
            lemma_insert_sorted_multiset(t, x);
        }
        assert(insert_sorted(s, x).to_multiset() =~= s.to_multiset().insert(x));
    }
}

/// Every element of an insertion is bounded by `y` when `x` and every
/// element of `s` are.
proof fn lemma_insert_sorted_bound(s: Seq<(Seq<char>, int, int)>, x: (Seq<char>, int, int), y: (Seq<char>, int, int))
    requires
        forall|k: int| 0 <= k < s.len() ==> !goes_before(#[trigger] s[k], y),
        !goes_before(x, y),
    ensures
        forall|k: int| 0 <= k < insert_sorted(s, x).len() ==> !goes_before(#[trigger] insert_sorted(s, x)[k], y),
    decreases s.len(),
{
    lemma_insert_sorted_budget(s, x);
    if s.len() > 0 && !goes_before(x, s[0]) {
        let t = s.drop_first();
        assert forall|k: int| 0 <= k < t.len() implies !goes_before(#[trigger] t[k], y) by {
            assert(t[k] == s[k + 1]);
        }
        lemma_insert_sorted_bound(t, x, y);
        let r = insert_sorted(s, x);
        assert forall|k: int| 0 <= k < r.len() implies !goes_before(#[trigger] r[k], y) by {
            if k > 0 {
                assert(r[k] == insert_sorted(t, x)[k - 1]);
            }
        }
    } else if s.len() > 0 {
        let r = insert_sorted(s, x);
        assert forall|k: int| 0 <= k < r.len() implies !goes_before(#[trigger] r[k], y) by {
            if k > 0 {
                assert(r[k] == s[k - 1]);
            }
        }
    }
}

/// Inserting into a sequence in the optimised order keeps it so.
proof fn lemma_insert_sorted_order(s: Seq<(Seq<char>, int, int)>, x: (Seq<char>, int, int))
    requires
        in_layout_order(s),
    ensures
        in_layout_order(insert_sorted(s, x)),
    decreases s.len(),
{
    lemma_insert_sorted_budget(s, x);
    if s.len() > 0 {
        let r = insert_sorted(s, x);
        if goes_before(x, s[0]) {
            assert forall|i: int, j: int| 0 <= i < j < r.len() implies !goes_before(#[trigger] r[j], #[trigger] r[i]) by {
                assert(r[j] == s[j - 1]);
                if i > 0 {
                    assert(r[i] == s[i - 1]);
                } else if j - 1 > 0 {
                    assert(!goes_before(s[j - 1], s[0]));
                }
            }
        } else {
            let t = s.drop_first();
            assert forall|i: int, j: int| 0 <= i < j < t.len() implies !goes_before(#[trigger] t[j], #[trigger] t[i]) by {
                assert(t[i] == s[i + 1] && t[j] == s[j + 1]);
            }
            lemma_insert_sorted_order(t, x);
            assert forall|k: int| 0 <= k < t.len() implies !goes_before(#[trigger] t[k], s[0]) by {
                assert(t[k] == s[k + 1]);
            }
            lemma_insert_sorted_bound(t, x, s[0]);
            let u = insert_sorted(t, x);
            assert forall|i: int, j: int| 0 <= i < j < r.len() implies !goes_before(#[trigger] r[j], #[trigger] r[i]) by {
                assert(r[j] == u[j - 1]);
                if i > 0 {
                    assert(r[i] == u[i - 1]);
                }
            }
        }
    }
}

/// The optimised order keeps every field once and puts them in order:
/// alignment never increases along it, nor size among equal alignments.
pub proof fn lemma_sort_fields_laws(s: Seq<(Seq<char>, int, int)>)
    ensures
        sort_fields(s).to_multiset() == s.to_multiset(),
        sort_fields(s).len() == s.len(),
        in_layout_order(sort_fields(s)),
        forall|i: int, j: int| 0 <= i < j < sort_fields(s).len() ==> #[trigger] sort_fields(s)[i].2 >= #[trigger] sort_fields(s)[j].2,
    decreases s.len(),
{
    broadcast use vstd::seq_lib::to_multiset_build, vstd::seq_lib::to_multiset_len;
    if s.len() > 0 {
        let t = s.drop_last();
        lemma_sort_fields_laws(t);
        lemma_insert_sorted_multiset(sort_fields(t), s.last());
        lemma_insert_sorted_order(sort_fields(t), s.last());
        assert(sort_fields(s) == insert_sorted(sort_fields(t), s.last()));
        assert(s =~= t.push(s.last()));
        assert(sort_fields(s).to_multiset() == s.to_multiset());
    } else {
        assert(sort_fields(s) =~= Seq::<(Seq<char>, int, int)>::empty());
        assert(in_layout_order(sort_fields(s)));
    }
    vstd::seq_lib::to_multiset_len(s);
    vstd::seq_lib::to_multiset_len(sort_fields(s));
    let r = sort_fields(s);
    assert forall|i: int, j: int| 0 <= i < j < r.len() implies #[trigger] r[i].2 >= #[trigger] r[j].2 by {
        assert(!goes_before(r[j], r[i]));
    }
}

/// Placing fields one after another: every offset is a multiple of its
/// field's alignment, each field ends before the next one starts, the last
/// ends where the fields end, and the total size covers them all and is a
/// multiple of the largest alignment.
pub proof fn lemma_offsets_laws(s: Seq<(int, int)>)
    requires
        sizes_ok(s),
    ensures
        fold_offsets(s).len() == s.len(),
        forall|i: int| 0 <= i < s.len() ==> #[trigger] fold_offsets(s)[i] >= 0 && fold_offsets(s)[i] % s[i].1 == 0,
        forall|i: int| 0 <= i < s.len() - 1 ==> #[trigger] fold_offsets(s)[i] + s[i].0 <= fold_offsets(s)[i + 1],
        s.len() > 0 ==> fold_offsets(s)[s.len() - 1] + s[s.len() - 1].0 == fold_end(s),
        0 <= fold_end(s) <= layout_size(s),
        layout_size(s) % fold_max_align(s) == 0,
    decreases s.len(),
{
    lemma_fold_bounds(s);
    lemma_align_up_bounds(fold_end(s), fold_max_align(s));
    if s.len() > 0 {
        let t = s.drop_last();
        assert forall|i: int| 0 <= i < t.len() implies #[trigger] t[i].0 >= 0 && is_align(t[i].1) by {
            assert(t[i] == s[i]);
        }
        lemma_offsets_laws(t);
        assert(s.last() == s[s.len() - 1]);
        lemma_align_up_bounds(fold_end(t), s.last().1);
        let o = fold_offsets(s);
        assert(o == fold_offsets(t).push(align_up_spec(fold_end(t), s.last().1)));
        assert forall|i: int| 0 <= i < s.len() implies #[trigger] fold_offsets(s)[i] >= 0 && fold_offsets(s)[i] % s[i].1 == 0 by {
            if i < t.len() {
                assert(o[i] == fold_offsets(t)[i]);
                assert(s[i] == t[i]);
            }
        }
        assert forall|i: int| 0 <= i < s.len() - 1 implies #[trigger] fold_offsets(s)[i] + s[i].0 <= fold_offsets(s)[i + 1] by {
            assert(o[i] == fold_offsets(t)[i]);
            assert(s[i] == t[i]);
            if i + 1 < t.len() {
                assert(o[i + 1] == fold_offsets(t)[i + 1]);
            }
        }
    }
}

/// Rounds `value` up to a multiple of `align`.
pub fn align_up(value: usize, align: usize) -> (r: usize)
    requires
        align > 0,
        value + align - 1 <= usize::MAX,
    ensures
        r == align_up_spec(value as int, align as int),
{
    let t = value + (align - 1);
    let q = t / align;
    assert(q * align <= t) by (nonlinear_arith)
        requires
            align > 0,
            q == t / align,
    {
    }
    q * align
}

/// Integer view of (size, alignment) pairs.
pub open spec fn pair_view(v: Seq<(usize, usize)>) -> Seq<(int, int)> {
    v.map_values(|p: (usize, usize)| (p.0 as int, p.1 as int))
}

/// Character view of a list of strings.
pub open spec fn strings_view(v: Seq<String>) -> Seq<Seq<char>> {
    v.map_values(|n: String| n@)
}

/// Names of a list of fields.
pub open spec fn field_names(v: Seq<StructField>) -> Seq<Seq<char>> {
    v.map_values(|f: StructField| f.name@)
}

/// Integer view of a list of offsets.
pub open spec fn usizes_view(v: Seq<usize>) -> Seq<int> {
    v.map_values(|o: usize| o as int)
}

/// The spec view of a list of field descriptions held in exec form.
pub open spec fn info_view(v: Seq<(String, usize, usize)>) -> Seq<(Seq<char>, int, int)> {
    v.map_values(|f: (String, usize, usize)| (f.0@, f.1 as int, f.2 as int))
}

/// Places fields in order; returns (end offset, max alignment, offsets).
fn place_fields(sizes: &Vec<(usize, usize)>) -> (r: (usize, usize, Vec<usize>))
    requires
        sizes_ok(pair_view(sizes@)),
        budget(pair_view(sizes@)) + 8 <= usize::MAX,
    ensures
        ({
            let s = pair_view(sizes@);
            &&& r.0 as int == fold_end(s)
            &&& r.1 as int == fold_max_align(s)
            &&& usizes_view(r.2@) == fold_offsets(s)
        }),
{
    let ghost s = pair_view(sizes@);
    let mut offset: usize = 0;
    let mut max_align: usize = 1;
    let mut offsets: Vec<usize> = Vec::new();
    let mut i: usize = 0;
    proof {
        lemma_fold_bounds(s);
        assert(s.take(0) =~= Seq::<(int, int)>::empty());
    }
    while i < sizes.len()
        invariant
            s == pair_view(sizes@),
            sizes_ok(s),
            budget(s) + 8 <= usize::MAX,
            i <= sizes.len(),
            offset as int == fold_end(s.take(i as int)),
            max_align as int == fold_max_align(s.take(i as int)),
            usizes_view(offsets@) == fold_offsets(s.take(i as int)),
        decreases sizes.len() - i,
    {
        let (size, align) = sizes[i];
        let ghost t = s.take(i as int);
        let ghost t1 = s.take(i + 1);
        proof {
            assert(t1.drop_last() =~= t);
            assert(t1.last() == s[i as int]);
            assert(s[i as int] == (size as int, align as int));
            assert(sizes_ok(t)) by {
                assert forall|j: int| 0 <= j < t.len() implies #[trigger] t[j].0 >= 0 && is_align(t[j].1) by {
                    assert(t[j] == s[j]);
                }
            }
            assert(sizes_ok(t1)) by {
                assert forall|j: int| 0 <= j < t1.len() implies #[trigger] t1[j].0 >= 0 && is_align(t1[j].1) by {
                    assert(t1[j] == s[j]);
                }
            }
            lemma_fold_bounds(t);
            lemma_fold_bounds(t1);
            lemma_budget_take(s, i + 1);
            lemma_align_up_bounds(offset as int, align as int);
        }
        let aligned = align_up(offset, align);
        offsets.push(aligned);
        offset = aligned + size;
        if align > max_align {
            max_align = align;
        }
        i = i + 1;
        assert(usizes_view(offsets@) =~= fold_offsets(t1));
    }
    assert(s.take(sizes.len() as int) =~= s);
    (offset, max_align, offsets)
}

/// Analyzes struct layouts and remembers them by name.
pub struct MemoryLayoutAnalyzer {
    layouts: Vec<(String, StructLayout)>,
}

impl MemoryLayoutAnalyzer {
    /// Log of analysed layouts, in insertion order.
    pub closed spec fn log(&self) -> Seq<(Seq<char>, LayoutModel)> {
        self.layouts@.map_values(|e: (String, StructLayout)| (e.0@, e.1@))
    }

    /// The layout known under a name.
    pub open spec fn layout_of(&self, name: Seq<char>) -> Option<LayoutModel> {
        find_layout(self.log(), name)
    }

    /// Every stored layout has a small alignment and a bounded size.
    pub open spec fn wf(&self) -> bool {
        forall|i: int| 0 <= i < self.log().len() ==> is_align(#[trigger] self.log()[i].1.alignment)
    }

    pub fn new() -> (r: Self)
        ensures
            r.log().len() == 0,
            r.wf(),
    {
        let r = Self { layouts: Vec::new() };
        assert(r.log() =~= Seq::empty());
        r
    }

    fn lookup(&self, name: &str) -> (r: Option<&StructLayout>)
        ensures
            match r {
                Some(l) => self.layout_of(name@) == Some(l@),
                None => self.layout_of(name@) is None,
            },
            self.wf() && r is Some ==> is_align(r->0.alignment as int),
    {
        let mut i = self.layouts.len();
        assert(self.log().take(i as int) =~= self.log());
        while i > 0
            invariant
                i <= self.layouts.len(),
                self.log().len() == self.layouts.len(),
                find_layout(self.log(), name@) == find_layout(self.log().take(i as int), name@),
            decreases i,
        {
            let ghost t = self.log().take(i as int);
            assert(t.drop_last() =~= self.log().take(i - 1));
            if str_eq(self.layouts[i - 1].0.as_str(), name) {
                proof {
                    if self.wf() {
                        assert(is_align(self.log()[i - 1].1.alignment));
                    }
                }
                return Some(&self.layouts[i - 1].1);
            }
            i = i - 1;
        }
        assert(self.log().take(0) =~= Seq::<(Seq<char>, LayoutModel)>::empty());
        None
    }

    /// Size and alignment of a type.
    pub fn get_type_info(&self, ty: &str) -> (r: (usize, usize))
        ensures
            (r.0 as int, r.1 as int) == type_info_spec(self.log(), ty@),
            self.wf() ==> is_align(r.1 as int),
    {
        if str_eq(ty, "int") {
            (4, 4)
        } else if str_eq(ty, "float") {
            (4, 4)
        } else if str_eq(ty, "bool") {
            (1, 1)
        } else if str_eq(ty, "string") {
            (16, 8)
        } else {
            match self.lookup(ty) {
                Some(l) => (l.size, l.alignment),
                None => (8, 8),
            }
        }
    }

    /// Analyzes a struct, reorders its fields by descending alignment (then size),
    /// computes offsets and total size, and remembers the layout under `name`.
    pub fn analyze_struct(&mut self, name: &str, fields: &[StructField]) -> (r: StructLayout)
        requires
            old(self).wf(),
            budget(sizes_of(describe(old(self).log(), fields@))) + 8 <= usize::MAX,
        ensures
            ({
                let sorted = sort_fields(describe(old(self).log(), fields@));
                let sz = sizes_of(sorted);
                &&& r.size as int == layout_size(sz)
                &&& r.alignment as int == fold_max_align(sz)
                &&& usizes_view(r.field_offsets@) == fold_offsets(sz)
                &&& strings_view(r.original_order@) == field_names(fields@)
                &&& strings_view(r.optimized_order@) == names_of(sorted)
            }),
            final(self).log() == old(self).log().push((name@, r@)),
            final(self).wf(),
    {
        let ghost known = self.log();
        let ghost d = describe(known, fields@);
        // 1. size and alignment of every field
        let mut info: Vec<(String, usize, usize)> = Vec::new();
        let mut i: usize = 0;
        while i < fields.len()
            invariant
                self.wf(),
                known == self.log(),
                d == describe(known, fields@),
                i <= fields.len(),
                info_view(info@) == d.take(i as int),
                info@.len() == i,
                forall|j: int| 0 <= j < info@.len() ==> field_ok(#[trigger] info_view(info@)[j]),
            decreases fields.len() - i,
        {
            let (size, align) = self.get_type_info(fields[i].ty.as_str());
            let ghost old_info = info@;
            let nm = fields[i].name.clone();
            info.push((nm, size, align));
            i = i + 1;
            assert(info_view(info@).len() == i);
            assert(d[i - 1] == (fields@[i - 1].name@, type_info_spec(known, fields@[i - 1].ty@).0, type_info_spec(known, fields@[i - 1].ty@).1));
            assert(info_view(info@)[i - 1] == d[i - 1]);
            assert(forall|q: int| 0 <= q < i - 1 ==> info_view(info@)[q] == info_view(old_info)[q]);
            assert(info_view(info@) =~= d.take(i as int));
        }
        assert(d.take(fields.len() as int) =~= d);
        // 2. stable sort: larger alignment first, then larger size
        let mut sorted: Vec<(String, usize, usize)> = Vec::new();
        let mut k: usize = 0;
        assert(info_view(info@).take(0) =~= Seq::<(Seq<char>, int, int)>::empty());
        while k < info.len()
            invariant
                k <= info.len(),
                info_view(sorted@) == sort_fields(info_view(info@).take(k as int)),
            decreases info.len() - k,
        {
            let x = (info[k].0.clone(), info[k].1, info[k].2);
            let ghost xv = (x.0@, x.1 as int, x.2 as int);
            let mut p: usize = 0;
            while p < sorted.len() && !(x.2 > sorted[p].2 || (x.2 == sorted[p].2 && x.1 > sorted[p].1))
                invariant
                    p <= sorted.len(),
                    xv == (x.0@, x.1 as int, x.2 as int),
                    forall|j: int| 0 <= j < p ==> !goes_before(xv, #[trigger] info_view(sorted@)[j]),
                decreases sorted.len() - p,
            {
                p = p + 1;
            }
            proof {
                lemma_insert_sorted_split(info_view(sorted@), xv, p as int);
            }
            let ghost old_sorted = sorted@;
            sorted.insert(p, x);
            let ghost tk1 = info_view(info@).take(k + 1);
            assert(tk1.drop_last() =~= info_view(info@).take(k as int));
            assert(tk1.last() == xv);
            assert(info_view(sorted@) =~= info_view(old_sorted).take(p as int) + seq![xv] + info_view(old_sorted).skip(p as int));
            k = k + 1;
        }
        assert(info_view(info@).take(info.len() as int) =~= info_view(info@));
        let ghost sv = sort_fields(d);
        proof {
            lemma_sort_budget(d);
            lemma_sort_elems(d);
        }
        // 3. offsets
        let mut sizes: Vec<(usize, usize)> = Vec::new();
        let mut j: usize = 0;
        while j < sorted.len()
            invariant
                j <= sorted.len(),
                info_view(sorted@) == sv,
                pair_view(sizes@) == sizes_of(sv).take(j as int),
                sizes@.len() == j,
            decreases sorted.len() - j,
        {
            sizes.push((sorted[j].1, sorted[j].2));
            j = j + 1;
            assert(pair_view(sizes@) =~= sizes_of(sv).take(j as int));
        }
        let ghost sz = sizes_of(sv);
        assert(sz.take(sorted.len() as int) =~= sz);
        assert(sizes_ok(sz)) by {
            assert forall|q: int| 0 <= q < sz.len() implies #[trigger] sz[q].0 >= 0 && is_align(sz[q].1) by {
                assert(field_ok(sv[q]));
            }
        }
        proof {
            lemma_fold_bounds(sz);
        }
        let (end, max_align, offsets) = place_fields(&sizes);
        proof {
            lemma_align_up_bounds(end as int, max_align as int);
        }
        let total_size = align_up(end, max_align);
        // 4. record the orders
        let mut original_order: Vec<String> = Vec::new();
        let mut a: usize = 0;
        while a < fields.len()
            invariant
                a <= fields.len(),
                strings_view(original_order@) == field_names(fields@).take(a as int),
                original_order@.len() == a,
            decreases fields.len() - a,
        {
            original_order.push(fields[a].name.clone());
            a = a + 1;
            assert(strings_view(original_order@) =~= field_names(fields@).take(a as int));
        }
        assert(field_names(fields@).take(fields.len() as int) =~= field_names(fields@));
        let mut optimized_order: Vec<String> = Vec::new();
        let mut b: usize = 0;
        while b < sorted.len()
            invariant
                b <= sorted.len(),
                info_view(sorted@) == sv,
                strings_view(optimized_order@) == names_of(sv).take(b as int),
                optimized_order@.len() == b,
            decreases sorted.len() - b,
        {
            optimized_order.push(sorted[b].0.clone());
            b = b + 1;
            assert(strings_view(optimized_order@) =~= names_of(sv).take(b as int));
        }
        assert(names_of(sv).take(sorted.len() as int) =~= names_of(sv));
        let layout = StructLayout {
            size: total_size,
            alignment: max_align,
            field_offsets: offsets,
            original_order,
            optimized_order,
        };
        let stored = layout.duplicate();
        self.layouts.push((crate::text::owned(name), stored));
        assert(self.log() =~= known.push((name@, layout@)));
        assert forall|q: int| 0 <= q < self.log().len() implies is_align(#[trigger] self.log()[q].1.alignment) by {
            if q < known.len() {
                assert(self.log()[q] == known[q]);
            }
        }
        layout
    }

    /// Bytes saved by the optimised layout of `name` compared with the declared order.
    pub fn calculate_savings(&self, name: &str, original_fields: &[StructField]) -> (r: usize)
        requires
            self.wf(),
            self.layout_of(name@) is Some,
            budget(sizes_of(describe(self.log(), original_fields@))) + 8 <= usize::MAX,
        ensures
            ({
                let naive = layout_size(sizes_of(describe(self.log(), original_fields@)));
                let opt = self.layout_of(name@)->0.size;
                r as int == if naive > opt { naive - opt } else { 0 }
            }),
    {
        let ghost d = describe(self.log(), original_fields@);
        let mut sizes: Vec<(usize, usize)> = Vec::new();
        let mut i: usize = 0;
        while i < original_fields.len()
            invariant
                self.wf(),
                d == describe(self.log(), original_fields@),
                i <= original_fields.len(),
                pair_view(sizes@) == sizes_of(d).take(i as int),
                sizes@.len() == i,
                sizes_ok(pair_view(sizes@)),
            decreases original_fields.len() - i,
        {
            let (size, align) = self.get_type_info(original_fields[i].ty.as_str());
            sizes.push((size, align));
            i = i + 1;
            assert(pair_view(sizes@) =~= sizes_of(d).take(i as int));
            let ghost sv = pair_view(sizes@);
            assert forall|q: int| 0 <= q < sv.len() implies #[trigger] sv[q].0 >= 0 && is_align(sv[q].1) by {
                if q < sv.len() - 1 {
                    assert(sv[q] == sv.drop_last()[q]);
                }
            }
        }
        let ghost sz = sizes_of(d);
        assert(sz.take(original_fields.len() as int) =~= sz);
        proof {
            lemma_fold_bounds(sz);
        }
        let (end, max_align, _offsets) = place_fields(&sizes);
        proof {
            lemma_align_up_bounds(end as int, max_align as int);
        }
        let naive_size = align_up(end, max_align);
        let optimized = self.lookup(name);
        match optimized {
            Some(l) => naive_size.saturating_sub(l.size),
            None => 0,
        }
    }

    /// The layout analysed under `name`, if any.
    pub fn get_layout(&self, name: &str) -> (r: Option<&StructLayout>)
        ensures
            match r {
                Some(l) => self.layout_of(name@) == Some(l@),
                None => self.layout_of(name@) is None,
            },
    {
        self.lookup(name)
    }
}

impl StructLayout {
    /// A field-by-field copy.
    pub fn duplicate(&self) -> (r: Self)
        ensures
            r@ == self@,
    {
        let field_offsets = self.field_offsets.clone();
        assert(field_offsets@ =~= self.field_offsets@);
        let original_order = self.original_order.clone();
        assert(original_order@ =~= self.original_order@);
        let optimized_order = self.optimized_order.clone();
        assert(optimized_order@ =~= self.optimized_order@);
        StructLayout { size: self.size, alignment: self.alignment, field_offsets, original_order, optimized_order }
    }
}

impl Default for MemoryLayoutAnalyzer {
    fn default() -> (r: Self)
        ensures
            r.log().len() == 0,
    {
        Self::new()
    }
}


/// A layout found in a log is one of the log's layouts.
proof fn lemma_find_layout_member(s: Seq<(Seq<char>, LayoutModel)>, name: Seq<char>)
    ensures
        find_layout(s, name) matches Some(l) ==> exists|i: int| 0 <= i < s.len() && s[i].1 == l,
    decreases s.len(),
{
    if s.len() > 0 && s.last().0 != name {
        lemma_find_layout_member(s.drop_last(), name);
        if let Some(l) = find_layout(s.drop_last(), name) {
            let i = choose|i: int| 0 <= i < s.drop_last().len() && s.drop_last()[i].1 == l;
            assert(s[i] == s.drop_last()[i]);
        }
    } else if s.len() > 0 {
        assert(s[s.len() - 1] == s.last());
    }
}

impl MemoryLayoutAnalyzer {
    /// Every field type of a well-formed analyser has a non-negative size and
    /// a supported alignment.
    proof fn lemma_type_info_ok(&self, ty: Seq<char>)
        requires
            self.wf(),
        ensures
            type_info_spec(self.log(), ty).0 >= 0,
            is_align(type_info_spec(self.log(), ty).1),
    {
        lemma_find_layout_member(self.log(), ty);
        if let Some(l) = find_layout(self.log(), ty) {
            let i = choose|i: int| 0 <= i < self.log().len() && self.log()[i].1 == l;
            assert(self.log()[i] == (self.layouts@[i].0@, self.layouts@[i].1@));
        }
    }

    /// The laws of the layout `analyze_struct` computes for `fields` (see
    /// its contract): the optimised order is a permutation of the fields,
    /// alignment never increases along it, every offset is a multiple of its
    /// field's alignment, each field ends before the next starts, and the
    /// size covers the last field and is a multiple of the alignment.
    pub proof fn lemma_struct_layout_laws(&self, fields: Seq<StructField>)
        requires
            self.wf(),
        ensures
            ({
                let d = describe(self.log(), fields);
                let sorted = sort_fields(d);
                let sz = sizes_of(sorted);
                let off = fold_offsets(sz);
                &&& names_of(d) == field_names(fields)
                &&& sorted.to_multiset() == d.to_multiset()
                &&& sorted.len() == fields.len()
                &&& forall|i: int, j: int| 0 <= i < j < sz.len() ==> #[trigger] sz[i].1 >= #[trigger] sz[j].1
                &&& off.len() == sz.len()
                &&& forall|i: int| 0 <= i < sz.len() ==> #[trigger] off[i] >= 0 && off[i] % sz[i].1 == 0
                &&& forall|i: int| 0 <= i < sz.len() - 1 ==> #[trigger] off[i] + sz[i].0 <= off[i + 1]
                &&& sz.len() > 0 ==> off[sz.len() - 1] + sz[sz.len() - 1].0 <= layout_size(sz)
                &&& layout_size(sz) % fold_max_align(sz) == 0
                &&& fold_max_align(sz) >= 1
            }),
    {
        let d = describe(self.log(), fields);
        assert(names_of(d) =~= field_names(fields));
        assert forall|j: int| 0 <= j < d.len() implies field_ok(#[trigger] d[j]) by {
            self.lemma_type_info_ok(fields[j].ty@);
        }
        lemma_sort_fields_laws(d);
        lemma_sort_elems(d);
        let sorted = sort_fields(d);
        let sz = sizes_of(sorted);
        assert(sizes_ok(sz)) by {
            assert forall|q: int| 0 <= q < sz.len() implies #[trigger] sz[q].0 >= 0 && is_align(sz[q].1) by {
                assert(field_ok(sorted[q]));
            }
        }
        assert forall|i: int, j: int| 0 <= i < j < sz.len() implies #[trigger] sz[i].1 >= #[trigger] sz[j].1 by {
            assert(sorted[i].2 >= sorted[j].2);
        }
        lemma_offsets_laws(sz);
        lemma_fold_bounds(sz);
    }
}

} // verus!
