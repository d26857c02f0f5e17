//! Granule pruning: evaluating a filter against the sparse marks of a part
//! to keep only the granules that may hold matching rows, with the
//! soundness law for the fragment of filters on which pruning is sound.

use vstd::prelude::*;

use crate::engines::tuple_cmp;
use crate::error::Error;
use crate::filter::{cmp_vals, filter_references, val_matches, BinOp, CompiledFilter};
use crate::part::{Mark, MarkV};
use crate::storage::{ColumnDef, ColumnDefV};
use crate::value::{compare_values, lemma_val_cmp_eq, lemma_val_cmp_flip, lemma_val_cmp_trans,
    val_cmp, val_le, val_lt, ValOrder, Value, ValueV};

verus! {

/// The first position of `d` in `defs`, if any.
pub open spec fn def_pos_rec(defs: Seq<ColumnDefV>, d: ColumnDefV) -> Option<int>
    decreases defs.len(),
{
    if defs.len() == 0 {
        None
    } else if defs[0] == d {
        Some(0)
    } else {
        match def_pos_rec(defs.drop_first(), d) {
            Some(i) => Some(i + 1),
            None => None,
        }
    }
}

/// `def_pos_rec` finds exactly the first equal definition.
proof fn lemma_def_pos_rec_char(defs: Seq<ColumnDefV>, d: ColumnDefV)
    ensures
        match def_pos_rec(defs, d) {
            Some(i) => 0 <= i < defs.len() && defs[i] == d && forall|j: int|
                0 <= j < i ==> defs[j] != d,
            None => forall|j: int| 0 <= j < defs.len() ==> defs[j] != d,
        },
    decreases defs.len(),
{
    if defs.len() > 0 && defs[0] != d {
        lemma_def_pos_rec_char(defs.drop_first(), d);
        match def_pos_rec(defs.drop_first(), d) {
            Some(i) => {
                assert(defs.drop_first()[i] == defs[i + 1]);
                assert forall|j: int| 0 <= j < i + 1 implies defs[j] != d by {
                    if j > 0 {
                        assert(defs.drop_first()[j - 1] == defs[j]);
                    }
                }
            },
            None => {
                assert forall|j: int| 0 <= j < defs.len() implies defs[j] != d by {
                    if j > 0 {
                        assert(defs.drop_first()[j - 1] == defs[j]);
                    }
                }
            },
        }
    }
}

/// The value that mark `m` records for column `d`: the value at `d`'s
/// position in the primary-key definitions, or `Null` where `d` is not a
/// primary-key column.
pub open spec fn mark_val(
    marks: Seq<MarkV>,
    pk_defs: Seq<ColumnDefV>,
    d: ColumnDefV,
    m: int,
) -> ValueV {
    match def_pos_rec(pk_defs, d) {
        Some(j) => marks[m].index[j],
        None => ValueV::Null,
    }
}

/// Every mark carries one index value per primary-key definition.
pub open spec fn marks_wf(marks: Seq<MarkV>, pk_defs: Seq<ColumnDefV>) -> bool {
    forall|m: int| 0 <= m < marks.len() ==> (#[trigger] marks[m]).index.len() >= pk_defs.len()
}

/// The first mark from `i` on whose value for `d` fails the bound test
/// (`lt` where `strict`, `le` otherwise), or the number of marks.
pub open spec fn pp_from(
    marks: Seq<MarkV>,
    pk_defs: Seq<ColumnDefV>,
    d: ColumnDefV,
    v: ValueV,
    strict: bool,
    i: int,
) -> int
    decreases marks.len() - i,
{
    if i < 0 || i >= marks.len() {
        marks.len() as int
    } else if (if strict {
        val_lt(mark_val(marks, pk_defs, d, i), v)
    } else {
        val_le(mark_val(marks, pk_defs, d, i), v)
    }) {
        pp_from(marks, pk_defs, d, v, strict, i + 1)
    } else {
        i
    }
}

/// The partition point over all marks.
pub open spec fn pp(
    marks: Seq<MarkV>,
    pk_defs: Seq<ColumnDefV>,
    d: ColumnDefV,
    v: ValueV,
    strict: bool,
) -> int {
    pp_from(marks, pk_defs, d, v, strict, 0)
}

/// Basic shape of the partition point: in bounds, everything before it
/// passes, and the point itself (if in bounds) fails.
proof fn lemma_pp_char(
    marks: Seq<MarkV>,
    pk_defs: Seq<ColumnDefV>,
    d: ColumnDefV,
    v: ValueV,
    strict: bool,
    i: int,
)
    requires
        0 <= i <= marks.len(),
    ensures
        i <= pp_from(marks, pk_defs, d, v, strict, i) <= marks.len(),
        forall|m: int|
            i <= m < pp_from(marks, pk_defs, d, v, strict, i) ==> (if strict {
                val_lt(mark_val(marks, pk_defs, d, m), v)
            } else {
                val_le(mark_val(marks, pk_defs, d, m), v)
            }),
        pp_from(marks, pk_defs, d, v, strict, i) < marks.len() ==> !(if strict {
            val_lt(mark_val(marks, pk_defs, d, pp_from(marks, pk_defs, d, v, strict, i)), v)
        } else {
            val_le(mark_val(marks, pk_defs, d, pp_from(marks, pk_defs, d, v, strict, i)), v)
        }),
    decreases marks.len() - i,
{
    if i < marks.len() {
        if (if strict {
            val_lt(mark_val(marks, pk_defs, d, i), v)
        } else {
            val_le(mark_val(marks, pk_defs, d, i), v)
        }) {
            lemma_pp_char(marks, pk_defs, d, v, strict, i + 1);
        }
    }
}

/// `x` saturating-decremented.
pub open spec fn sat_dec(x: int) -> int {
    if x >= 1 {
        x - 1
    } else {
        0
    }
}

/// Whether granule `k` is kept by pruning under filter `f`: the candidate
/// ranges of spec 4.4(c), combined over the tree.
pub open spec fn in_prune(
    f: CompiledFilter,
    marks: Seq<MarkV>,
    pk_defs: Seq<ColumnDefV>,
    table_defs: Seq<ColumnDefV>,
    k: int,
) -> bool
    decreases f,
{
    match f {
        CompiledFilter::Compare { col_idx, op, value } => {
            let d = table_defs[col_idx as int];
            match op {
                BinOp::Eq => sat_dec(pp(marks, pk_defs, d, value@, true)) <= k < pp(
                    marks,
                    pk_defs,
                    d,
                    value@,
                    false,
                ),
                BinOp::NotEq => true,
                BinOp::Lt => k < pp(marks, pk_defs, d, value@, true),
                BinOp::LtEq => k < pp(marks, pk_defs, d, value@, false),
                BinOp::Gt => k >= sat_dec(pp(marks, pk_defs, d, value@, false)),
                BinOp::GtEq => k >= sat_dec(pp(marks, pk_defs, d, value@, true)),
            }
        },
        CompiledFilter::CompareColumns { left_idx, op, right_idx } => val_matches(
            mark_val(marks, pk_defs, table_defs[left_idx as int], k),
            op,
            mark_val(marks, pk_defs, table_defs[right_idx as int], k),
        ),
        CompiledFilter::And(l, r) => in_prune(*l, marks, pk_defs, table_defs, k) && in_prune(
            *r,
            marks,
            pk_defs,
            table_defs,
            k,
        ),
        CompiledFilter::Or(l, r) => in_prune(*l, marks, pk_defs, table_defs, k) || in_prune(
            *r,
            marks,
            pk_defs,
            table_defs,
            k,
        ),
        CompiledFilter::Not(inner) => !in_prune(*inner, marks, pk_defs, table_defs, k),
        CompiledFilter::Column(col_idx) => mark_val(marks, pk_defs, table_defs[col_idx as int], k)
            != ValueV::Bool(false),
        CompiledFilter::Const(b) => b,
    }
}

/// Every column index of the filter names a table column.
pub open spec fn filter_in_bounds(f: CompiledFilter, width: int) -> bool {
    forall|c: int| filter_references(f, c) ==> 0 <= c < width
}

/// Looks up the first definition equal to `d`.
fn def_pos(defs: &Vec<ColumnDef>, d: &ColumnDef) -> (r: Option<usize>)
    ensures
        match r {
            Some(i) => def_pos_rec(defs.deep_view(), d@) == Some(i as int),
            None => def_pos_rec(defs.deep_view(), d@) is None,
        },
{
    let mut i: usize = 0;
    while i < defs.len()
        invariant
            i <= defs@.len(),
            forall|j: int| 0 <= j < i ==> (#[trigger] defs.deep_view()[j]) != d@,
        decreases defs@.len() - i,
    {
        if defs[i] == *d {
            proof {
                lemma_def_pos_rec_char(defs.deep_view(), d@);
                assert(defs.deep_view()[i as int] == d@);
            }
            return Some(i);
        }
        proof {
            assert(defs.deep_view()[i as int] == defs@[i as int]@);
        }
        i += 1;
    }
    proof {
        lemma_def_pos_rec_char(defs.deep_view(), d@);
    }
    None
}

/// The value mark `m` records for column `d`, cloned out (a `Null` where
/// `d` is no primary-key column).
fn load_mark_val(marks: &Vec<Mark>, pk_defs: &Vec<ColumnDef>, d: &ColumnDef, m: usize) -> (r:
    Value)
    requires
        m < marks@.len(),
        marks_wf(marks.deep_view(), pk_defs.deep_view()),
    ensures
        r@ == mark_val(marks.deep_view(), pk_defs.deep_view(), d@, m as int),
{
    match def_pos(pk_defs, d) {
        Some(j) => {
            proof {
                lemma_def_pos_rec_char(pk_defs.deep_view(), d@);
                assert(marks.deep_view()[m as int].index.len() >= pk_defs.deep_view().len());
                assert(marks@[m as int]@ == marks.deep_view()[m as int]);
                assert(marks@[m as int].index.deep_view()[j as int] == marks@[m as int].index@[
                    j as int
                ]@);
            }
            marks[m].index[j].clone()
        },
        None => Value::Null,
    }
}

/// The first mark whose value for `d` fails the bound test; a linear form
/// of the partition-point search over the sorted mark values.
fn pp_scan(marks: &Vec<Mark>, pk_defs: &Vec<ColumnDef>, d: &ColumnDef, v: &Value, strict: bool)
    -> (r: usize)
    requires
        marks_wf(marks.deep_view(), pk_defs.deep_view()),
    ensures
        r == pp(marks.deep_view(), pk_defs.deep_view(), d@, v@, strict),
        r <= marks@.len(),
{
    let ghost mv = marks.deep_view();
    let ghost pkv = pk_defs.deep_view();
    let mut i: usize = 0;
    while i < marks.len()
        invariant
            i <= marks@.len(),
            mv == marks.deep_view(),
            pkv == pk_defs.deep_view(),
            marks_wf(mv, pkv),
            pp(mv, pkv, d@, v@, strict) == pp_from(mv, pkv, d@, v@, strict, i as int),
        decreases marks@.len() - i,
    {
        let mval = load_mark_val(marks, pk_defs, d, i);
        let c = compare_values(&mval, v);
        let passes = if strict {
            matches!(c, Some(ValOrder::Less))
        } else {
            matches!(c, Some(ValOrder::Less)) || matches!(c, Some(ValOrder::Equal))
        };
        if !passes {
            return i;
        }
        i += 1;
    }
    marks.len()
}

/// Whether granule `k` survives pruning under filter `f`; mirrors
/// [`in_prune`] exactly.
fn eval_prune(
    f: &CompiledFilter,
    marks: &Vec<Mark>,
    pk_defs: &Vec<ColumnDef>,
    table_defs: &Vec<ColumnDef>,
    k: usize,
) -> (r: bool)
    requires
        k < marks@.len(),
        marks_wf(marks.deep_view(), pk_defs.deep_view()),
        filter_in_bounds(*f, table_defs@.len() as int),
    ensures
        r == in_prune(*f, marks.deep_view(), pk_defs.deep_view(), table_defs.deep_view(), k as int),
    decreases f,
{
    let ghost mv = marks.deep_view();
    let ghost pkv = pk_defs.deep_view();
    let ghost tv = table_defs.deep_view();
    match f {
        CompiledFilter::Compare { col_idx, op, value } => {
            proof {
                assert(filter_references(*f, *col_idx as int));
                assert(tv[*col_idx as int] == table_defs@[*col_idx as int]@);
            }
            let d = &table_defs[*col_idx];
            match op {
                BinOp::Eq => {
                    let lo = pp_scan(marks, pk_defs, d, value, true);
                    let hi = pp_scan(marks, pk_defs, d, value, false);
                    let lo_dec = if lo >= 1 {
                        lo - 1
                    } else {
                        0
                    };
                    lo_dec <= k && k < hi
                },
                BinOp::NotEq => true,
                BinOp::Lt => {
                    let hi = pp_scan(marks, pk_defs, d, value, true);
                    k < hi
                },
                BinOp::LtEq => {
                    let hi = pp_scan(marks, pk_defs, d, value, false);
                    k < hi
                },
                BinOp::Gt => {
                    let lo = pp_scan(marks, pk_defs, d, value, false);
                    let lo_dec = if lo >= 1 {
                        lo - 1
                    } else {
                        0
                    };
                    k >= lo_dec
                },
                BinOp::GtEq => {
                    let lo = pp_scan(marks, pk_defs, d, value, true);
                    let lo_dec = if lo >= 1 {
                        lo - 1
                    } else {
                        0
                    };
                    k >= lo_dec
                },
            }
        },
        CompiledFilter::CompareColumns { left_idx, op, right_idx } => {
            proof {
                assert(filter_references(*f, *left_idx as int));
                assert(filter_references(*f, *right_idx as int));
                assert(tv[*left_idx as int] == table_defs@[*left_idx as int]@);
                assert(tv[*right_idx as int] == table_defs@[*right_idx as int]@);
            }
            let lv = load_mark_val(marks, pk_defs, &table_defs[*left_idx], k);
            let rv = load_mark_val(marks, pk_defs, &table_defs[*right_idx], k);
            cmp_vals(&lv, &rv, op)
        },
        CompiledFilter::And(l, r) => {
            proof {
                assert(*(*f)->And_0 == **l);
                assert(*(*f)->And_1 == **r);
                assert forall|c: int| filter_references(**l, c) implies 0 <= c
                    < table_defs@.len() by {
                    assert(filter_references(*f, c));
                }
                assert forall|c: int| filter_references(**r, c) implies 0 <= c
                    < table_defs@.len() by {
                    assert(filter_references(*f, c));
                }
            }
            let a = eval_prune(l, marks, pk_defs, table_defs, k);
            let b = eval_prune(r, marks, pk_defs, table_defs, k);
            proof {
                assert(in_prune(*f, mv, pkv, tv, k as int) == (in_prune(*(*f)->And_0, mv, pkv, tv, k as int)
                    && in_prune(*(*f)->And_1, mv, pkv, tv, k as int)));
                assert(*(*f)->And_0 == **l);
                assert(*(*f)->And_1 == **r);
            }
            a && b
        },
        CompiledFilter::Or(l, r) => {
            proof {
                assert(*(*f)->Or_0 == **l);
                assert(*(*f)->Or_1 == **r);
                assert forall|c: int| filter_references(**l, c) implies 0 <= c
                    < table_defs@.len() by {
                    assert(filter_references(*f, c));
                }
                assert forall|c: int| filter_references(**r, c) implies 0 <= c
                    < table_defs@.len() by {
                    assert(filter_references(*f, c));
                }
            }
            let a = eval_prune(l, marks, pk_defs, table_defs, k);
            let b = eval_prune(r, marks, pk_defs, table_defs, k);
            proof {
                assert(in_prune(*f, mv, pkv, tv, k as int) == (in_prune(*(*f)->Or_0, mv, pkv, tv, k as int)
                    || in_prune(*(*f)->Or_1, mv, pkv, tv, k as int)));
                assert(*(*f)->Or_0 == **l);
                assert(*(*f)->Or_1 == **r);
            }
            a || b
        },
        CompiledFilter::Not(inner) => {
            proof {
                assert(*(*f)->Not_0 == **inner);
                assert forall|c: int| filter_references(**inner, c) implies 0 <= c
                    < table_defs@.len() by {
                    assert(filter_references(*f, c));
                }
            }
            let a = eval_prune(inner, marks, pk_defs, table_defs, k);
            proof {
                assert(in_prune(*f, mv, pkv, tv, k as int) == !in_prune(
                    *(*f)->Not_0,
                    mv,
                    pkv,
                    tv,
                    k as int,
                ));
                assert(*(*f)->Not_0 == **inner);
            }
            !a
        },
        CompiledFilter::Column(col_idx) => {
            proof {
                assert(filter_references(*f, *col_idx as int));
                assert(tv[*col_idx as int] == table_defs@[*col_idx as int]@);
            }
            let cv = load_mark_val(marks, pk_defs, &table_defs[*col_idx], k);
            !matches!(cv, Value::Bool(false))
        },
        CompiledFilter::Const(b) => *b,
    }
}

/// The granule indices of a part that pruning keeps, ascending.
pub fn prune_granules(
    marks: &Vec<Mark>,
    filter: &CompiledFilter,
    pk_defs: &Vec<ColumnDef>,
    table_defs: &Vec<ColumnDef>,
) -> (keep: Vec<usize>)
    requires
        marks_wf(marks.deep_view(), pk_defs.deep_view()),
        filter_in_bounds(*filter, table_defs@.len() as int),
    ensures
        forall|s: int| 0 <= s < keep@.len() ==> (#[trigger] keep@[s]) < marks@.len(),
        forall|s1: int, s2: int| 0 <= s1 < s2 < keep@.len() ==> keep@[s1] < keep@[s2],
        forall|k: int|
            0 <= k < marks@.len() ==> ((exists|s: int|
                0 <= s < keep@.len() && (#[trigger] keep@[s]) == k) <==> in_prune(
                *filter,
                marks.deep_view(),
                pk_defs.deep_view(),
                table_defs.deep_view(),
                k,
            )),
{
    let ghost mv = marks.deep_view();
    let ghost pkv = pk_defs.deep_view();
    let ghost tv = table_defs.deep_view();
    let mut keep: Vec<usize> = Vec::new();
    let mut k: usize = 0;
    while k < marks.len()
        invariant
            k <= marks@.len(),
            mv == marks.deep_view(),
            pkv == pk_defs.deep_view(),
            tv == table_defs.deep_view(),
            marks_wf(mv, pkv),
            filter_in_bounds(*filter, table_defs@.len() as int),
            forall|s: int| 0 <= s < keep@.len() ==> (#[trigger] keep@[s]) < k,
            forall|s1: int, s2: int| 0 <= s1 < s2 < keep@.len() ==> keep@[s1] < keep@[s2],
            forall|k2: int|
                0 <= k2 < k ==> ((exists|s: int|
                    0 <= s < keep@.len() && (#[trigger] keep@[s]) == k2) <==> in_prune(
                    *filter,
                    mv,
                    pkv,
                    tv,
                    k2,
                )),
        decreases marks@.len() - k,
    {
        let keep_it = eval_prune(filter, marks, pk_defs, table_defs, k);
        let ghost pre = keep@;
        if keep_it {
            keep.push(k);
        }
        proof {
            assert forall|k2: int|
                0 <= k2 < k + 1 implies ((exists|s: int|
                0 <= s < keep@.len() && (#[trigger] keep@[s]) == k2) <==> in_prune(
                *filter,
                mv,
                pkv,
                tv,
                k2,
            )) by {
                if k2 < k {
                    if exists|s: int| 0 <= s < keep@.len() && (#[trigger] keep@[s]) == k2 {
                        let s0 = choose|s: int|
                            0 <= s < keep@.len() && (#[trigger] keep@[s]) == k2;
                        if s0 < pre.len() {
                            assert(pre[s0] == k2);
                        }
                    }
                    if exists|s: int| 0 <= s < pre.len() && (#[trigger] pre[s]) == k2 {
                        let s0 = choose|s: int| 0 <= s < pre.len() && (#[trigger] pre[s]) == k2;
                        assert(keep@[s0] == k2);
                    }
                } else {
                    if keep_it {
                        assert(keep@[keep@.len() - 1] == k2);
                    } else {
                        if exists|s: int| 0 <= s < keep@.len() && (#[trigger] keep@[s]) == k2 {
                            let s0 = choose|s: int|
                                0 <= s < keep@.len() && (#[trigger] keep@[s]) == k2;
                            assert(pre[s0] == k2);
                        }
                    }
                }
            }
        }
        k += 1;
    }
    keep
}

/// What a full row (one value per table column) satisfies under a filter.
pub open spec fn row_filter_holds(f: CompiledFilter, row: Seq<ValueV>) -> bool
    decreases f,
{
    match f {
        CompiledFilter::Compare { col_idx, op, value } => val_matches(
            row[col_idx as int],
            op,
            value@,
        ),
        CompiledFilter::CompareColumns { left_idx, op, right_idx } => val_matches(
            row[left_idx as int],
            op,
            row[right_idx as int],
        ),
        CompiledFilter::And(l, r) => row_filter_holds(*l, row) && row_filter_holds(*r, row),
        CompiledFilter::Or(l, r) => row_filter_holds(*l, row) || row_filter_holds(*r, row),
        CompiledFilter::Not(inner) => !row_filter_holds(*inner, row),
        CompiledFilter::Column(col_idx) => !(row[col_idx as int] == ValueV::Bool(false)),
        CompiledFilter::Const(b) => b,
    }
}

/// The fragment of filters on which mark pruning is sound: literal
/// compares combined by conjunction and disjunction, and constants.
/// `Not`, `CompareColumns` and `Column` are outside it: their pruning tests
/// only each granule's first row, which says nothing of the rows inside.
pub open spec fn prunable_fragment(f: CompiledFilter) -> bool
    decreases f,
{
    match f {
        CompiledFilter::Compare { .. } => true,
        CompiledFilter::And(l, r) => prunable_fragment(*l) && prunable_fragment(*r),
        CompiledFilter::Or(l, r) => prunable_fragment(*l) && prunable_fragment(*r),
        CompiledFilter::Const(_) => true,
        CompiledFilter::CompareColumns { .. } => false,
        CompiledFilter::Not(_) => false,
        CompiledFilter::Column(_) => false,
    }
}

/// The mark values of column `d` ascend over the granules.
pub open spec fn marks_sorted_on(
    marks: Seq<MarkV>,
    pk_defs: Seq<ColumnDefV>,
    d: ColumnDefV,
) -> bool {
    forall|m1: int, m2: int|
        0 <= m1 <= m2 < marks.len() ==> val_le(
            mark_val(marks, pk_defs, d, m1),
            mark_val(marks, pk_defs, d, m2),
        )
}

/// Soundness of mark pruning: a granule that pruning drops holds no
/// matching row.  A row of granule `k` is any full row whose value in each
/// filtered column lies at or after mark `k`'s value and, where a next
/// granule exists, at or before mark `k + 1`'s.  Holds for the prunable
/// fragment; for `Not`, `CompareColumns` and `Column` the pruning step of
/// the design tests only each granule's first row and is not sound.
pub proof fn lemma_prune_sound(
    f: CompiledFilter,
    marks: Seq<MarkV>,
    pk_defs: Seq<ColumnDefV>,
    table_defs: Seq<ColumnDefV>,
    k: int,
    row: Seq<ValueV>,
)
    requires
        prunable_fragment(f),
        filter_in_bounds(f, table_defs.len() as int),
        0 <= k < marks.len(),
        row.len() == table_defs.len(),
        forall|c: int|
            #[trigger] filter_references(f, c) ==> marks_sorted_on(marks, pk_defs, table_defs[c]),
        forall|c: int|
            #[trigger] filter_references(f, c) ==> val_le(
                mark_val(marks, pk_defs, table_defs[c], k),
                row[c],
            ) && (k + 1 < marks.len() ==> val_le(
                row[c],
                mark_val(marks, pk_defs, table_defs[c], k + 1),
            )),
        !in_prune(f, marks, pk_defs, table_defs, k),
    ensures
        !row_filter_holds(f, row),
    decreases f,
{
    match f {
        CompiledFilter::Const(_) => {},
        CompiledFilter::And(l, r) => {
            assert forall|c: int| #[trigger] filter_references(*l, c) implies 0 <= c
                < table_defs.len() && marks_sorted_on(marks, pk_defs, table_defs[c]) && val_le(
                mark_val(marks, pk_defs, table_defs[c], k),
                row[c],
            ) && (k + 1 < marks.len() ==> val_le(
                row[c],
                mark_val(marks, pk_defs, table_defs[c], k + 1),
            )) by {
                assert(filter_references(f, c));
            }
            assert forall|c: int| #[trigger] filter_references(*r, c) implies 0 <= c
                < table_defs.len() && marks_sorted_on(marks, pk_defs, table_defs[c]) && val_le(
                mark_val(marks, pk_defs, table_defs[c], k),
                row[c],
            ) && (k + 1 < marks.len() ==> val_le(
                row[c],
                mark_val(marks, pk_defs, table_defs[c], k + 1),
            )) by {
                assert(filter_references(f, c));
            }
            if !in_prune(*l, marks, pk_defs, table_defs, k) {
                lemma_prune_sound(*l, marks, pk_defs, table_defs, k, row);
            } else {
                lemma_prune_sound(*r, marks, pk_defs, table_defs, k, row);
            }
        },
        CompiledFilter::Or(l, r) => {
            assert forall|c: int| #[trigger] filter_references(*l, c) implies 0 <= c
                < table_defs.len() && marks_sorted_on(marks, pk_defs, table_defs[c]) && val_le(
                mark_val(marks, pk_defs, table_defs[c], k),
                row[c],
            ) && (k + 1 < marks.len() ==> val_le(
                row[c],
                mark_val(marks, pk_defs, table_defs[c], k + 1),
            )) by {
                assert(filter_references(f, c));
            }
            assert forall|c: int| #[trigger] filter_references(*r, c) implies 0 <= c
                < table_defs.len() && marks_sorted_on(marks, pk_defs, table_defs[c]) && val_le(
                mark_val(marks, pk_defs, table_defs[c], k),
                row[c],
            ) && (k + 1 < marks.len() ==> val_le(
                row[c],
                mark_val(marks, pk_defs, table_defs[c], k + 1),
            )) by {
                assert(filter_references(f, c));
            }
            lemma_prune_sound(*l, marks, pk_defs, table_defs, k, row);
            lemma_prune_sound(*r, marks, pk_defs, table_defs, k, row);
        },
        CompiledFilter::Compare { col_idx, op, value } => {
            let c = col_idx as int;
            assert(filter_references(f, c));
            let d = table_defs[c];
            let rv = row[c];
            let vv = value@;
            let lo = mark_val(marks, pk_defs, d, k);
            lemma_pp_char(marks, pk_defs, d, vv, true, 0);
            lemma_pp_char(marks, pk_defs, d, vv, false, 0);
            let pp_lt = pp(marks, pk_defs, d, vv, true);
            let pp_le = pp(marks, pk_defs, d, vv, false);
            if row_filter_holds(f, row) {
                match op {
                    BinOp::NotEq => {
                        assert(in_prune(f, marks, pk_defs, table_defs, k));
                    },
                    BinOp::Lt => {
                        // k >= pp_lt; the partition-point value fails `< v`,
                        // every later mark is at or above it, and the row is
                        // at or above mark k
                        assert(pp_lt <= k < marks.len());
                        let pv = mark_val(marks, pk_defs, d, pp_lt);
                        assert(!val_lt(pv, vv));
                        assert(val_le(pv, lo));
                        assert(val_le(lo, rv));
                        assert(val_lt(rv, vv));
                        lemma_val_cmp_trans(pv, lo, rv);
                        lemma_val_cmp_trans(pv, rv, vv);
                        assert(false);
                    },
                    BinOp::LtEq => {
                        assert(pp_le <= k < marks.len());
                        let pv = mark_val(marks, pk_defs, d, pp_le);
                        assert(!val_le(pv, vv));
                        assert(val_le(pv, lo));
                        assert(val_le(lo, rv));
                        assert(val_le(rv, vv));
                        lemma_val_cmp_trans(pv, lo, rv);
                        lemma_val_cmp_trans(pv, rv, vv);
                        assert(false);
                    },
                    BinOp::Eq => {
                        lemma_val_cmp_eq(rv, vv);
                        assert(rv == vv);
                        if k >= pp_le {
                            let pv = mark_val(marks, pk_defs, d, pp_le);
                            assert(!val_le(pv, vv));
                            assert(val_le(pv, lo));
                            assert(val_le(lo, rv));
                            lemma_val_cmp_trans(pv, lo, rv);
                            assert(false);
                        } else {
                            assert(k < sat_dec(pp_lt));
                            assert(k + 1 < pp_lt <= marks.len());
                            let nv = mark_val(marks, pk_defs, d, k + 1);
                            assert(val_lt(nv, vv));
                            assert(val_le(rv, nv));
                            lemma_val_cmp_trans(rv, nv, vv);
                            assert(val_lt(vv, vv));
                            lemma_val_cmp_eq(vv, vv);
                            assert(false);
                        }
                    },
                    BinOp::Gt => {
                        assert(k < sat_dec(pp_le));
                        assert(k + 1 < pp_le <= marks.len());
                        let nv = mark_val(marks, pk_defs, d, k + 1);
                        assert(val_le(nv, vv));
                        lemma_val_cmp_flip(rv, vv);
                        assert(val_lt(vv, rv));
                        assert(val_le(rv, nv));
                        lemma_val_cmp_trans(vv, rv, nv);
                        lemma_val_cmp_trans(vv, nv, vv);
                        assert(val_lt(vv, vv));
                        lemma_val_cmp_eq(vv, vv);
                        assert(false);
                    },
                    BinOp::GtEq => {
                        assert(k < sat_dec(pp_lt));
                        assert(k + 1 < pp_lt <= marks.len());
                        let nv = mark_val(marks, pk_defs, d, k + 1);
                        assert(val_lt(nv, vv));
                        lemma_val_cmp_flip(rv, vv);
                        assert(val_le(vv, rv));
                        assert(val_le(rv, nv));
                        lemma_val_cmp_trans(vv, rv, nv);
                        lemma_val_cmp_trans(vv, nv, vv);
                        assert(val_lt(vv, vv));
                        lemma_val_cmp_eq(vv, vv);
                        assert(false);
                    },
                }
            }
        },
        _ => {},
    }
}

} // verus!
