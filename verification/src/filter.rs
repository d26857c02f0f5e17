//! The compiled filter: the predicate grammar of a WHERE clause, its
//! lowering to a small evaluator tree over column indices and literal
//! values, and the tree's vectorized evaluation over a decoded granule.

use vstd::prelude::*;

use crate::error::Error;
use crate::pruning::row_filter_holds;
use crate::storage::{Column, ColumnDef, ColumnDefV, ColumnV};
use crate::value::{compare_values, free_lit_value, lit_value, val_cmp, SqlLiteral, SqlLitV, ValOrder, Value, ValueV};

verus! {

/// A comparison operator of a filter.
#[derive(Clone, Copy, PartialEq, Eq, Structural, Debug)]
pub enum BinOp {
    Gt,
    Lt,
    GtEq,
    LtEq,
    Eq,
    NotEq,
}

/// The operator with its sides swapped.
pub open spec fn flip_op(op: BinOp) -> BinOp {
    match op {
        BinOp::Gt => BinOp::Lt,
        BinOp::Lt => BinOp::Gt,
        BinOp::GtEq => BinOp::LtEq,
        BinOp::LtEq => BinOp::GtEq,
        BinOp::Eq => BinOp::Eq,
        BinOp::NotEq => BinOp::NotEq,
    }
}

/// `a OP b` holds exactly when `b OP.flip() a` does.
pub proof fn lemma_flip_matches(a: ValueV, op: BinOp, b: ValueV)
    ensures
        val_matches(a, op, b) == val_matches(b, flip_op(op), a),
{
    crate::value::lemma_val_cmp_flip(a, b);
}

impl BinOp {
    /// The operator with its sides swapped: `a OP b` holds exactly when
    /// `b OP.flip() a` holds.
    pub fn flip(self) -> (r: Self)
        ensures
            r == flip_op(self),
            forall|a: ValueV, b: ValueV| val_matches(a, self, b) == val_matches(b, r, a),
    {
        proof {
            assert forall|a: ValueV, b: ValueV| val_matches(a, self, b) == val_matches(
                b,
                match self {
                    BinOp::Gt => BinOp::Lt,
                    BinOp::Lt => BinOp::Gt,
                    BinOp::GtEq => BinOp::LtEq,
                    BinOp::LtEq => BinOp::GtEq,
                    BinOp::Eq => BinOp::Eq,
                    BinOp::NotEq => BinOp::NotEq,
                },
                a,
            ) by {
                crate::value::lemma_val_cmp_flip(a, b);
            }
        }
        match self {
            BinOp::Gt => BinOp::Lt,
            BinOp::Lt => BinOp::Gt,
            BinOp::GtEq => BinOp::LtEq,
            BinOp::LtEq => BinOp::GtEq,
            BinOp::Eq => BinOp::Eq,
            BinOp::NotEq => BinOp::NotEq,
        }
    }
}

/// Whether `a OP b` holds; values that do not compare satisfy only `NotEq`,
/// as under Rust's partial orders.
pub open spec fn val_matches(a: ValueV, op: BinOp, b: ValueV) -> bool {
    match op {
        BinOp::Gt => val_cmp(a, b) == Some(ValOrder::Greater),
        BinOp::Lt => val_cmp(a, b) == Some(ValOrder::Less),
        BinOp::GtEq => val_cmp(a, b) == Some(ValOrder::Greater) || val_cmp(a, b) == Some(
            ValOrder::Equal,
        ),
        BinOp::LtEq => val_cmp(a, b) == Some(ValOrder::Less) || val_cmp(a, b) == Some(
            ValOrder::Equal,
        ),
        BinOp::Eq => val_cmp(a, b) == Some(ValOrder::Equal),
        BinOp::NotEq => val_cmp(a, b) != Some(ValOrder::Equal),
    }
}

/// Compares two values under a filter operator.
pub fn cmp_vals(a: &Value, b: &Value, op: &BinOp) -> (r: bool)
    ensures
        r == val_matches(a@, *op, b@),
{
    let c = compare_values(a, b);
    match op {
        BinOp::Gt => matches!(c, Some(ValOrder::Greater)),
        BinOp::Lt => matches!(c, Some(ValOrder::Less)),
        BinOp::GtEq => matches!(c, Some(ValOrder::Greater)) || matches!(c, Some(ValOrder::Equal)),
        BinOp::LtEq => matches!(c, Some(ValOrder::Less)) || matches!(c, Some(ValOrder::Equal)),
        BinOp::Eq => matches!(c, Some(ValOrder::Equal)),
        BinOp::NotEq => !matches!(c, Some(ValOrder::Equal)),
    }
}

/// A predicate lowered to column indices and literal values.
#[derive(Debug)]
pub enum CompiledFilter {
    Compare { col_idx: usize, op: BinOp, value: Value },
    CompareColumns { left_idx: usize, op: BinOp, right_idx: usize },
    And(Box<CompiledFilter>, Box<CompiledFilter>),
    Or(Box<CompiledFilter>, Box<CompiledFilter>),
    Not(Box<CompiledFilter>),
    Column(usize),
    Const(bool),
}

/// Whether `c` occurs in the index list `s`.
pub open spec fn lists_col(s: Seq<usize>, c: int) -> bool {
    exists|k: int| 0 <= k < s.len() && (#[trigger] s[k]) as int == c
}

/// Whether the filter references column index `c`.
pub open spec fn filter_references(f: CompiledFilter, c: int) -> bool
    decreases f,
{
    match f {
        CompiledFilter::Compare { col_idx, .. } => c == col_idx as int,
        CompiledFilter::CompareColumns { left_idx, right_idx, .. } => c == left_idx as int || c
            == right_idx as int,
        CompiledFilter::And(l, r) => filter_references(*l, c) || filter_references(*r, c),
        CompiledFilter::Or(l, r) => filter_references(*l, c) || filter_references(*r, c),
        CompiledFilter::Not(inner) => filter_references(*inner, c),
        CompiledFilter::Column(col_idx) => c == col_idx as int,
        CompiledFilter::Const(_) => false,
    }
}

impl CompiledFilter {
    /// Collects all column indices referenced by this filter, without
    /// duplicating ones already listed.
    pub fn get_column_defs(&self, col_def_idxs: &mut Vec<usize>)
        ensures
            forall|c: int|
                #[trigger] lists_col(final (col_def_idxs)@, c) <==> (lists_col(
                    old(col_def_idxs)@,
                    c,
                ) || filter_references(*self, c)),
        decreases self,
    {
        match self {
            CompiledFilter::Compare { col_idx, .. } => {
                push_if_absent(col_def_idxs, *col_idx);
            },
            CompiledFilter::CompareColumns { left_idx, right_idx, .. } => {
                push_if_absent(col_def_idxs, *left_idx);
                push_if_absent(col_def_idxs, *right_idx);
            },
            CompiledFilter::And(l, r) => {
                l.get_column_defs(col_def_idxs);
                r.get_column_defs(col_def_idxs);
            },
            CompiledFilter::Or(l, r) => {
                l.get_column_defs(col_def_idxs);
                r.get_column_defs(col_def_idxs);
            },
            CompiledFilter::Not(inner) => {
                inner.get_column_defs(col_def_idxs);
            },
            CompiledFilter::Column(col_idx) => {
                push_if_absent(col_def_idxs, *col_idx);
            },
            CompiledFilter::Const(_) => {},
        }
    }
}

/// Appends `x` unless it is already listed.
fn push_if_absent(v: &mut Vec<usize>, x: usize)
    ensures
        forall|c: int|
            #[trigger] lists_col(final (v)@, c) <==> (lists_col(old(v)@, c) || c == x as int),
{
    let mut i: usize = 0;
    let n = v.len();
    while i < n
        invariant
            i <= n == v@.len(),
            v@ == old(v)@,
            forall|k: int| 0 <= k < i ==> (#[trigger] v@[k]) != x,
        decreases n - i,
    {
        if v[i] == x {
            proof {
                assert(lists_col(v@, x as int));
            }
            return ;
        }
        i += 1;
    }
    let ghost pre = v@;
    v.push(x);
    proof {
        assert(v@ =~= pre.push(x));
        assert(v@[pre.len() as int] == x);
        assert forall|c: int| #[trigger] lists_col(v@, c) <==> (lists_col(pre, c) || c
            == x as int) by {
            if lists_col(v@, c) {
                let k0 = choose|k: int| 0 <= k < v@.len() && (#[trigger] v@[k]) as int == c;
                if k0 < pre.len() {
                    assert(pre[k0] as int == c);
                }
            }
            if lists_col(pre, c) {
                let k0 = choose|k: int| 0 <= k < pre.len() && (#[trigger] pre[k]) as int == c;
                assert(v@[k0] as int == c);
            }
            if c == x as int {
                assert(v@[pre.len() as int] as int == c);
            }
        }
    }
}

/// One decoded granule: for each column of the read set, either its decoded
/// values or nothing where the part lacks the column.
pub type GranuleColumns = Vec<Option<Vec<Value>>>;

/// What one row of a decoded granule satisfies under a filter.  A compare
/// against a column that is absent from the granule is false; an absent side
/// of a column-to-column compare reads as `Null`; a non-boolean value under
/// a bare column test counts as true.
pub open spec fn row_matches(
    f: CompiledFilter,
    gdata: Seq<Option<Seq<ValueV>>>,
    row: int,
) -> bool
    decreases f,
{
    match f {
        CompiledFilter::Compare { col_idx, op, value } => {
            &&& (col_idx as int) < gdata.len()
            &&& match gdata[col_idx as int] {
                Some(vals) => 0 <= row < vals.len() && val_matches(vals[row], op, value@),
                None => false,
            }
        },
        CompiledFilter::CompareColumns { left_idx, op, right_idx } => {
            let lv = if (left_idx as int) < gdata.len() && gdata[left_idx as int] is Some && 0 <= row
                < gdata[left_idx as int]->Some_0.len() {
                gdata[left_idx as int]->Some_0[row]
            } else {
                ValueV::Null
            };
            let rv = if (right_idx as int) < gdata.len() && gdata[right_idx as int] is Some && 0
                <= row < gdata[right_idx as int]->Some_0.len() {
                gdata[right_idx as int]->Some_0[row]
            } else {
                ValueV::Null
            };
            if (left_idx as int) < gdata.len() && (right_idx as int) < gdata.len() && gdata[
                left_idx as int
            ] is None && gdata[right_idx as int] is None {
                false
            } else if (left_idx as int) >= gdata.len() || (right_idx as int) >= gdata.len() {
                false
            } else {
                val_matches(lv, op, rv)
            }
        },
        CompiledFilter::And(l, r) => row_matches(*l, gdata, row) && row_matches(*r, gdata, row),
        CompiledFilter::Or(l, r) => row_matches(*l, gdata, row) || row_matches(*r, gdata, row),
        CompiledFilter::Not(inner) => !row_matches(*inner, gdata, row),
        CompiledFilter::Column(col_idx) => {
            &&& (col_idx as int) < gdata.len()
            &&& match gdata[col_idx as int] {
                Some(vals) => 0 <= row < vals.len() && (vals[row] matches ValueV::Bool(b)
                    ==> b),
                None => false,
            }
        },
        CompiledFilter::Const(b) => b,
    }
}

/// Pointwise conjunction of two masks.
fn mask_and(a: &Vec<bool>, b: &Vec<bool>) -> (r: Vec<bool>)
    requires
        a@.len() == b@.len(),
    ensures
        r@.len() == a@.len(),
        forall|i: int| 0 <= i < r@.len() ==> (#[trigger] r@[i]) == (a@[i] && b@[i]),
{
    let mut r: Vec<bool> = Vec::new();
    let mut i: usize = 0;
    while i < a.len()
        invariant
            i <= a@.len() == b@.len(),
            r@.len() == i,
            forall|j: int| 0 <= j < i ==> (#[trigger] r@[j]) == (a@[j] && b@[j]),
        decreases a@.len() - i,
    {
        r.push(a[i] && b[i]);
        i += 1;
    }
    r
}

/// Pointwise disjunction of two masks.
fn mask_or(a: &Vec<bool>, b: &Vec<bool>) -> (r: Vec<bool>)
    requires
        a@.len() == b@.len(),
    ensures
        r@.len() == a@.len(),
        forall|i: int| 0 <= i < r@.len() ==> (#[trigger] r@[i]) == (a@[i] || b@[i]),
{
    let mut r: Vec<bool> = Vec::new();
    let mut i: usize = 0;
    while i < a.len()
        invariant
            i <= a@.len() == b@.len(),
            r@.len() == i,
            forall|j: int| 0 <= j < i ==> (#[trigger] r@[j]) == (a@[j] || b@[j]),
        decreases a@.len() - i,
    {
        r.push(a[i] || b[i]);
        i += 1;
    }
    r
}

/// Pointwise negation of a mask.
fn mask_not(a: &Vec<bool>) -> (r: Vec<bool>)
    ensures
        r@.len() == a@.len(),
        forall|i: int| 0 <= i < r@.len() ==> (#[trigger] r@[i]) == !a@[i],
{
    let mut r: Vec<bool> = Vec::new();
    let mut i: usize = 0;
    while i < a.len()
        invariant
            i <= a@.len(),
            r@.len() == i,
            forall|j: int| 0 <= j < i ==> (#[trigger] r@[j]) == !a@[j],
        decreases a@.len() - i,
    {
        r.push(!a[i]);
        i += 1;
    }
    r
}

/// A constant mask.
fn mask_const(b: bool, n: usize) -> (r: Vec<bool>)
    ensures
        r@.len() == n,
        forall|i: int| 0 <= i < n ==> (#[trigger] r@[i]) == b,
{
    let mut r: Vec<bool> = Vec::new();
    let mut i: usize = 0;
    while i < n
        invariant
            i <= n,
            r@.len() == i,
            forall|j: int| 0 <= j < i ==> (#[trigger] r@[j]) == b,
        decreases n - i,
    {
        r.push(b);
        i += 1;
    }
    r
}

/// Compares every value of a column against a literal.
fn mask_compare(col: &Vec<Value>, value: &Value, op: &BinOp) -> (r: Vec<bool>)
    ensures
        r@.len() == col@.len(),
        forall|i: int|
            0 <= i < r@.len() ==> (#[trigger] r@[i]) == val_matches(
                col.deep_view()[i],
                *op,
                value@,
            ),
{
    let mut r: Vec<bool> = Vec::new();
    let mut i: usize = 0;
    while i < col.len()
        invariant
            i <= col@.len(),
            r@.len() == i,
            forall|j: int|
                0 <= j < i ==> (#[trigger] r@[j]) == val_matches(col.deep_view()[j], *op, value@),
        decreases col@.len() - i,
    {
        proof {
            assert(col.deep_view()[i as int] == col@[i as int]@);
        }
        r.push(cmp_vals(&col[i], value, op));
        i += 1;
    }
    r
}

/// Compares two columns, or one column against a fixed value where the
/// other side is absent.
fn mask_compare_cols(lc: &Vec<Value>, rc: &Vec<Value>, op: &BinOp, n: usize) -> (r: Vec<bool>)
    requires
        lc@.len() == n,
        rc@.len() == n,
    ensures
        r@.len() == n,
        forall|i: int|
            0 <= i < n ==> (#[trigger] r@[i]) == val_matches(
                lc.deep_view()[i],
                *op,
                rc.deep_view()[i],
            ),
{
    let mut r: Vec<bool> = Vec::new();
    let mut i: usize = 0;
    while i < n
        invariant
            i <= n == lc@.len() == rc@.len(),
            r@.len() == i,
            forall|j: int|
                0 <= j < i ==> (#[trigger] r@[j]) == val_matches(
                    lc.deep_view()[j],
                    *op,
                    rc.deep_view()[j],
                ),
        decreases n - i,
    {
        proof {
            assert(lc.deep_view()[i as int] == lc@[i as int]@);
            assert(rc.deep_view()[i as int] == rc@[i as int]@);
        }
        r.push(cmp_vals(&lc[i], &rc[i], op));
        i += 1;
    }
    r
}

/// Tests every value of a column as a boolean: non-booleans count as true.
fn mask_col_bool(col: &Vec<Value>) -> (r: Vec<bool>)
    ensures
        r@.len() == col@.len(),
        forall|i: int|
            0 <= i < r@.len() ==> (#[trigger] r@[i]) == (col.deep_view()[i] matches ValueV::Bool(b)
                ==> b),
{
    let mut r: Vec<bool> = Vec::new();
    let mut i: usize = 0;
    while i < col.len()
        invariant
            i <= col@.len(),
            r@.len() == i,
            forall|j: int|
                0 <= j < i ==> (#[trigger] r@[j]) == (col.deep_view()[j] matches ValueV::Bool(b)
                    ==> b),
        decreases col@.len() - i,
    {
        proof {
            assert(col.deep_view()[i as int] == col@[i as int]@);
        }
        let m = match &col[i] {
            Value::Bool(b) => *b,
            _ => true,
        };
        r.push(m);
        i += 1;
    }
    r
}

/// Evaluates the filter over a whole decoded granule, one boolean per row.
/// Every column present in the granule must hold `row_count` values.
pub fn eval_filter_vectorized(
    filter: &CompiledFilter,
    granule_data: &GranuleColumns,
    row_count: usize,
) -> (mask: Vec<bool>)
    requires
        forall|c: int|
            0 <= c < granule_data@.len() && (#[trigger] granule_data@[c]) is Some
                ==> granule_data@[c]->Some_0@.len() == row_count,
    ensures
        mask@.len() == row_count,
        forall|i: int|
            0 <= i < row_count ==> (#[trigger] mask@[i]) == row_matches(
                *filter,
                granule_data.deep_view(),
                i,
            ),
    decreases filter,
{
    let ghost gd = granule_data.deep_view();
    proof {
        assert(gd.len() == granule_data@.len());
        assert forall|c: int| 0 <= c < gd.len() implies (#[trigger] gd[c]) is Some <==> granule_data@[c] is Some by {
            assert(gd[c] == granule_data@[c].deep_view());
        }
        assert forall|c: int| 0 <= c < gd.len() && (#[trigger] gd[c]) is Some implies gd[c]->Some_0.len()
            == row_count by {
            assert(gd[c] == granule_data@[c].deep_view());
        }
    }
    match filter {
        CompiledFilter::And(l, r) => {
            let lm = eval_filter_vectorized(l, granule_data, row_count);
            let rm = eval_filter_vectorized(r, granule_data, row_count);
            let mask = mask_and(&lm, &rm);
            proof {
                assert forall|i: int| 0 <= i < row_count implies (#[trigger] mask@[i])
                    == row_matches(*filter, gd, i) by {
                    assert(lm@[i] == row_matches(**l, gd, i));
                    assert(rm@[i] == row_matches(**r, gd, i));
                }
            }
            mask
        },
        CompiledFilter::Or(l, r) => {
            let lm = eval_filter_vectorized(l, granule_data, row_count);
            let rm = eval_filter_vectorized(r, granule_data, row_count);
            let mask = mask_or(&lm, &rm);
            proof {
                assert forall|i: int| 0 <= i < row_count implies (#[trigger] mask@[i])
                    == row_matches(*filter, gd, i) by {
                    assert(lm@[i] == row_matches(**l, gd, i));
                    assert(rm@[i] == row_matches(**r, gd, i));
                }
            }
            mask
        },
        CompiledFilter::Not(inner) => {
            let im = eval_filter_vectorized(inner, granule_data, row_count);
            let mask = mask_not(&im);
            proof {
                assert forall|i: int| 0 <= i < row_count implies (#[trigger] mask@[i])
                    == row_matches(*filter, gd, i) by {
                    assert(im@[i] == row_matches(**inner, gd, i));
                }
            }
            mask
        },
        CompiledFilter::Const(b) => {
            let mask = mask_const(*b, row_count);
            mask
        },
        CompiledFilter::Compare { col_idx, op, value } => {
            if *col_idx < granule_data.len() {
                match &granule_data[*col_idx] {
                    Some(col) => {
                        proof {
                            assert(gd[*col_idx as int] == granule_data@[*col_idx as int].deep_view());
                            assert(gd[*col_idx as int]->Some_0 == col.deep_view());
                        }
                        let mask = mask_compare(col, value, op);
                        mask
                    },
                    None => {
                        let mask = mask_const(false, row_count);
                        mask
                    },
                }
            } else {
                let mask = mask_const(false, row_count);
                mask
            }
        },
        CompiledFilter::Column(col_idx) => {
            if *col_idx < granule_data.len() {
                match &granule_data[*col_idx] {
                    Some(col) => {
                        proof {
                            assert(gd[*col_idx as int] == granule_data@[*col_idx as int].deep_view());
                            assert(gd[*col_idx as int]->Some_0 == col.deep_view());
                        }
                        let mask = mask_col_bool(col);
                        mask
                    },
                    None => {
                        let mask = mask_const(false, row_count);
                        mask
                    },
                }
            } else {
                let mask = mask_const(false, row_count);
                mask
            }
        },
        CompiledFilter::CompareColumns { left_idx, op, right_idx } => {
            if *left_idx >= granule_data.len() || *right_idx >= granule_data.len() {
                let mask = mask_const(false, row_count);
                return mask;
            }
            let left_present = granule_data[*left_idx].is_some();
            let right_present = granule_data[*right_idx].is_some();
            proof {
                assert(gd[*left_idx as int] == granule_data@[*left_idx as int].deep_view());
                assert(gd[*right_idx as int] == granule_data@[*right_idx as int].deep_view());
            }
            if !left_present && !right_present {
                let mask = mask_const(false, row_count);
                return mask;
            }
            let null_col: Vec<Value> = {
                let mut v: Vec<Value> = Vec::new();
                let mut i: usize = 0;
                while i < row_count
                    invariant
                        i <= row_count,
                        v@.len() == i,
                        forall|j: int| 0 <= j < i ==> (#[trigger] v.deep_view()[j]) == ValueV::Null,
                    decreases row_count - i,
                {
                    let ghost pre = v.deep_view();
                    v.push(Value::Null);
                    proof {
                        assert forall|j: int| 0 <= j <= i implies (#[trigger] v.deep_view()[j])
                            == ValueV::Null by {
                            if j < i {
                                assert(v.deep_view()[j] == pre[j]);
                            } else {
                                assert(v.deep_view()[j] == Value::Null@);
                            }
                        }
                    }
                    i += 1;
                }
                v
            };
            let lc: &Vec<Value> = if left_present {
                granule_data[*left_idx].as_ref().unwrap()
            } else {
                &null_col
            };
            let rc: &Vec<Value> = if right_present {
                granule_data[*right_idx].as_ref().unwrap()
            } else {
                &null_col
            };
            proof {
                if left_present {
                    assert(gd[*left_idx as int]->Some_0 == lc.deep_view());
                }
                if right_present {
                    assert(gd[*right_idx as int]->Some_0 == rc.deep_view());
                }
            }
            let mask = mask_compare_cols(lc, rc, op, row_count);
            proof {
                assert forall|i: int| 0 <= i < row_count implies (#[trigger] mask@[i])
                    == row_matches(*filter, gd, i) by {
                    assert(mask@[i] == val_matches(lc.deep_view()[i], *op, rc.deep_view()[i]));
                }
            }
            mask
        },
    }
}

/// A binary operator of the predicate grammar: a conjunction, a
/// disjunction, a comparison, or one the core does not take.
#[derive(Clone, Copy, PartialEq, Eq, Structural, Debug)]
pub enum FilterBinaryOp {
    And,
    Or,
    Cmp(BinOp),
    Other,
}

/// A unary operator of the predicate grammar.
#[derive(Clone, Copy, PartialEq, Eq, Structural, Debug)]
pub enum FilterUnaryOp {
    Not,
    Other,
}

/// Abstraction of [`FilterExpr`].
#[verifier::ext_equal]
pub enum FilterExprV {
    Ident(Seq<char>),
    Literal(SqlLitV),
    Binary { op: FilterBinaryOp, left: Box<FilterExprV>, right: Box<FilterExprV> },
    Unary { op: FilterUnaryOp, inner: Box<FilterExprV> },
    Unsupported(Seq<char>),
}

/// The predicate of a WHERE clause as it reaches the core: identifiers,
/// literals, binary and unary operators, and a marker for expression kinds
/// the core does not take.
#[derive(Debug)]
pub enum FilterExpr {
    Ident(String),
    Literal(SqlLiteral),
    Binary { op: FilterBinaryOp, left: Box<FilterExpr>, right: Box<FilterExpr> },
    Unary { op: FilterUnaryOp, inner: Box<FilterExpr> },
    Unsupported(String),
}

/// The abstraction of a predicate expression.
pub open spec fn expr_view(e: FilterExpr) -> FilterExprV
    decreases e,
{
    match e {
        FilterExpr::Ident(s) => FilterExprV::Ident(s@),
        FilterExpr::Literal(l) => FilterExprV::Literal(l@),
        FilterExpr::Binary { op, left, right } => FilterExprV::Binary {
            op,
            left: Box::new(expr_view(*left)),
            right: Box::new(expr_view(*right)),
        },
        FilterExpr::Unary { op, inner } => FilterExprV::Unary {
            op,
            inner: Box::new(expr_view(*inner)),
        },
        FilterExpr::Unsupported(s) => FilterExprV::Unsupported(s@),
    }
}

/// The first definition bearing `name`, if any.
pub open spec fn name_pos_rec(defs: Seq<ColumnDefV>, name: Seq<char>) -> Option<int>
    decreases defs.len(),
{
    if defs.len() == 0 {
        None
    } else if defs[0].name == name {
        Some(0)
    } else {
        match name_pos_rec(defs.drop_first(), name) {
            Some(i) => Some(i + 1),
            None => None,
        }
    }
}

/// A first-match witness pins `name_pos_rec`.
proof fn lemma_name_pos_bridge(defs: Seq<ColumnDefV>, name: Seq<char>, i: int)
    requires
        0 <= i < defs.len(),
        defs[i].name == name,
        forall|j: int| 0 <= j < i ==> (#[trigger] defs[j]).name != name,
    ensures
        name_pos_rec(defs, name) == Some(i),
{
    lemma_name_pos_rec_char(defs, name);
    match name_pos_rec(defs, name) {
        None => {
            assert(defs[i].name != name);
        },
        Some(ip) => {
            if ip > i {
                assert(defs[i].name != name);
            }
        },
    }
}

/// `name_pos_rec` finds exactly the first definition with the name.
proof fn lemma_name_pos_rec_char(defs: Seq<ColumnDefV>, name: Seq<char>)
    ensures
        match name_pos_rec(defs, name) {
            Some(i) => 0 <= i < defs.len() && defs[i].name == name && forall|j: int|
                0 <= j < i ==> defs[j].name != name,
            None => forall|j: int| 0 <= j < defs.len() ==> defs[j].name != name,
        },
    decreases defs.len(),
{
    if defs.len() > 0 && defs[0].name != name {
        lemma_name_pos_rec_char(defs.drop_first(), name);
        match name_pos_rec(defs.drop_first(), name) {
            Some(i) => {
                assert(defs.drop_first()[i] == defs[i + 1]);
                assert forall|j: int| 0 <= j < i + 1 implies defs[j].name != name by {
                    if j > 0 {
                        assert(defs.drop_first()[j - 1] == defs[j]);
                    }
                }
            },
            None => {
                assert forall|j: int| 0 <= j < defs.len() implies defs[j].name != name by {
                    if j > 0 {
                        assert(defs.drop_first()[j - 1] == defs[j]);
                    }
                }
            },
        }
    }
}

/// Whether compiling the expression yields a constant, and which.
pub open spec fn const_of(e: FilterExprV, defs: Seq<ColumnDefV>) -> Option<bool>
    decreases e,
{
    match e {
        FilterExprV::Literal(SqlLitV::Bool(b)) => Some(b),
        FilterExprV::Binary { op: FilterBinaryOp::And, left, right } => {
            if const_of(*left, defs) == Some(false) {
                Some(false)
            } else if const_of(*left, defs) == Some(true) {
                const_of(*right, defs)
            } else if const_of(*right, defs) == Some(false) {
                Some(false)
            } else {
                None
            }
        },
        FilterExprV::Binary { op: FilterBinaryOp::Or, left, right } => {
            if const_of(*left, defs) == Some(true) {
                Some(true)
            } else if const_of(*left, defs) == Some(false) {
                const_of(*right, defs)
            } else if const_of(*right, defs) == Some(true) {
                Some(true)
            } else {
                None
            }
        },
        FilterExprV::Binary { op: FilterBinaryOp::Cmp(op), left, right } => {
            match (*left, *right) {
                (FilterExprV::Literal(l), FilterExprV::Literal(r)) => match (
                    free_lit_value(l),
                    free_lit_value(r),
                ) {
                    (Some(lv), Some(rv)) => Some(val_matches(lv, op, rv)),
                    _ => None,
                },
                _ => None,
            }
        },
        _ => None,
    }
}

/// Whether the expression compiles: operators the core takes, identifiers
/// that name columns, and literals that convert; under a conjunction or
/// disjunction decided by its left side, the right side goes unexamined.
pub open spec fn expr_ok(e: FilterExprV, defs: Seq<ColumnDefV>) -> bool
    decreases e,
{
    match e {
        FilterExprV::Ident(name) => name_pos_rec(defs, name) is Some,
        FilterExprV::Literal(l) => l is Bool,
        FilterExprV::Binary { op: FilterBinaryOp::And, left, right } => expr_ok(*left, defs) && (
        const_of(*left, defs) == Some(false) || expr_ok(*right, defs)),
        FilterExprV::Binary { op: FilterBinaryOp::Or, left, right } => expr_ok(*left, defs) && (
        const_of(*left, defs) == Some(true) || expr_ok(*right, defs)),
        FilterExprV::Binary { op: FilterBinaryOp::Cmp(_), left, right } => {
            match (*left, *right) {
                (FilterExprV::Ident(name), FilterExprV::Literal(l)) => match name_pos_rec(
                    defs,
                    name,
                ) {
                    Some(i) => lit_value(l, defs[i].field_type) is Some,
                    None => false,
                },
                (FilterExprV::Literal(l), FilterExprV::Ident(name)) => match name_pos_rec(
                    defs,
                    name,
                ) {
                    Some(i) => lit_value(l, defs[i].field_type) is Some,
                    None => false,
                },
                (FilterExprV::Literal(l), FilterExprV::Literal(r)) => free_lit_value(l) is Some
                    && free_lit_value(r) is Some,
                (FilterExprV::Ident(ln), FilterExprV::Ident(rn)) => name_pos_rec(defs, ln) is Some
                    && name_pos_rec(defs, rn) is Some,
                _ => false,
            }
        },
        FilterExprV::Binary { op: FilterBinaryOp::Other, .. } => false,
        FilterExprV::Unary { op: FilterUnaryOp::Not, inner } => expr_ok(*inner, defs),
        FilterExprV::Unary { op: FilterUnaryOp::Other, .. } => false,
        FilterExprV::Unsupported(_) => false,
    }
}

/// What a full row satisfies under a predicate expression; meaningful on
/// expressions that compile.
pub open spec fn expr_holds(e: FilterExprV, defs: Seq<ColumnDefV>, row: Seq<ValueV>) -> bool
    decreases e,
{
    match e {
        FilterExprV::Ident(name) => match name_pos_rec(defs, name) {
            Some(i) => !(row[i] == ValueV::Bool(false)),
            None => false,
        },
        FilterExprV::Literal(l) => l matches SqlLitV::Bool(b) && b,
        FilterExprV::Binary { op: FilterBinaryOp::And, left, right } => expr_holds(*left, defs, row)
            && expr_holds(*right, defs, row),
        FilterExprV::Binary { op: FilterBinaryOp::Or, left, right } => expr_holds(*left, defs, row)
            || expr_holds(*right, defs, row),
        FilterExprV::Binary { op: FilterBinaryOp::Cmp(op), left, right } => {
            match (*left, *right) {
                (FilterExprV::Ident(name), FilterExprV::Literal(l)) => match name_pos_rec(
                    defs,
                    name,
                ) {
                    Some(i) => match lit_value(l, defs[i].field_type) {
                        Some(v) => val_matches(row[i], op, v),
                        None => false,
                    },
                    None => false,
                },
                (FilterExprV::Literal(l), FilterExprV::Ident(name)) => match name_pos_rec(
                    defs,
                    name,
                ) {
                    Some(i) => match lit_value(l, defs[i].field_type) {
                        Some(v) => val_matches(v, op, row[i]),
                        None => false,
                    },
                    None => false,
                },
                (FilterExprV::Literal(l), FilterExprV::Literal(r)) => match (
                    free_lit_value(l),
                    free_lit_value(r),
                ) {
                    (Some(lv), Some(rv)) => val_matches(lv, op, rv),
                    _ => false,
                },
                (FilterExprV::Ident(ln), FilterExprV::Ident(rn)) => match (
                    name_pos_rec(defs, ln),
                    name_pos_rec(defs, rn),
                ) {
                    (Some(li), Some(ri)) => val_matches(row[li], op, row[ri]),
                    _ => false,
                },
                _ => false,
            }
        },
        FilterExprV::Unary { op: FilterUnaryOp::Not, inner } => !expr_holds(*inner, defs, row),
        _ => false,
    }
}

impl CompiledFilter {
    /// Compiles a predicate expression into a `CompiledFilter`: resolves
    /// identifiers to column indices, converts literals under the column
    /// types, folds constants, and short-circuits conjunctions and
    /// disjunctions decided by their left side.  The compiled filter
    /// matches exactly the rows the expression does.
    pub fn compile(filter: &FilterExpr, table_column_defs: &Vec<ColumnDef>) -> (r: Result<
        CompiledFilter,
        Error,
    >)
        ensures
            r is Ok <==> expr_ok(expr_view(*filter), table_column_defs.deep_view()),
            r matches Ok(cf) ==> crate::pruning::filter_in_bounds(
                cf,
                table_column_defs@.len() as int,
            ),
            r matches Ok(cf) ==> (match const_of(
                expr_view(*filter),
                table_column_defs.deep_view(),
            ) {
                Some(b) => cf == CompiledFilter::Const(b),
                None => !(cf is Const),
            }),
            r matches Ok(cf) ==> forall|row: Seq<ValueV>|
                row.len() == table_column_defs.deep_view().len() ==> #[trigger] row_filter_holds(
                    cf,
                    row,
                ) == expr_holds(expr_view(*filter), table_column_defs.deep_view(), row),
            r matches Err(e) ==> e is ColumnNotFound || e is UnsupportedFilter
                || e is InvalidSource || e is UnsupportedColumnType,
        decreases filter,
    {
        let ghost dv = table_column_defs.deep_view();
        let ghost ev = expr_view(*filter);
        match filter {
            FilterExpr::Binary { op, left, right } => {
                proof {
                    assert(ev is Binary);
                    assert(ev->Binary_op == *op);
                    assert(*ev->Binary_left == expr_view(**left));
                    assert(*ev->Binary_right == expr_view(**right));
                }
                match op {
                    FilterBinaryOp::And => {
                        let cl = match CompiledFilter::compile(left, table_column_defs) {
                            Err(e) => {
                                return Err(e);
                            },
                            Ok(cl) => cl,
                        };
                        let ghost gcl = cl;
                        let l_false = matches!(cl, CompiledFilter::Const(false));
                        let l_true = matches!(cl, CompiledFilter::Const(true));
                        if l_false {
                            proof {
                                assert(const_of(expr_view(**left), dv) == Some(false));
                                assert(const_of(ev, dv) == Some(false));
                                assert forall|row: Seq<ValueV>| row.len() == dv.len()
                                    implies #[trigger] row_filter_holds(
                                    CompiledFilter::Const(false),
                                    row,
                                ) == expr_holds(ev, dv, row) by {
                                    assert(row_filter_holds(gcl, row) == expr_holds(
                                        expr_view(**left),
                                        dv,
                                        row,
                                    ));
                                }
                            }
                            return Ok(CompiledFilter::Const(false));
                        }
                        let cr = match CompiledFilter::compile(right, table_column_defs) {
                            Err(e) => {
                                proof {
                                    assert(const_of(expr_view(**left), dv) != Some(false));
                                    assert(!expr_ok(ev, dv));
                                }
                                return Err(e);
                            },
                            Ok(cr) => cr,
                        };
                        let ghost gcr = cr;
                        if l_true {
                            proof {
                                assert(const_of(expr_view(**left), dv) == Some(true));
                                assert forall|row: Seq<ValueV>| row.len() == dv.len()
                                    implies #[trigger] row_filter_holds(gcr, row) == expr_holds(
                                    ev,
                                    dv,
                                    row,
                                ) by {
                                    assert(row_filter_holds(gcl, row) == expr_holds(
                                        expr_view(**left),
                                        dv,
                                        row,
                                    ));
                                    assert(row_filter_holds(gcr, row) == expr_holds(
                                        expr_view(**right),
                                        dv,
                                        row,
                                    ));
                                }
                            }
                            return Ok(cr);
                        }
                        proof {
                            assert(!(gcl is Const));
                            assert(const_of(expr_view(**left), dv) is None);
                        }
                        let r_false = matches!(cr, CompiledFilter::Const(false));
                        let r_true = matches!(cr, CompiledFilter::Const(true));
                        if r_false {
                            proof {
                                assert(const_of(expr_view(**right), dv) == Some(false));
                                assert(const_of(ev, dv) == Some(false));
                                assert forall|row: Seq<ValueV>| row.len() == dv.len()
                                    implies #[trigger] row_filter_holds(
                                    CompiledFilter::Const(false),
                                    row,
                                ) == expr_holds(ev, dv, row) by {
                                    assert(row_filter_holds(gcl, row) == expr_holds(
                                        expr_view(**left),
                                        dv,
                                        row,
                                    ));
                                    assert(row_filter_holds(gcr, row) == expr_holds(
                                        expr_view(**right),
                                        dv,
                                        row,
                                    ));
                                }
                            }
                            return Ok(CompiledFilter::Const(false));
                        }
                        if r_true {
                            proof {
                                assert(const_of(expr_view(**right), dv) == Some(true));
                                assert(const_of(ev, dv) is None);
                                assert forall|row: Seq<ValueV>| row.len() == dv.len()
                                    implies #[trigger] row_filter_holds(gcl, row) == expr_holds(
                                    ev,
                                    dv,
                                    row,
                                ) by {
                                    assert(row_filter_holds(gcr, row) == expr_holds(
                                        expr_view(**right),
                                        dv,
                                        row,
                                    ));
                                }
                            }
                            return Ok(cl);
                        }
                        let cf = CompiledFilter::And(Box::new(cl), Box::new(cr));
                        proof {
                            assert(const_of(expr_view(**right), dv) is None);
                            assert(const_of(ev, dv) is None);
                            assert(*cf->And_0 == gcl);
                            assert(*cf->And_1 == gcr);
                            assert forall|c: int| #[trigger] filter_references(cf, c) implies 0
                                <= c < table_column_defs@.len() by {
                                assert(filter_references(gcl, c) || filter_references(gcr, c));
                            }
                            assert forall|row: Seq<ValueV>| row.len() == dv.len()
                                implies #[trigger] row_filter_holds(cf, row) == expr_holds(
                                ev,
                                dv,
                                row,
                            ) by {
                                assert(row_filter_holds(cf, row) == (row_filter_holds(gcl, row)
                                    && row_filter_holds(gcr, row)));
                                assert(row_filter_holds(gcl, row) == expr_holds(
                                    expr_view(**left),
                                    dv,
                                    row,
                                ));
                                assert(row_filter_holds(gcr, row) == expr_holds(
                                    expr_view(**right),
                                    dv,
                                    row,
                                ));
                            }
                        }
                        Ok(cf)
                    },
                    FilterBinaryOp::Or => {
                        let cl = match CompiledFilter::compile(left, table_column_defs) {
                            Err(e) => {
                                return Err(e);
                            },
                            Ok(cl) => cl,
                        };
                        let ghost gcl = cl;
                        let l_false = matches!(cl, CompiledFilter::Const(false));
                        let l_true = matches!(cl, CompiledFilter::Const(true));
                        if l_true {
                            proof {
                                assert(const_of(expr_view(**left), dv) == Some(true));
                                assert(const_of(ev, dv) == Some(true));
                                assert forall|row: Seq<ValueV>| row.len() == dv.len()
                                    implies #[trigger] row_filter_holds(
                                    CompiledFilter::Const(true),
                                    row,
                                ) == expr_holds(ev, dv, row) by {
                                    assert(row_filter_holds(gcl, row) == expr_holds(
                                        expr_view(**left),
                                        dv,
                                        row,
                                    ));
                                }
                            }
                            return Ok(CompiledFilter::Const(true));
                        }
                        let cr = match CompiledFilter::compile(right, table_column_defs) {
                            Err(e) => {
                                proof {
                                    assert(const_of(expr_view(**left), dv) != Some(true));
                                    assert(!expr_ok(ev, dv));
                                }
                                return Err(e);
                            },
                            Ok(cr) => cr,
                        };
                        let ghost gcr = cr;
                        if l_false {
                            proof {
                                assert(const_of(expr_view(**left), dv) == Some(false));
                                assert forall|row: Seq<ValueV>| row.len() == dv.len()
                                    implies #[trigger] row_filter_holds(gcr, row) == expr_holds(
                                    ev,
                                    dv,
                                    row,
                                ) by {
                                    assert(row_filter_holds(gcl, row) == expr_holds(
                                        expr_view(**left),
                                        dv,
                                        row,
                                    ));
                                    assert(row_filter_holds(gcr, row) == expr_holds(
                                        expr_view(**right),
                                        dv,
                                        row,
                                    ));
                                }
                            }
                            return Ok(cr);
                        }
                        proof {
                            assert(!(gcl is Const));
                            assert(const_of(expr_view(**left), dv) is None);
                        }
                        let r_false = matches!(cr, CompiledFilter::Const(false));
                        let r_true = matches!(cr, CompiledFilter::Const(true));
                        if r_true {
                            proof {
                                assert(const_of(expr_view(**right), dv) == Some(true));
                                assert(const_of(ev, dv) == Some(true));
                                assert forall|row: Seq<ValueV>| row.len() == dv.len()
                                    implies #[trigger] row_filter_holds(
                                    CompiledFilter::Const(true),
                                    row,
                                ) == expr_holds(ev, dv, row) by {
                                    assert(row_filter_holds(gcl, row) == expr_holds(
                                        expr_view(**left),
                                        dv,
                                        row,
                                    ));
                                    assert(row_filter_holds(gcr, row) == expr_holds(
                                        expr_view(**right),
                                        dv,
                                        row,
                                    ));
                                }
                            }
                            return Ok(CompiledFilter::Const(true));
                        }
                        if r_false {
                            proof {
                                assert(const_of(expr_view(**right), dv) == Some(false));
                                assert(const_of(ev, dv) is None);
                                assert forall|row: Seq<ValueV>| row.len() == dv.len()
                                    implies #[trigger] row_filter_holds(gcl, row) == expr_holds(
                                    ev,
                                    dv,
                                    row,
                                ) by {
                                    assert(row_filter_holds(gcr, row) == expr_holds(
                                        expr_view(**right),
                                        dv,
                                        row,
                                    ));
                                }
                            }
                            return Ok(cl);
                        }
                        let cf = CompiledFilter::Or(Box::new(cl), Box::new(cr));
                        proof {
                            assert(const_of(expr_view(**right), dv) is None);
                            assert(const_of(ev, dv) is None);
                            assert(*cf->Or_0 == gcl);
                            assert(*cf->Or_1 == gcr);
                            assert forall|c: int| #[trigger] filter_references(cf, c) implies 0
                                <= c < table_column_defs@.len() by {
                                assert(filter_references(gcl, c) || filter_references(gcr, c));
                            }
                            assert forall|row: Seq<ValueV>| row.len() == dv.len()
                                implies #[trigger] row_filter_holds(cf, row) == expr_holds(
                                ev,
                                dv,
                                row,
                            ) by {
                                assert(row_filter_holds(cf, row) == (row_filter_holds(gcl, row)
                                    || row_filter_holds(gcr, row)));
                                assert(row_filter_holds(gcl, row) == expr_holds(
                                    expr_view(**left),
                                    dv,
                                    row,
                                ));
                                assert(row_filter_holds(gcr, row) == expr_holds(
                                    expr_view(**right),
                                    dv,
                                    row,
                                ));
                            }
                        }
                        Ok(cf)
                    },
                    FilterBinaryOp::Cmp(cop) => {
                        match (&**left, &**right) {
                            (FilterExpr::Ident(name), FilterExpr::Literal(lit)) => {
                                proof {
                                    assert(expr_view(**left) == FilterExprV::Ident(name@));
                                    assert(expr_view(**right) == FilterExprV::Literal(lit@));
                                }
                                match crate::storage::def_position_by_name(
                                    table_column_defs,
                                    name.as_str(),
                                ) {
                                    None => {
                                        proof {
                                            lemma_name_pos_rec_char(dv, name@);
                                        }
                                        Err(Error::ColumnNotFound(name.clone()))
                                    },
                                    Some(i) => {
                                        proof {
                                            assert(dv[i as int].name == name@) by {
                                                assert(dv[i as int] == table_column_defs@[
                                                    i as int
                                                ]@);
                                            }
                                            assert forall|j: int| 0 <= j < i implies (
                                            #[trigger] dv[j]).name != name@ by {
                                                assert(dv[j] == table_column_defs@[j]@);
                                            }
                                            lemma_name_pos_bridge(dv, name@, i as int);
                                            assert(dv[i as int] == table_column_defs@[i as int]@);
                                        }
                                        match Value::from_literal(
                                            lit,
                                            &table_column_defs[i].field_type,
                                        ) {
                                            Err(e) => Err(e),
                                            Ok(v) => {
                                                let ghost gv = v@;
                                                let cf = CompiledFilter::Compare {
                                                    col_idx: i,
                                                    op: *cop,
                                                    value: v,
                                                };
                                                proof {
                                                    assert(cf->Compare_value@ == gv);
                                                    assert(lit_value(lit@, dv[i as int].field_type)
                                                        == Some(gv));
                                                    assert(expr_ok(ev, dv));
                                                    assert forall|row: Seq<ValueV>|
                                                        row.len() == dv.len()
                                                        implies #[trigger] row_filter_holds(
                                                        cf,
                                                        row,
                                                    ) == expr_holds(ev, dv, row) by {
                                                        assert(row_filter_holds(cf, row)
                                                            == val_matches(row[i as int], *cop, gv));
                                                    }
                                                }
                                                Ok(cf)
                                            },
                                        }
                                    },
                                }
                            },
                            (FilterExpr::Literal(lit), FilterExpr::Ident(name)) => {
                                proof {
                                    assert(expr_view(**left) == FilterExprV::Literal(lit@));
                                    assert(expr_view(**right) == FilterExprV::Ident(name@));
                                }
                                match crate::storage::def_position_by_name(
                                    table_column_defs,
                                    name.as_str(),
                                ) {
                                    None => {
                                        proof {
                                            lemma_name_pos_rec_char(dv, name@);
                                        }
                                        Err(Error::ColumnNotFound(name.clone()))
                                    },
                                    Some(i) => {
                                        proof {
                                            assert(dv[i as int].name == name@) by {
                                                assert(dv[i as int] == table_column_defs@[
                                                    i as int
                                                ]@);
                                            }
                                            assert forall|j: int| 0 <= j < i implies (
                                            #[trigger] dv[j]).name != name@ by {
                                                assert(dv[j] == table_column_defs@[j]@);
                                            }
                                            lemma_name_pos_bridge(dv, name@, i as int);
                                            assert(dv[i as int] == table_column_defs@[i as int]@);
                                        }
                                        match Value::from_literal(
                                            lit,
                                            &table_column_defs[i].field_type,
                                        ) {
                                            Err(e) => Err(e),
                                            Ok(v) => {
                                                let ghost gv = v@;
                                                let fop = cop.flip();
                                                let cf = CompiledFilter::Compare {
                                                    col_idx: i,
                                                    op: fop,
                                                    value: v,
                                                };
                                                proof {
                                                    assert(cf->Compare_value@ == gv);
                                                    assert(lit_value(lit@, dv[i as int].field_type)
                                                        == Some(gv));
                                                    assert(expr_ok(ev, dv));
                                                    assert forall|row: Seq<ValueV>|
                                                        row.len() == dv.len()
                                                        implies #[trigger] row_filter_holds(
                                                        cf,
                                                        row,
                                                    ) == expr_holds(ev, dv, row) by {
                                                        assert(row_filter_holds(cf, row)
                                                            == val_matches(
                                                            row[i as int],
                                                            flip_op(*cop),
                                                            gv,
                                                        ));
                                                        lemma_flip_matches(
                                                            gv,
                                                            *cop,
                                                            row[i as int],
                                                        );
                                                    }
                                                }
                                                Ok(cf)
                                            },
                                        }
                                    },
                                }
                            },
                            (FilterExpr::Literal(ll), FilterExpr::Literal(rl)) => {
                                proof {
                                    assert(expr_view(**left) == FilterExprV::Literal(ll@));
                                    assert(expr_view(**right) == FilterExprV::Literal(rl@));
                                }
                                let lv = match Value::from_free_literal(ll) {
                                    Err(e) => {
                                        return Err(e);
                                    },
                                    Ok(lv) => lv,
                                };
                                let rv = match Value::from_free_literal(rl) {
                                    Err(e) => {
                                        return Err(e);
                                    },
                                    Ok(rv) => rv,
                                };
                                let b = cmp_vals(&lv, &rv, cop);
                                proof {
                                    assert(free_lit_value(ll@) == Some(lv@));
                                    assert(free_lit_value(rl@) == Some(rv@));
                                    assert(const_of(ev, dv) == Some(b));
                                    assert(expr_ok(ev, dv));
                                    assert forall|row: Seq<ValueV>| row.len() == dv.len()
                                        implies #[trigger] row_filter_holds(
                                        CompiledFilter::Const(b),
                                        row,
                                    ) == expr_holds(ev, dv, row) by {}
                                }
                                Ok(CompiledFilter::Const(b))
                            },
                            (FilterExpr::Ident(ln), FilterExpr::Ident(rn)) => {
                                proof {
                                    assert(expr_view(**left) == FilterExprV::Ident(ln@));
                                    assert(expr_view(**right) == FilterExprV::Ident(rn@));
                                }
                                let li = match crate::storage::def_position_by_name(
                                    table_column_defs,
                                    ln.as_str(),
                                ) {
                                    None => {
                                        proof {
                                            lemma_name_pos_rec_char(dv, ln@);
                                        }
                                        return Err(Error::ColumnNotFound(ln.clone()));
                                    },
                                    Some(li) => li,
                                };
                                let ri = match crate::storage::def_position_by_name(
                                    table_column_defs,
                                    rn.as_str(),
                                ) {
                                    None => {
                                        proof {
                                            lemma_name_pos_rec_char(dv, ln@);
                                            lemma_name_pos_rec_char(dv, rn@);
                                        }
                                        return Err(Error::ColumnNotFound(rn.clone()));
                                    },
                                    Some(ri) => ri,
                                };
                                proof {
                                    assert(dv[li as int].name == ln@) by {
                                        assert(dv[li as int] == table_column_defs@[li as int]@);
                                    }
                                    assert forall|j: int| 0 <= j < li implies (
                                    #[trigger] dv[j]).name != ln@ by {
                                        assert(dv[j] == table_column_defs@[j]@);
                                    }
                                    lemma_name_pos_bridge(dv, ln@, li as int);
                                    assert(dv[ri as int].name == rn@) by {
                                        assert(dv[ri as int] == table_column_defs@[ri as int]@);
                                    }
                                    assert forall|j: int| 0 <= j < ri implies (
                                    #[trigger] dv[j]).name != rn@ by {
                                        assert(dv[j] == table_column_defs@[j]@);
                                    }
                                    lemma_name_pos_bridge(dv, rn@, ri as int);
                                    assert(expr_ok(ev, dv));
                                }
                                Ok(CompiledFilter::CompareColumns {
                                    left_idx: li,
                                    op: *cop,
                                    right_idx: ri,
                                })
                            },
                            _ => Err(Error::InvalidSource(
                                "Unsupported comparison operands in filter".to_owned(),
                            )),
                        }
                    },
                    FilterBinaryOp::Other => Err(Error::UnsupportedFilter(
                        "Unsupported binary operator in filter".to_owned(),
                    )),
                }
            },
            FilterExpr::Unary { op, inner } => {
                proof {
                    assert(ev is Unary);
                    assert(ev->Unary_op == *op);
                    assert(*ev->Unary_inner == expr_view(**inner));
                }
                match op {
                    FilterUnaryOp::Not => {
                        match CompiledFilter::compile(inner, table_column_defs) {
                            Err(e) => Err(e),
                            Ok(ci) => {
                                let ghost gci = ci;
                                let cf = CompiledFilter::Not(Box::new(ci));
                                proof {
                                    assert(*cf->Not_0 == gci);
                                    assert forall|c: int| #[trigger] filter_references(cf, c)
                                        implies 0 <= c < table_column_defs@.len() by {
                                        assert(filter_references(gci, c));
                                    }
                                    assert forall|row: Seq<ValueV>| row.len() == dv.len()
                                        implies #[trigger] row_filter_holds(cf, row)
                                        == expr_holds(ev, dv, row) by {
                                        assert(row_filter_holds(cf, row) == !row_filter_holds(
                                            gci,
                                            row,
                                        ));
                                        assert(row_filter_holds(gci, row) == expr_holds(
                                            expr_view(**inner),
                                            dv,
                                            row,
                                        ));
                                    }
                                }
                                Ok(cf)
                            },
                        }
                    },
                    FilterUnaryOp::Other => Err(Error::InvalidSource(
                        "Currently do not support filters with unary operators except NOT".to_owned(),
                    )),
                }
            },
            FilterExpr::Literal(lit) => {
                proof {
                    assert(ev == FilterExprV::Literal(lit@));
                }
                match lit {
                    SqlLiteral::Boolean(b) => Ok(CompiledFilter::Const(*b)),
                    _ => Err(Error::InvalidSource(
                        "Could not filter on a non-boolean value".to_owned(),
                    )),
                }
            },
            FilterExpr::Ident(name) => {
                proof {
                    assert(ev == FilterExprV::Ident(name@));
                }
                match crate::storage::def_position_by_name(table_column_defs, name.as_str()) {
                    None => {
                        proof {
                            lemma_name_pos_rec_char(dv, name@);
                        }
                        Err(Error::ColumnNotFound(name.clone()))
                    },
                    Some(i) => {
                        proof {
                            assert(dv[i as int].name == name@) by {
                                assert(dv[i as int] == table_column_defs@[i as int]@);
                            }
                            assert forall|j: int| 0 <= j < i implies (#[trigger] dv[j]).name
                                != name@ by {
                                assert(dv[j] == table_column_defs@[j]@);
                            }
                            lemma_name_pos_bridge(dv, name@, i as int);
                        }
                        Ok(CompiledFilter::Column(i))
                    },
                }
            },
            FilterExpr::Unsupported(s) => Err(Error::UnsupportedFilter(s.clone())),
        }
    }
}

} // verus!
