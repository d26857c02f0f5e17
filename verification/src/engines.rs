//! The two merge-policy engines: `MergeTree` sorts rows by the ORDER BY
//! columns; `ReplacingMergeTree` sorts and then deduplicates by PRIMARY KEY,
//! keeping the row that sorted last.

use vstd::prelude::*;

use crate::error::Error;
use crate::storage::{Column, ColumnDef, ColumnDefV, ColumnV};
use crate::value::{compare_values, val_cmp, val_comparable, lemma_val_cmp_eq, lemma_val_cmp_flip,
    lemma_val_cmp_trans, ValOrder, ValueV};

verus! {

/// Used for storing engine name in metadata.
#[derive(Debug, Clone, Copy, PartialEq, Eq, Structural, Hash)]
pub enum EngineName {
    MergeTree,
    ReplacingMergeTree,
}

impl EngineName {
    /// Parses an engine name; anything but the two known names is refused.
    pub fn parse(value: &str) -> (r: Result<EngineName, Error>)
        ensures
            value@ == "MergeTree"@ ==> r == Ok::<EngineName, Error>(EngineName::MergeTree),
            value@ == "ReplacingMergeTree"@ ==> r == Ok::<EngineName, Error>(
                EngineName::ReplacingMergeTree,
            ),
            r is Err <==> value@ != "MergeTree"@ && value@ != "ReplacingMergeTree"@,
            r is Err ==> r == Err::<EngineName, Error>(Error::InvalidEngineName),
            r matches Ok(e) ==> ((e is MergeTree && value@ == "MergeTree"@) || (
            e is ReplacingMergeTree && value@ == "ReplacingMergeTree"@)),
    {
        proof {
            reveal_strlit("MergeTree");
            reveal_strlit("ReplacingMergeTree");
            assert("MergeTree"@.len() == 9);
            assert("ReplacingMergeTree"@.len() == 18);
        }
        if crate::value::str_eq(value, "MergeTree") {
            Ok(EngineName::MergeTree)
        } else if crate::value::str_eq(value, "ReplacingMergeTree") {
            Ok(EngineName::ReplacingMergeTree)
        } else {
            Err(Error::InvalidEngineName)
        }
    }
}

/// Engine configuration.  Used to configure engine before running.
pub struct EngineConfig {}

impl Default for EngineConfig {
    fn default() -> (r: Self) {
        EngineConfig {  }
    }
}

/// Standard engine for most needs: keeps rows sorted ascending by ORDER BY.
pub struct MergeTreeEngine {
    pub config: EngineConfig,
}

impl MergeTreeEngine {
    /// Creates a new `MergeTree` engine with the given configuration.
    pub fn new(config: EngineConfig) -> (r: Self) {
        MergeTreeEngine { config }
    }
}

/// Engine that deduplicates rows with equal PRIMARY KEY values, keeping the
/// newest row.
pub struct ReplacingMergeTreeEngine {
    pub config: EngineConfig,
}

impl ReplacingMergeTreeEngine {
    /// Creates a new `ReplacingMergeTree` engine with the given configuration.
    pub fn new(config: EngineConfig) -> (r: Self) {
        ReplacingMergeTreeEngine { config }
    }
}

/// The row `r` of a column set, as the tuple of its values at the column
/// positions `idxs`.
pub open spec fn tuple_at(cols: Seq<ColumnV>, idxs: Seq<usize>, r: int) -> Seq<ValueV> {
    Seq::new(idxs.len(), |k: int| cols[idxs[k] as int].data[r])
}

/// Lexicographic comparison of two same-length value tuples; positions where
/// the values do not compare are passed over, as they cannot arise under the
/// comparability preconditions used throughout.
pub open spec fn tuple_cmp(a: Seq<ValueV>, b: Seq<ValueV>) -> ValOrder
    decreases a.len(),
{
    if a.len() == 0 || b.len() == 0 {
        ValOrder::Equal
    } else {
        match val_cmp(a[0], b[0]) {
            Some(ValOrder::Less) => ValOrder::Less,
            Some(ValOrder::Greater) => ValOrder::Greater,
            _ => tuple_cmp(a.drop_first(), b.drop_first()),
        }
    }
}

/// Non-strict tuple order.
pub open spec fn tuple_le(a: Seq<ValueV>, b: Seq<ValueV>) -> bool {
    tuple_cmp(a, b) != ValOrder::Greater
}

/// Pairwise comparability of two tuples.
pub open spec fn tuple_comparable(a: Seq<ValueV>, b: Seq<ValueV>) -> bool {
    forall|k: int| 0 <= k < a.len() && k < b.len() ==> val_comparable(a[k], b[k])
}

/// Flipping the arguments of `tuple_cmp` flips the answer.
pub proof fn lemma_tuple_cmp_flip(a: Seq<ValueV>, b: Seq<ValueV>)
    ensures
        tuple_cmp(a, b) == ValOrder::Less <==> tuple_cmp(b, a) == ValOrder::Greater,
        tuple_cmp(a, b) == ValOrder::Equal <==> tuple_cmp(b, a) == ValOrder::Equal,
    decreases a.len(),
{
    if a.len() != 0 && b.len() != 0 {
        lemma_val_cmp_flip(a[0], b[0]);
        lemma_tuple_cmp_flip(a.drop_first(), b.drop_first());
    }
}

/// On same-length comparable tuples, `Equal` means equal value for value.
pub proof fn lemma_tuple_cmp_eq(a: Seq<ValueV>, b: Seq<ValueV>)
    requires
        a.len() == b.len(),
        tuple_comparable(a, b),
    ensures
        (tuple_cmp(a, b) == ValOrder::Equal) <==> a =~= b,
    decreases a.len(),
{
    if a.len() != 0 {
        lemma_val_cmp_eq(a[0], b[0]);
        lemma_tuple_cmp_eq(a.drop_first(), b.drop_first());
        if tuple_cmp(a, b) == ValOrder::Equal {
            assert(val_cmp(a[0], b[0]) == Some(ValOrder::Equal));
            assert(a.drop_first() =~= b.drop_first());
            assert forall|i: int| 0 <= i < a.len() implies a[i] == b[i] by {
                if i > 0 {
                    assert(a.drop_first()[i - 1] == b.drop_first()[i - 1]);
                }
            }
        }
        if a =~= b {
            assert(a.drop_first() =~= b.drop_first());
        }
    }
}

/// Transitivity of the tuple order, strict and non-strict.
pub proof fn lemma_tuple_cmp_trans(a: Seq<ValueV>, b: Seq<ValueV>, c: Seq<ValueV>)
    requires
        a.len() == b.len() == c.len(),
        tuple_comparable(a, b),
        tuple_comparable(b, c),
        tuple_comparable(a, c),
    ensures
        tuple_le(a, b) && tuple_le(b, c) ==> tuple_le(a, c),
        tuple_cmp(a, b) == ValOrder::Less && tuple_le(b, c) ==> tuple_cmp(a, c) == ValOrder::Less,
        tuple_le(a, b) && tuple_cmp(b, c) == ValOrder::Less ==> tuple_cmp(a, c) == ValOrder::Less,
    decreases a.len(),
{
    if a.len() != 0 {
        lemma_val_cmp_trans(a[0], b[0], c[0]);
        lemma_val_cmp_flip(a[0], b[0]);
        lemma_val_cmp_flip(b[0], c[0]);
        lemma_val_cmp_flip(a[0], c[0]);
        lemma_val_cmp_eq(a[0], b[0]);
        lemma_val_cmp_eq(b[0], c[0]);
        assert forall|k: int| 0 <= k < a.drop_first().len() implies val_comparable(
            a.drop_first()[k],
            b.drop_first()[k],
        ) && val_comparable(b.drop_first()[k], c.drop_first()[k]) && val_comparable(
            a.drop_first()[k],
            c.drop_first()[k],
        ) by {
            assert(a.drop_first()[k] == a[k + 1]);
            assert(b.drop_first()[k] == b[k + 1]);
            assert(c.drop_first()[k] == c[k + 1]);
        }
        lemma_tuple_cmp_trans(a.drop_first(), b.drop_first(), c.drop_first());
    }
}

/// A tuple order carries over from a common prefix: where the prefixes
/// already order strictly, so do the whole tuples.
pub proof fn lemma_tuple_cmp_prefix(a: Seq<ValueV>, b: Seq<ValueV>, m: int)
    requires
        0 <= m <= a.len(),
        0 <= m <= b.len(),
    ensures
        tuple_cmp(a.take(m), b.take(m)) == ValOrder::Less ==> tuple_cmp(a, b) == ValOrder::Less,
        tuple_cmp(a.take(m), b.take(m)) == ValOrder::Greater ==> tuple_cmp(a, b)
            == ValOrder::Greater,
    decreases m,
{
    if m > 0 && a.len() != 0 && b.len() != 0 {
        assert(a.take(m)[0] == a[0]);
        assert(b.take(m)[0] == b[0]);
        assert(a.take(m).drop_first() =~= a.drop_first().take(m - 1));
        assert(b.take(m).drop_first() =~= b.drop_first().take(m - 1));
        lemma_tuple_cmp_prefix(a.drop_first(), b.drop_first(), m - 1);
    }
}

/// All values of a column compare with one another (one variant throughout,
/// with nulls allowed anywhere).
pub open spec fn col_self_comparable(vals: Seq<ValueV>) -> bool {
    forall|i: int, j: int|
        0 <= i < vals.len() && 0 <= j < vals.len() ==> val_comparable(
            #[trigger] vals[i],
            #[trigger] vals[j],
        )
}

/// Every column holds one value per row of the set.
pub open spec fn cols_same_len(cols: Seq<ColumnV>, n: nat) -> bool {
    forall|c: int| 0 <= c < cols.len() ==> (#[trigger] cols[c].data).len() == n
}

/// Every column is internally comparable.
pub open spec fn cols_self_comparable(cols: Seq<ColumnV>) -> bool {
    forall|c: int| 0 <= c < cols.len() ==> col_self_comparable((#[trigger] cols[c]).data)
}

/// The positions `idxs` name columns of the set.
pub open spec fn idxs_in_range(idxs: Seq<usize>, width: nat) -> bool {
    forall|k: int| 0 <= k < idxs.len() ==> (#[trigger] idxs[k]) < width
}

/// Rows `a` and `b` compare pairwise on the tuple columns.
pub proof fn lemma_rows_tuple_comparable(cols: Seq<ColumnV>, idxs: Seq<usize>, n: nat, a: int, b: int)
    requires
        cols_same_len(cols, n),
        cols_self_comparable(cols),
        idxs_in_range(idxs, cols.len()),
        0 <= a < n,
        0 <= b < n,
    ensures
        tuple_comparable(tuple_at(cols, idxs, a), tuple_at(cols, idxs, b)),
        tuple_at(cols, idxs, a).len() == idxs.len(),
        tuple_at(cols, idxs, b).len() == idxs.len(),
{
    assert forall|k: int| 0 <= k < idxs.len() implies val_comparable(
        tuple_at(cols, idxs, a)[k],
        tuple_at(cols, idxs, b)[k],
    ) by {
        assert(cols[idxs[k] as int].data.len() == n);
        assert(val_comparable(cols[idxs[k] as int].data[a], cols[idxs[k] as int].data[b]));
    }
}

/// Compares the rows `a` and `b` on the tuple columns `idxs`.
fn compare_rows(cols: &Vec<Column>, idxs: &Vec<usize>, a: usize, b: usize) -> (r: ValOrder)
    requires
        idxs_in_range(idxs@, cols@.len() as nat),
        forall|c: int| 0 <= c < cols@.len() ==> a < (#[trigger] cols.deep_view()[c].data).len(),
        forall|c: int| 0 <= c < cols@.len() ==> b < (#[trigger] cols.deep_view()[c].data).len(),
        cols_self_comparable(cols.deep_view()),
    ensures
        r == tuple_cmp(
            tuple_at(cols.deep_view(), idxs@, a as int),
            tuple_at(cols.deep_view(), idxs@, b as int),
        ),
{
    let ghost ta = tuple_at(cols.deep_view(), idxs@, a as int);
    let ghost tb = tuple_at(cols.deep_view(), idxs@, b as int);
    let mut k: usize = 0;
    proof {
        assert(ta.skip(0) =~= ta);
        assert(tb.skip(0) =~= tb);
    }
    while k < idxs.len()
        invariant
            k <= idxs@.len(),
            ta.len() == idxs@.len() && tb.len() == idxs@.len(),
            ta =~= tuple_at(cols.deep_view(), idxs@, a as int),
            tb =~= tuple_at(cols.deep_view(), idxs@, b as int),
            tuple_cmp(ta, tb) == tuple_cmp(ta.skip(k as int), tb.skip(k as int)),
            idxs_in_range(idxs@, cols@.len() as nat),
            forall|c: int| 0 <= c < cols@.len() ==> a < (#[trigger] cols.deep_view()[c].data).len(),
            forall|c: int| 0 <= c < cols@.len() ==> b < (#[trigger] cols.deep_view()[c].data).len(),
            cols_self_comparable(cols.deep_view()),
        decreases idxs@.len() - k,
    {
        let c = idxs[k];
        let va = &cols[c].data[a];
        let vb = &cols[c].data[b];
        proof {
            assert(cols.deep_view()[c as int].data[a as int] == va@);
            assert(cols.deep_view()[c as int].data[b as int] == vb@);
            assert(ta.skip(k as int)[0] == ta[k as int]);
            assert(tb.skip(k as int)[0] == tb[k as int]);
            assert(ta[k as int] == va@);
            assert(tb[k as int] == vb@);
            assert(val_comparable(va@, vb@));
            assert(ta.skip(k as int).drop_first() =~= ta.skip(k as int + 1));
            assert(tb.skip(k as int).drop_first() =~= tb.skip(k as int + 1));
        }
        match compare_values(va, vb) {
            Some(o) => {
                if matches!(o, ValOrder::Less) {
                    return ValOrder::Less;
                }
                if matches!(o, ValOrder::Greater) {
                    return ValOrder::Greater;
                }
            },
            None => {
                proof {
                    assert(false);
                }
            },
        }
        k += 1;
    }
    proof {
        assert(ta.skip(idxs@.len() as int).len() == 0);
    }
    ValOrder::Equal
}


/// The first position in `perm` whose row is strictly greater than row `i`,
/// or the length of `perm` where none is.
fn find_insert_pos(
    cols: &Vec<Column>,
    idxs: &Vec<usize>,
    perm: &Vec<usize>,
    i: usize,
    n: usize,
    Ghost(cv): Ghost<Seq<ColumnV>>,
) -> (pos: usize)
    requires
        cv == cols.deep_view(),
        cols_same_len(cv, n as nat),
        idxs_in_range(idxs@, cols@.len() as nat),
        cols_self_comparable(cv),
        i < n,
        forall|k: int| 0 <= k < perm@.len() ==> (#[trigger] perm@[k]) < n,
    ensures
        pos <= perm@.len(),
        forall|k: int|
            0 <= k < pos ==> tuple_cmp(
                tuple_at(cv, idxs@, #[trigger] perm@[k] as int),
                tuple_at(cv, idxs@, i as int),
            ) != ValOrder::Greater,
        pos < perm@.len() ==> tuple_cmp(
            tuple_at(cv, idxs@, perm@[pos as int] as int),
            tuple_at(cv, idxs@, i as int),
        ) == ValOrder::Greater,
{
    let mut pos: usize = 0;
    while pos < perm.len()
        invariant
            pos <= perm@.len(),
            forall|k: int|
                0 <= k < pos ==> tuple_cmp(
                    tuple_at(cv, idxs@, #[trigger] perm@[k] as int),
                    tuple_at(cv, idxs@, i as int),
                ) != ValOrder::Greater,
            cv == cols.deep_view(),
            cols_same_len(cv, n as nat),
            idxs_in_range(idxs@, cols@.len() as nat),
            cols_self_comparable(cv),
            i < n,
            forall|k: int| 0 <= k < perm@.len() ==> (#[trigger] perm@[k]) < n,
        decreases perm@.len() - pos,
    {
        let o = compare_rows(cols, idxs, perm[pos], i);
        if matches!(o, ValOrder::Greater) {
            return pos;
        }
        pos += 1;
    }
    pos
}

/// A permutation of the row positions `0 .. n`.
pub open spec fn is_row_perm(perm: Seq<usize>, n: nat) -> bool {
    &&& perm.len() == n
    &&& forall|k: int| 0 <= k < perm.len() ==> (#[trigger] perm[k]) < n
    &&& forall|k1: int, k2: int|
        0 <= k1 < perm.len() && 0 <= k2 < perm.len() && k1 != k2 ==> #[trigger] perm[k1]
            != #[trigger] perm[k2]
}

/// Rows listed by `perm` are sorted ascending on the tuple columns `idxs`;
/// ties keep their original relative order.
pub open spec fn perm_sorted(cols: Seq<ColumnV>, idxs: Seq<usize>, perm: Seq<usize>) -> bool {
    forall|p: int, q: int|
        0 <= p < q < perm.len() ==> tuple_le(
            tuple_at(cols, idxs, #[trigger] perm[p] as int),
            tuple_at(cols, idxs, #[trigger] perm[q] as int),
        )
}

/// Ties keep their original relative order under `perm`: a stable sort.
pub open spec fn perm_stable(cols: Seq<ColumnV>, idxs: Seq<usize>, perm: Seq<usize>) -> bool {
    forall|p: int, q: int|
        0 <= p < q < perm.len() && tuple_cmp(
            tuple_at(cols, idxs, #[trigger] perm[p] as int),
            tuple_at(cols, idxs, #[trigger] perm[q] as int),
        ) == ValOrder::Equal ==> perm[p] < perm[q]
}

/// Sorts the row positions `0 .. n` ascending by the tuple columns `idxs`,
/// stably: rows with equal tuples keep their original order.
#[verifier::rlimit(100)]
#[verifier::spinoff_prover]
fn sort_row_perm(cols: &Vec<Column>, idxs: &Vec<usize>, n: usize) -> (perm: Vec<usize>)
    requires
        cols_same_len(cols.deep_view(), n as nat),
        idxs_in_range(idxs@, cols@.len() as nat),
        cols_self_comparable(cols.deep_view()),
    ensures
        is_row_perm(perm@, n as nat),
        perm_sorted(cols.deep_view(), idxs@, perm@),
        perm_stable(cols.deep_view(), idxs@, perm@),
{
    let ghost cv = cols.deep_view();
    let mut perm: Vec<usize> = Vec::new();
    let mut i: usize = 0;
    while i < n
        invariant
            i <= n,
            perm@.len() == i,
            forall|k: int| 0 <= k < perm@.len() ==> (#[trigger] perm@[k]) < i,
            forall|k1: int, k2: int|
                0 <= k1 < perm@.len() && 0 <= k2 < perm@.len() && k1 != k2 ==> #[trigger] perm@[k1]
                    != #[trigger] perm@[k2],
            perm_sorted(cv, idxs@, perm@),
            perm_stable(cv, idxs@, perm@),
            cv == cols.deep_view(),
            cols_same_len(cv, n as nat),
            idxs_in_range(idxs@, cols@.len() as nat),
            cols_self_comparable(cv),
        decreases n - i,
    {
        let pos = find_insert_pos(cols, idxs, &perm, i, n, Ghost(cv));
        let ghost pre = perm@;
        perm.insert(pos, i);
        proof {
            let post = perm@;
            assert(post =~= pre.take(pos as int) + seq![i] + pre.skip(pos as int));
            // bounds and injectivity
            assert forall|k: int| 0 <= k < post.len() implies (#[trigger] post[k]) < i + 1 by {
                if k < pos {
                    assert(post[k] == pre[k]);
                } else if k > pos {
                    assert(post[k] == pre[k - 1]);
                }
            }
            assert forall|k1: int, k2: int|
                0 <= k1 < post.len() && 0 <= k2 < post.len() && k1 != k2 implies #[trigger] post[k1]
                != #[trigger] post[k2] by {
                let a1 = if k1 < pos { pre[k1] } else if k1 == pos { i } else { pre[k1 - 1] };
                let a2 = if k2 < pos { pre[k2] } else if k2 == pos { i } else { pre[k2 - 1] };
                assert(post[k1] == a1);
                assert(post[k2] == a2);
            }
            // sortedness and stability
            assert forall|p: int, q: int| 0 <= p < q < post.len() implies tuple_le(
                tuple_at(cv, idxs@, #[trigger] post[p] as int),
                tuple_at(cv, idxs@, #[trigger] post[q] as int),
            ) && (tuple_cmp(
                tuple_at(cv, idxs@, post[p] as int),
                tuple_at(cv, idxs@, post[q] as int),
            ) == ValOrder::Equal ==> post[p] < post[q]) by {
                let ti = tuple_at(cv, idxs@, i as int);
                if p == pos && q > pos {
                    // i inserted before a strictly greater row
                    let rq = pre[q - 1];
                    assert(post[q] == rq);
                    if pos < pre.len() {
                        let rp0 = pre[pos as int];
                        assert(tuple_cmp(tuple_at(cv, idxs@, rp0 as int), ti) == ValOrder::Greater);
                        lemma_tuple_cmp_flip(tuple_at(cv, idxs@, rp0 as int), ti);
                        lemma_rows_tuple_comparable(cv, idxs@, n as nat, i as int, rp0 as int);
                        lemma_rows_tuple_comparable(cv, idxs@, n as nat, rp0 as int, rq as int);
                        lemma_rows_tuple_comparable(cv, idxs@, n as nat, i as int, rq as int);
                        if q - 1 > pos {
                            assert(tuple_le(
                                tuple_at(cv, idxs@, rp0 as int),
                                tuple_at(cv, idxs@, rq as int),
                            ));
                        } else {
                            lemma_tuple_cmp_eq(
                                tuple_at(cv, idxs@, rp0 as int),
                                tuple_at(cv, idxs@, rq as int),
                            );
                        }
                        lemma_tuple_cmp_trans(
                            ti,
                            tuple_at(cv, idxs@, rp0 as int),
                            tuple_at(cv, idxs@, rq as int),
                        );
                    }
                } else if q == pos && p < pos {
                    let rp = pre[p];
                    assert(post[p] == rp);
                    assert(tuple_cmp(tuple_at(cv, idxs@, rp as int), ti) != ValOrder::Greater);
                } else if p < pos && q > pos {
                    assert(post[p] == pre[p]);
                    assert(post[q] == pre[q - 1]);
                } else if p < pos && q < pos {
                    assert(post[p] == pre[p]);
                    assert(post[q] == pre[q]);
                } else if p > pos && q > pos {
                    assert(post[p] == pre[p - 1]);
                    assert(post[q] == pre[q - 1]);
                }
            }
        }
        i += 1;
    }
    perm
}

/// Copies a column, reordering its rows by `sel`: row `k` of the result is
/// row `sel[k]` of the input.
fn gather_column(col: &Column, sel: &Vec<usize>) -> (r: Column)
    requires
        forall|k: int| 0 <= k < sel@.len() ==> (#[trigger] sel@[k] as int) < col@.data.len(),
    ensures
        r@.column_def == col@.column_def,
        r@.data.len() == sel@.len(),
        forall|k: int| 0 <= k < sel@.len() ==> r@.data[k] == col@.data[#[trigger] sel@[k] as int],
{
    let mut data: Vec<crate::value::Value> = Vec::new();
    let mut k: usize = 0;
    while k < sel.len()
        invariant
            k <= sel@.len(),
            data@.len() == k,
            forall|j: int| 0 <= j < sel@.len() ==> (#[trigger] sel@[j] as int) < col@.data.len(),
            forall|j: int|
                0 <= j < k ==> data.deep_view()[j] == col@.data[#[trigger] sel@[j] as int],
        decreases sel@.len() - k,
    {
        let v = col.data[sel[k]].clone();
        proof {
            assert(v@ == col@.data[sel@[k as int] as int]);
        }
        data.push(v);
        k += 1;
    }
    Column { column_def: col.column_def.clone(), data }
}

/// `oidx` lists, for each definition, the first column of `cols` bearing its
/// name.
pub open spec fn are_name_positions(
    cols: Seq<ColumnV>,
    defs: Seq<ColumnDefV>,
    oidx: Seq<usize>,
) -> bool {
    &&& oidx.len() == defs.len()
    &&& forall|k: int|
        0 <= k < oidx.len() ==> (#[trigger] oidx[k]) < cols.len() && cols[oidx[k] as int].column_def.name
            == defs[k].name
    &&& forall|k: int, j: int|
        0 <= k < oidx.len() && 0 <= j < oidx[k] ==> (#[trigger] cols[j]).column_def.name != (
        #[trigger] defs[k]).name
}

/// Some definition's name appears on no column.
pub open spec fn some_name_missing(cols: Seq<ColumnV>, defs: Seq<ColumnDefV>) -> bool {
    exists|k: int|
        0 <= k < defs.len() && forall|c: int|
            0 <= c < cols.len() ==> (#[trigger] cols[c]).column_def.name != (#[trigger] defs[k]).name
}

/// `idxs` lists, for each definition present in `cols`, the first column
/// equal to it; absent definitions are passed over.
pub open spec fn are_def_positions_skipping(
    cols: Seq<ColumnV>,
    defs: Seq<ColumnDefV>,
    idxs: Seq<usize>,
) -> bool
    decreases defs.len(),
{
    if defs.len() == 0 {
        idxs.len() == 0
    } else {
        if exists|c: int| 0 <= c < cols.len() && (#[trigger] cols[c]).column_def == defs[0] {
            &&& idxs.len() > 0
            &&& idxs[0] < cols.len()
            &&& cols[idxs[0] as int].column_def == defs[0]
            &&& forall|j: int| 0 <= j < idxs[0] ==> (#[trigger] cols[j]).column_def != defs[0]
            &&& are_def_positions_skipping(cols, defs.drop_first(), idxs.drop_first())
        } else {
            are_def_positions_skipping(cols, defs.drop_first(), idxs)
        }
    }
}

/// Position `p` of the sorted permutation survives the deduplication by the
/// primary-key columns `pidx`: it is the last of its run of equal keys.
pub open spec fn kept_after_dedup(
    cv: Seq<ColumnV>,
    pidx: Seq<usize>,
    perm: Seq<usize>,
    p: int,
) -> bool {
    p == perm.len() - 1 || tuple_cmp(
        tuple_at(cv, pidx, perm[p] as int),
        tuple_at(cv, pidx, perm[p + 1] as int),
    ) != ValOrder::Equal
}

/// `sel` lists exactly the positions of `perm` that survive deduplication,
/// in order.
pub open spec fn is_dedup_selection(
    cv: Seq<ColumnV>,
    pidx: Seq<usize>,
    perm: Seq<usize>,
    sel: Seq<usize>,
) -> bool {
    &&& forall|s: int|
        0 <= s < sel.len() ==> (#[trigger] sel[s]) < perm.len() && kept_after_dedup(
            cv,
            pidx,
            perm,
            sel[s] as int,
        )
    &&& forall|s1: int, s2: int| 0 <= s1 < s2 < sel.len() ==> sel[s1] < sel[s2]
    &&& forall|p: int|
        0 <= p < perm.len() && kept_after_dedup(cv, pidx, perm, p) ==> exists|s: int|
            0 <= s < sel.len() && sel[s] == p
}

/// The `MergeTree` result: the same column definitions, the rows a sorted
/// permutation of the input rows, stably ordered by the ORDER BY tuple.
pub open spec fn merge_tree_ordered(
    cv: Seq<ColumnV>,
    order_defs: Seq<ColumnDefV>,
    out: Seq<ColumnV>,
) -> bool {
    exists|perm: Seq<usize>, oidx: Seq<usize>|
        {
            &&& are_name_positions(cv, order_defs, oidx)
            &&& is_row_perm(perm, cv[0].data.len())
            &&& out.len() == cv.len()
            &&& forall|c: int| 0 <= c < out.len() ==> (#[trigger] out[c]).column_def == cv[c].column_def
            &&& forall|c: int|
                0 <= c < out.len() ==> (#[trigger] out[c]).data.len() == perm.len()
            &&& forall|c: int, k: int|
                0 <= c < out.len() && 0 <= k < perm.len() ==> (#[trigger] out[c].data[k]) == cv[c].data[
                    perm[k] as int
                ]
            &&& perm_sorted(cv, oidx, perm)
            &&& perm_stable(cv, oidx, perm)
        }
}

/// The `ReplacingMergeTree` result: the rows of the stably sorted input with
/// every run of equal PRIMARY KEY tuples collapsed to its last row.  It
/// constrains the result only where every ORDER BY and PRIMARY KEY column is
/// present in the input.
pub open spec fn replacing_ordered(
    cv: Seq<ColumnV>,
    order_defs: Seq<ColumnDefV>,
    pk_defs: Seq<ColumnDefV>,
    out: Seq<ColumnV>,
) -> bool {
    exists|perm: Seq<usize>, oidx: Seq<usize>, pidx: Seq<usize>, sel: Seq<usize>|
        {
            &&& are_def_positions_skipping(cv, order_defs, oidx)
            &&& are_def_positions_skipping(cv, pk_defs, pidx)
            &&& is_row_perm(perm, cv[0].data.len())
            &&& perm_sorted(cv, oidx, perm)
            &&& perm_stable(cv, oidx, perm)
            &&& is_dedup_selection(cv, pidx, perm, sel)
            &&& out.len() == cv.len()
            &&& forall|c: int| 0 <= c < out.len() ==> (#[trigger] out[c]).column_def == cv[c].column_def
            &&& forall|c: int| 0 <= c < out.len() ==> (#[trigger] out[c]).data.len() == sel.len()
            &&& forall|c: int, s: int|
                0 <= c < out.len() && 0 <= s < sel.len() ==> (#[trigger] out[c].data[s]) == cv[c].data[
                    perm[sel[s] as int] as int
                ]
        }
}

impl MergeTreeEngine {
    /// Orders columns by sorting rows according to ORDER BY column
    /// definitions, matched by name.
    pub fn order_columns(
        &self,
        columns: Vec<Column>,
        order_by: &Vec<ColumnDef>,
        _primary_key: &Vec<ColumnDef>,
    ) -> (r: Result<Vec<Column>, Error>)
        requires
            cols_self_comparable(columns.deep_view()),
        ensures
            r == Err::<Vec<Column>, Error>(Error::NoColumnsSpecified) <==> columns@.len() == 0
                || order_by@.len() == 0,
            r == Err::<Vec<Column>, Error>(Error::InvalidColumnsSpecified) <==> columns@.len() > 0
                && order_by@.len() > 0 && (!cols_same_len(
                columns.deep_view(),
                columns.deep_view()[0].data.len(),
            ) || some_name_missing(columns.deep_view(), order_by.deep_view())),
            r matches Err(e) ==> e == Error::NoColumnsSpecified || e
                == Error::InvalidColumnsSpecified,
            r is Err <==> columns@.len() == 0 || order_by@.len() == 0 || !cols_same_len(
                columns.deep_view(),
                columns.deep_view()[0].data.len(),
            ) || some_name_missing(columns.deep_view(), order_by.deep_view()),
            r matches Ok(out) ==> merge_tree_ordered(
                columns.deep_view(),
                order_by.deep_view(),
                out.deep_view(),
            ),
            r matches Ok(out) ==> cols_self_comparable(out.deep_view()) && out.deep_view().len()
                == columns.deep_view().len() && (forall|c: int|
                0 <= c < out.deep_view().len() ==> (#[trigger] out.deep_view()[c]).column_def
                    == columns.deep_view()[c].column_def) && (out.deep_view().len() > 0
                ==> cols_same_len(out.deep_view(), out.deep_view()[0].data.len())),
    {
        let ghost cv = columns.deep_view();
        if order_by.len() == 0 || columns.len() == 0 {
            return Err(Error::NoColumnsSpecified);
        }
        let row_count = columns[0].data.len();
        proof {
            assert(cv[0].data.len() == row_count);
        }
        let mut c: usize = 0;
        while c < columns.len()
            invariant
                c <= columns@.len(),
                cv == columns.deep_view(),
                0 < columns@.len(),
                0 < order_by@.len(),
                row_count == cv[0].data.len(),
                forall|j: int| 0 <= j < c ==> (#[trigger] cv[j].data).len() == row_count,
            decreases columns@.len() - c,
        {
            if columns[c].data.len() != row_count {
                proof {
                    assert(cv[c as int].data.len() != cv[0].data.len());
                    assert(!cols_same_len(cv, cv[0].data.len()));
                }
                return Err(Error::InvalidColumnsSpecified);
            }
            c += 1;
        }
        proof {
            assert(cols_same_len(cv, row_count as nat));
        }
        let mut order_idxs: Vec<usize> = Vec::new();
        let mut k: usize = 0;
        while k < order_by.len()
            invariant
                k <= order_by@.len(),
                cv == columns.deep_view(),
                0 < columns@.len(),
                0 < order_by@.len(),
                cols_same_len(cv, row_count as nat),
                row_count == cv[0].data.len(),
                order_idxs@.len() == k,
                forall|j: int|
                    0 <= j < k ==> (#[trigger] order_idxs@[j]) < cv.len() && cv[order_idxs@[j] as int].column_def.name
                        == order_by.deep_view()[j].name,
                forall|j: int, l: int|
                    0 <= j < k && 0 <= l < order_idxs@[j] ==> (#[trigger] cv[l]).column_def.name
                        != (#[trigger] order_by.deep_view()[j]).name,
            decreases order_by@.len() - k,
        {
            match crate::storage::position_by_name(&columns, order_by[k].name.as_str()) {
                Some(idx) => {
                    order_idxs.push(idx);
                },
                None => {
                    proof {
                        assert(forall|c2: int|
                            0 <= c2 < cv.len() ==> (#[trigger] cv[c2]).column_def.name
                                != order_by.deep_view()[k as int].name);
                        assert(some_name_missing(cv, order_by.deep_view()));
                    }
                    return Err(Error::InvalidColumnsSpecified);
                },
            }
            k += 1;
        }
        proof {
            assert(are_name_positions(cv, order_by.deep_view(), order_idxs@));
            assert forall|k2: int| 0 <= k2 < order_by.deep_view().len() implies !(forall|c3: int|
                0 <= c3 < cv.len() ==> (#[trigger] cv[c3]).column_def.name != (
                #[trigger] order_by.deep_view()[k2]).name) by {
                let w = order_idxs@[k2] as int;
                assert(cv[w].column_def.name == order_by.deep_view()[k2].name);
            }
            assert(!some_name_missing(cv, order_by.deep_view()));
        }
        let perm = sort_row_perm(&columns, &order_idxs, row_count);
        let mut out: Vec<Column> = Vec::new();
        let mut c2: usize = 0;
        while c2 < columns.len()
            invariant
                c2 <= columns@.len(),
                cv == columns.deep_view(),
                0 < columns@.len(),
                0 < order_by@.len(),
                row_count == cv[0].data.len(),
                cols_same_len(cv, row_count as nat),
                is_row_perm(perm@, row_count as nat),
                perm_sorted(cv, order_idxs@, perm@),
                perm_stable(cv, order_idxs@, perm@),
                are_name_positions(cv, order_by.deep_view(), order_idxs@),
                out@.len() == c2,
                forall|j: int|
                    0 <= j < c2 ==> (#[trigger] out.deep_view()[j]).column_def == cv[j].column_def,
                forall|j: int|
                    0 <= j < c2 ==> (#[trigger] out.deep_view()[j]).data.len() == perm@.len(),
                forall|j: int, l: int|
                    0 <= j < c2 && 0 <= l < perm@.len() ==> (#[trigger] out.deep_view()[j].data[l])
                        == cv[j].data[perm@[l] as int],
            decreases columns@.len() - c2,
        {
            proof {
                assert(cv[c2 as int].data.len() == row_count);
                assert(columns@[c2 as int]@ == cv[c2 as int]);
            }
            let g = gather_column(&columns[c2], &perm);
            let ghost gv = g@;
            let ghost pre_out = out@;
            let ghost pre_deep = out.deep_view();
            out.push(g);
            proof {
                assert(out@ == pre_out.push(g));
                assert forall|j: int| 0 <= j < c2 implies out.deep_view()[j] == pre_deep[j] by {
                    assert(out@[j] == pre_out[j]);
                }
                assert(out.deep_view()[c2 as int] == gv);
                assert(gv.column_def == cv[c2 as int].column_def);
                assert(gv.data.len() == perm@.len());
                assert forall|j: int| 0 <= j <= c2 implies (#[trigger] out.deep_view()[j]).column_def
                    == cv[j].column_def && (#[trigger] out.deep_view()[j]).data.len()
                    == perm@.len() by {
                    if j < c2 {
                        assert(out.deep_view()[j] == pre_deep[j]);
                    } else {
                        assert(out.deep_view()[j] == gv);
                    }
                }
                assert forall|j: int, l: int|
                    0 <= j <= c2 && 0 <= l < perm@.len() implies (#[trigger] out.deep_view()[j].data[l])
                    == cv[j].data[perm@[l] as int] by {
                    if j < c2 {
                        assert(out.deep_view()[j] == pre_deep[j]);
                    } else {
                        assert(out.deep_view()[j] == gv);
                        assert(gv.data[l] == cv[c2 as int].data[perm@[l] as int]);
                    }
                }
            }
            c2 += 1;
        }
        proof {
            assert(merge_tree_ordered(cv, order_by.deep_view(), out.deep_view())) by {
                let witness_perm = perm@;
                let witness_oidx = order_idxs@;
                assert(are_name_positions(cv, order_by.deep_view(), witness_oidx));
                assert(is_row_perm(witness_perm, cv[0].data.len()));
            }
            let ov = out.deep_view();
            assert forall|c3: int, i: int, j: int|
                0 <= c3 < ov.len() && 0 <= i < ov[c3].data.len() && 0 <= j
                    < ov[c3].data.len() implies val_comparable(
                #[trigger] ov[c3].data[i],
                #[trigger] ov[c3].data[j],
            ) by {
                assert(ov[c3].data[i] == cv[c3].data[perm@[i] as int]);
                assert(ov[c3].data[j] == cv[c3].data[perm@[j] as int]);
            }
        }
        Ok(out)
    }
}

/// Extends a skipping resolution by one more definition.
proof fn lemma_def_positions_snoc(
    cols: Seq<ColumnV>,
    defs: Seq<ColumnDefV>,
    idxs: Seq<usize>,
    d: ColumnDefV,
    found: Option<usize>,
)
    requires
        are_def_positions_skipping(cols, defs, idxs),
        match found {
            Some(i) => i < cols.len() && cols[i as int].column_def == d && forall|j: int|
                0 <= j < i ==> (#[trigger] cols[j]).column_def != d,
            None => forall|c: int| 0 <= c < cols.len() ==> (#[trigger] cols[c]).column_def != d,
        },
    ensures
        match found {
            Some(i) => are_def_positions_skipping(cols, defs.push(d), idxs.push(i)),
            None => are_def_positions_skipping(cols, defs.push(d), idxs),
        },
    decreases defs.len(),
{
    let defs2 = defs.push(d);
    if defs.len() == 0 {
        assert(defs2[0] == d);
        assert(defs2.drop_first() =~= Seq::<ColumnDefV>::empty());
        match found {
            Some(i) => {
                let idxs2 = idxs.push(i);
                assert(idxs.len() == 0);
                assert(idxs2[0] == i);
                assert(idxs2.drop_first() =~= Seq::<usize>::empty());
                assert(exists|c: int|
                    0 <= c < cols.len() && (#[trigger] cols[c]).column_def == defs2[0]);
                assert(are_def_positions_skipping(cols, defs2.drop_first(), idxs2.drop_first()));
                assert(are_def_positions_skipping(cols, defs2, idxs2));
            },
            None => {
                if exists|c: int| 0 <= c < cols.len() && (#[trigger] cols[c]).column_def == defs2[0] {
                    let w = choose|c: int|
                        0 <= c < cols.len() && (#[trigger] cols[c]).column_def == defs2[0];
                    assert(cols[w].column_def != d);
                    assert(false);
                }
                assert(are_def_positions_skipping(cols, defs2.drop_first(), idxs));
                assert(are_def_positions_skipping(cols, defs2, idxs));
            },
        }
    } else {
        assert(defs2[0] == defs[0]);
        assert(defs2.drop_first() =~= defs.drop_first().push(d));
        if exists|c: int| 0 <= c < cols.len() && (#[trigger] cols[c]).column_def == defs[0] {
            lemma_def_positions_snoc(cols, defs.drop_first(), idxs.drop_first(), d, found);
            assert(exists|c: int|
                0 <= c < cols.len() && (#[trigger] cols[c]).column_def == defs2[0]);
            match found {
                Some(i) => {
                    let idxs2 = idxs.push(i);
                    assert(idxs2.drop_first() =~= idxs.drop_first().push(i));
                    assert(idxs2[0] == idxs[0]);
                    assert(are_def_positions_skipping(cols, defs2.drop_first(), idxs2.drop_first()));
                    assert(idxs2.len() > 0);
                    assert(idxs2[0] < cols.len());
                    assert(cols[idxs2[0] as int].column_def == defs2[0]);
                    assert(forall|j: int|
                        0 <= j < idxs2[0] ==> (#[trigger] cols[j]).column_def != defs2[0]);
                    assert(are_def_positions_skipping(cols, defs2, idxs2));
                },
                None => {
                    assert(are_def_positions_skipping(cols, defs2.drop_first(), idxs.drop_first()));
                    assert(are_def_positions_skipping(cols, defs2, idxs));
                },
            }
        } else {
            lemma_def_positions_snoc(cols, defs.drop_first(), idxs, d, found);
            if exists|c: int| 0 <= c < cols.len() && (#[trigger] cols[c]).column_def == defs2[0] {
                match found {
                    Some(i) => {
                        let idxs2 = idxs.push(i);
                        assert(idxs2.drop_first() =~= idxs.drop_first().push(i));
                    },
                    None => {},
                }
                assert(false);
            }
            match found {
                Some(i) => {
                    assert(are_def_positions_skipping(cols, defs2.drop_first(), idxs.push(i)));
                    assert(are_def_positions_skipping(cols, defs2, idxs.push(i)));
                },
                None => {
                    assert(are_def_positions_skipping(cols, defs2.drop_first(), idxs));
                    assert(are_def_positions_skipping(cols, defs2, idxs));
                },
            }
        }
    }
}

/// Resolves each definition to the first equal column, passing over absent
/// definitions.
fn resolve_defs_skipping(columns: &Vec<Column>, defs: &Vec<ColumnDef>) -> (idxs: Vec<usize>)
    ensures
        are_def_positions_skipping(columns.deep_view(), defs.deep_view(), idxs@),
        forall|k: int| 0 <= k < idxs@.len() ==> (#[trigger] idxs@[k]) < columns@.len(),
{
    let ghost cv = columns.deep_view();
    let mut idxs: Vec<usize> = Vec::new();
    let mut k: usize = 0;
    proof {
        assert(defs.deep_view().take(0) =~= Seq::<ColumnDefV>::empty());
    }
    while k < defs.len()
        invariant
            k <= defs@.len(),
            cv == columns.deep_view(),
            are_def_positions_skipping(cv, defs.deep_view().take(k as int), idxs@),
            forall|j: int| 0 <= j < idxs@.len() ==> (#[trigger] idxs@[j]) < columns@.len(),
        decreases defs@.len() - k,
    {
        let ghost pre = idxs@;
        let r = crate::storage::position_by_def(columns, &defs[k]);
        proof {
            let d = defs.deep_view()[k as int];
            assert(defs@[k as int]@ == d);
            match r {
                Some(i) => {
                    lemma_def_positions_snoc(cv, defs.deep_view().take(k as int), pre, d, Some(i));
                },
                None => {
                    lemma_def_positions_snoc(cv, defs.deep_view().take(k as int), pre, d, None);
                },
            }
            assert(defs.deep_view().take(k + 1) =~= defs.deep_view().take(k as int).push(d));
        }
        match r {
            Some(i) => {
                idxs.push(i);
                proof {
                    assert(idxs@ =~= pre.push(i));
                }
            },
            None => {},
        }
        k += 1;
    }
    proof {
        assert(defs.deep_view().take(defs@.len() as int) =~= defs.deep_view());
    }
    idxs
}

/// Lists the positions of the sorted permutation that survive deduplication
/// by the key columns `pidx`: the last of each run of equal key tuples.
fn dedup_positions(
    cols: &Vec<Column>,
    pidx: &Vec<usize>,
    perm: &Vec<usize>,
    n: usize,
    Ghost(cv): Ghost<Seq<ColumnV>>,
) -> (sel: Vec<usize>)
    requires
        cv == cols.deep_view(),
        cols_same_len(cv, n as nat),
        idxs_in_range(pidx@, cols@.len() as nat),
        cols_self_comparable(cv),
        is_row_perm(perm@, n as nat),
    ensures
        is_dedup_selection(cv, pidx@, perm@, sel@),
        forall|s: int| 0 <= s < sel@.len() ==> (#[trigger] sel@[s]) < perm@.len(),
{
    let mut sel: Vec<usize> = Vec::new();
    let mut p: usize = 0;
    while p < perm.len()
        invariant
            p <= perm@.len(),
            cv == cols.deep_view(),
            cols_same_len(cv, n as nat),
            idxs_in_range(pidx@, cols@.len() as nat),
            cols_self_comparable(cv),
            is_row_perm(perm@, n as nat),
            forall|s: int|
                0 <= s < sel@.len() ==> (#[trigger] sel@[s]) < p && kept_after_dedup(
                    cv,
                    pidx@,
                    perm@,
                    sel@[s] as int,
                ),
            forall|s1: int, s2: int| 0 <= s1 < s2 < sel@.len() ==> sel@[s1] < sel@[s2],
            forall|q: int|
                0 <= q < p && kept_after_dedup(cv, pidx@, perm@, q) ==> exists|s: int|
                    0 <= s < sel@.len() && sel@[s] == q,
        decreases perm@.len() - p,
    {
        let keep: bool = if p + 1 >= perm.len() {
            true
        } else {
            let o = compare_rows(cols, pidx, perm[p], perm[p + 1]);
            !matches!(o, ValOrder::Equal)
        };
        let ghost pre = sel@;
        if keep {
            sel.push(p);
            proof {
                assert(sel@ =~= pre.push(p));
            }
        }
        proof {
            assert forall|q: int|
                0 <= q < p + 1 && kept_after_dedup(cv, pidx@, perm@, q) implies exists|s: int|
                0 <= s < sel@.len() && sel@[s] == q by {
                if q < p {
                    let s0 = choose|s: int| 0 <= s < pre.len() && pre[s] == q;
                    assert(sel@[s0] == q);
                } else {
                    assert(keep);
                    assert(sel@[sel@.len() - 1] == q);
                }
            }
        }
        p += 1;
    }
    sel
}

impl ReplacingMergeTreeEngine {
    /// Orders columns and deduplicates rows by PRIMARY KEY, keeping the
    /// latest row of each run of equal keys in the sorted order.
    pub fn order_columns(
        &self,
        columns: Vec<Column>,
        order_by: &Vec<ColumnDef>,
        primary_key: &Vec<ColumnDef>,
    ) -> (r: Result<Vec<Column>, Error>)
        requires
            cols_self_comparable(columns.deep_view()),
        ensures
            r == Err::<Vec<Column>, Error>(Error::NoColumnsSpecified) <==> columns@.len() == 0,
            r == Err::<Vec<Column>, Error>(Error::InvalidColumnsSpecified) <==> columns@.len() > 0
                && !cols_same_len(columns.deep_view(), columns.deep_view()[0].data.len()),
            r is Err <==> columns@.len() == 0 || !cols_same_len(
                columns.deep_view(),
                columns.deep_view()[0].data.len(),
            ),
            r matches Err(e) ==> e == Error::NoColumnsSpecified || e
                == Error::InvalidColumnsSpecified,
            r matches Ok(out) ==> replacing_ordered(
                columns.deep_view(),
                order_by.deep_view(),
                primary_key.deep_view(),
                out.deep_view(),
            ),
            r matches Ok(out) ==> cols_self_comparable(out.deep_view()) && out.deep_view().len()
                == columns.deep_view().len() && (forall|c: int|
                0 <= c < out.deep_view().len() ==> (#[trigger] out.deep_view()[c]).column_def
                    == columns.deep_view()[c].column_def) && (out.deep_view().len() > 0
                ==> cols_same_len(out.deep_view(), out.deep_view()[0].data.len())),
    {
        let ghost cv = columns.deep_view();
        if columns.len() == 0 {
            return Err(Error::NoColumnsSpecified);
        }
        let row_count = columns[0].data.len();
        proof {
            assert(cv[0].data.len() == row_count);
        }
        let mut c: usize = 0;
        while c < columns.len()
            invariant
                c <= columns@.len(),
                cv == columns.deep_view(),
                0 < columns@.len(),
                row_count == cv[0].data.len(),
                forall|j: int| 0 <= j < c ==> (#[trigger] cv[j].data).len() == row_count,
            decreases columns@.len() - c,
        {
            if columns[c].data.len() != row_count {
                proof {
                    assert(cv[c as int].data.len() != cv[0].data.len());
                    assert(!cols_same_len(cv, cv[0].data.len()));
                }
                return Err(Error::InvalidColumnsSpecified);
            }
            c += 1;
        }
        proof {
            assert(cols_same_len(cv, row_count as nat));
        }
        let order_idxs = resolve_defs_skipping(&columns, order_by);
        let pk_idxs = resolve_defs_skipping(&columns, primary_key);
        let perm = sort_row_perm(&columns, &order_idxs, row_count);
        let sel = dedup_positions(&columns, &pk_idxs, &perm, row_count, Ghost(cv));
        let mut rowids: Vec<usize> = Vec::new();
        let mut s: usize = 0;
        while s < sel.len()
            invariant
                s <= sel@.len(),
                rowids@.len() == s,
                is_row_perm(perm@, row_count as nat),
                forall|j: int| 0 <= j < sel@.len() ==> (#[trigger] sel@[j]) < perm@.len(),
                forall|j: int|
                    0 <= j < s ==> (#[trigger] rowids@[j]) == perm@[sel@[j] as int],
                forall|j: int| 0 <= j < s ==> (#[trigger] rowids@[j]) < row_count,
            decreases sel@.len() - s,
        {
            rowids.push(perm[sel[s]]);
            s += 1;
        }
        let mut out: Vec<Column> = Vec::new();
        let mut c2: usize = 0;
        while c2 < columns.len()
            invariant
                c2 <= columns@.len(),
                cv == columns.deep_view(),
                0 < columns@.len(),
                row_count == cv[0].data.len(),
                cols_same_len(cv, row_count as nat),
                rowids@.len() == sel@.len(),
                forall|j: int| 0 <= j < rowids@.len() ==> (#[trigger] rowids@[j]) < row_count,
                forall|j: int|
                    0 <= j < rowids@.len() ==> (#[trigger] rowids@[j]) == perm@[sel@[j] as int],
                out@.len() == c2,
                forall|j: int|
                    0 <= j < c2 ==> (#[trigger] out.deep_view()[j]).column_def == cv[j].column_def,
                forall|j: int|
                    0 <= j < c2 ==> (#[trigger] out.deep_view()[j]).data.len() == sel@.len(),
                forall|j: int, l: int|
                    0 <= j < c2 && 0 <= l < sel@.len() ==> (#[trigger] out.deep_view()[j].data[l])
                        == cv[j].data[perm@[sel@[l] as int] as int],
            decreases columns@.len() - c2,
        {
            proof {
                assert(cv[c2 as int].data.len() == row_count);
                assert(columns@[c2 as int]@ == cv[c2 as int]);
            }
            let g = gather_column(&columns[c2], &rowids);
            let ghost gv = g@;
            let ghost pre_out = out@;
            let ghost pre_deep = out.deep_view();
            out.push(g);
            proof {
                assert(out@ == pre_out.push(g));
                assert(out.deep_view()[c2 as int] == gv);
                assert forall|j: int| 0 <= j <= c2 implies (#[trigger] out.deep_view()[j]).column_def
                    == cv[j].column_def && (#[trigger] out.deep_view()[j]).data.len()
                    == sel@.len() by {
                    if j < c2 {
                        assert(out.deep_view()[j] == pre_deep[j]);
                    } else {
                        assert(out.deep_view()[j] == gv);
                    }
                }
                assert forall|j: int, l: int|
                    0 <= j <= c2 && 0 <= l < sel@.len() implies (#[trigger] out.deep_view()[j].data[l])
                    == cv[j].data[perm@[sel@[l] as int] as int] by {
                    if j < c2 {
                        assert(out.deep_view()[j] == pre_deep[j]);
                    } else {
                        assert(out.deep_view()[j] == gv);
                        assert(gv.data[l] == cv[c2 as int].data[rowids@[l] as int]);
                    }
                }
            }
            c2 += 1;
        }
        proof {
            assert(replacing_ordered(cv, order_by.deep_view(), primary_key.deep_view(), out.deep_view())) by {
                let wperm = perm@;
                let woidx = order_idxs@;
                let wpidx = pk_idxs@;
                let wsel = sel@;
                assert(are_def_positions_skipping(cv, order_by.deep_view(), woidx));
                assert(are_def_positions_skipping(cv, primary_key.deep_view(), wpidx));
                assert(is_row_perm(wperm, cv[0].data.len()));
                assert(is_dedup_selection(cv, wpidx, wperm, wsel));
            }
            let ov = out.deep_view();
            assert forall|c3: int, i: int, j: int|
                0 <= c3 < ov.len() && 0 <= i < ov[c3].data.len() && 0 <= j
                    < ov[c3].data.len() implies val_comparable(
                #[trigger] ov[c3].data[i],
                #[trigger] ov[c3].data[j],
            ) by {
                assert(ov[c3].data[i] == cv[c3].data[perm@[sel@[i] as int] as int]);
                assert(ov[c3].data[j] == cv[c3].data[perm@[sel@[j] as int] as int]);
            }
        }
        Ok(out)
    }
}

impl EngineName {
    /// Runs the named engine's `order_columns`: the tagged-variant dispatch
    /// used by the insert path and the scan's ordering step.
    pub fn order_columns(
        &self,
        columns: Vec<Column>,
        order_by: &Vec<ColumnDef>,
        primary_key: &Vec<ColumnDef>,
    ) -> (r: Result<Vec<Column>, Error>)
        requires
            cols_self_comparable(columns.deep_view()),
        ensures
            self is MergeTree ==> (r matches Ok(out) ==> merge_tree_ordered(
                columns.deep_view(),
                order_by.deep_view(),
                out.deep_view(),
            )),
            self is MergeTree ==> (r is Err <==> columns@.len() == 0 || order_by@.len() == 0
                || !cols_same_len(columns.deep_view(), columns.deep_view()[0].data.len())
                || some_name_missing(columns.deep_view(), order_by.deep_view())),
            self is ReplacingMergeTree ==> (r matches Ok(out) ==> replacing_ordered(
                columns.deep_view(),
                order_by.deep_view(),
                primary_key.deep_view(),
                out.deep_view(),
            )),
            self is ReplacingMergeTree ==> (r is Err <==> columns@.len() == 0 || !cols_same_len(
                columns.deep_view(),
                columns.deep_view()[0].data.len(),
            )),
            r matches Err(e) ==> e == Error::NoColumnsSpecified || e
                == Error::InvalidColumnsSpecified,
            r matches Ok(out) ==> cols_self_comparable(out.deep_view()) && out.deep_view().len()
                == columns.deep_view().len() && (forall|c: int|
                0 <= c < out.deep_view().len() ==> (#[trigger] out.deep_view()[c]).column_def
                    == columns.deep_view()[c].column_def) && (out.deep_view().len() > 0
                ==> cols_same_len(out.deep_view(), out.deep_view()[0].data.len())),
    {
        match self {
            EngineName::MergeTree => MergeTreeEngine::new(EngineConfig {  }).order_columns(
                columns,
                order_by,
                primary_key,
            ),
            EngineName::ReplacingMergeTree => ReplacingMergeTreeEngine::new(
                EngineConfig {  },
            ).order_columns(columns, order_by, primary_key),
        }
    }
}

/// The primary-key tuple of a prefix is ordered wherever the full ORDER BY
/// tuple is: rows sorted by ORDER BY are grouped by a prefix PRIMARY KEY.
proof fn lemma_pk_le_of_order_le(
    cv: Seq<ColumnV>,
    oidx: Seq<usize>,
    pidx: Seq<usize>,
    n: nat,
    a: int,
    b: int,
)
    requires
        pidx =~= oidx.take(pidx.len() as int),
        pidx.len() <= oidx.len(),
        cols_same_len(cv, n),
        cols_self_comparable(cv),
        idxs_in_range(oidx, cv.len()),
        0 <= a < n,
        0 <= b < n,
        tuple_le(tuple_at(cv, oidx, a), tuple_at(cv, oidx, b)),
    ensures
        tuple_le(tuple_at(cv, pidx, a), tuple_at(cv, pidx, b)),
{
    let ta = tuple_at(cv, oidx, a);
    let tb = tuple_at(cv, oidx, b);
    let m = pidx.len() as int;
    assert(tuple_at(cv, pidx, a) =~= ta.take(m));
    assert(tuple_at(cv, pidx, b) =~= tb.take(m));
    lemma_tuple_cmp_prefix(ta, tb, m);
}

/// The rows of a `ReplacingMergeTree` result carry pairwise distinct
/// primary-key tuples, provided the primary key is a prefix of ORDER BY.
pub proof fn lemma_replacing_unique_keys(
    cv: Seq<ColumnV>,
    oidx: Seq<usize>,
    pidx: Seq<usize>,
    perm: Seq<usize>,
    sel: Seq<usize>,
    n: nat,
    s1: int,
    s2: int,
)
    requires
        pidx =~= oidx.take(pidx.len() as int),
        pidx.len() <= oidx.len(),
        cols_same_len(cv, n),
        cols_self_comparable(cv),
        idxs_in_range(oidx, cv.len()),
        is_row_perm(perm, n),
        perm_sorted(cv, oidx, perm),
        is_dedup_selection(cv, pidx, perm, sel),
        0 <= s1 < s2 < sel.len(),
    ensures
        tuple_at(cv, pidx, perm[sel[s1] as int] as int) != tuple_at(
            cv,
            pidx,
            perm[sel[s2] as int] as int,
        ),
{
    let p1 = sel[s1] as int;
    let p2 = sel[s2] as int;
    assert(p1 < p2);
    let r1 = perm[p1] as int;
    let rm = perm[p1 + 1] as int;
    let r2 = perm[p2] as int;
    let k1 = tuple_at(cv, pidx, r1);
    let km = tuple_at(cv, pidx, rm);
    let k2 = tuple_at(cv, pidx, r2);
    if k1 == k2 {
        // p1 is kept and is not the last position, so its key differs from
        // the next row's; but the next row's key is sandwiched between two
        // equal keys.
        assert(kept_after_dedup(cv, pidx, perm, p1));
        assert(tuple_cmp(k1, km) != ValOrder::Equal);
        assert(tuple_le(tuple_at(cv, oidx, r1), tuple_at(cv, oidx, rm)));
        lemma_pk_le_of_order_le(cv, oidx, pidx, n, r1, rm);
        if p1 + 1 < p2 {
            assert(tuple_le(tuple_at(cv, oidx, rm), tuple_at(cv, oidx, r2)));
            lemma_pk_le_of_order_le(cv, oidx, pidx, n, rm, r2);
        } else {
            lemma_rows_tuple_comparable(cv, pidx, n, rm, r2);
            lemma_tuple_cmp_eq(km, k2);
        }
        lemma_rows_tuple_comparable(cv, pidx, n, r1, rm);
        lemma_rows_tuple_comparable(cv, pidx, n, rm, r2);
        lemma_rows_tuple_comparable(cv, pidx, n, r1, r2);
        lemma_rows_tuple_comparable(cv, pidx, n, rm, r1);
        // k1 <= km <= k2 == k1, so km == k1, contradicting the kept test
        lemma_tuple_cmp_trans(km, k2, k1);
        assert(tuple_le(km, k1));
        lemma_tuple_cmp_flip(k1, km);
        lemma_tuple_cmp_eq(k1, km);
        assert(false);
    }
}

/// Every surviving row of a `ReplacingMergeTree` result is the one that
/// sorted last among the input rows sharing its primary-key tuple: any such
/// row sits at or before it in the sorted order, and orders at or below it.
pub proof fn lemma_replacing_survivor_latest(
    cv: Seq<ColumnV>,
    oidx: Seq<usize>,
    pidx: Seq<usize>,
    perm: Seq<usize>,
    sel: Seq<usize>,
    n: nat,
    s: int,
    p: int,
)
    requires
        pidx =~= oidx.take(pidx.len() as int),
        pidx.len() <= oidx.len(),
        cols_same_len(cv, n),
        cols_self_comparable(cv),
        idxs_in_range(oidx, cv.len()),
        is_row_perm(perm, n),
        perm_sorted(cv, oidx, perm),
        is_dedup_selection(cv, pidx, perm, sel),
        0 <= s < sel.len(),
        0 <= p < perm.len(),
        tuple_at(cv, pidx, perm[p] as int) =~= tuple_at(cv, pidx, perm[sel[s] as int] as int),
    ensures
        p <= sel[s],
        tuple_le(
            tuple_at(cv, oidx, perm[p] as int),
            tuple_at(cv, oidx, perm[sel[s] as int] as int),
        ),
{
    let p1 = sel[s] as int;
    let r1 = perm[p1] as int;
    let r2 = perm[p] as int;
    let k1 = tuple_at(cv, pidx, r1);
    let k2 = tuple_at(cv, pidx, r2);
    if p > p1 {
        assert(kept_after_dedup(cv, pidx, perm, p1));
        let rm = perm[p1 + 1] as int;
        let km = tuple_at(cv, pidx, rm);
        assert(tuple_cmp(k1, km) != ValOrder::Equal);
        assert(tuple_le(tuple_at(cv, oidx, r1), tuple_at(cv, oidx, rm)));
        lemma_pk_le_of_order_le(cv, oidx, pidx, n, r1, rm);
        if p1 + 1 < p {
            assert(tuple_le(tuple_at(cv, oidx, rm), tuple_at(cv, oidx, r2)));
            lemma_pk_le_of_order_le(cv, oidx, pidx, n, rm, r2);
        } else {
            lemma_rows_tuple_comparable(cv, pidx, n, rm, r2);
            lemma_tuple_cmp_eq(km, k2);
        }
        lemma_rows_tuple_comparable(cv, pidx, n, r1, rm);
        lemma_rows_tuple_comparable(cv, pidx, n, rm, r2);
        lemma_rows_tuple_comparable(cv, pidx, n, r1, r2);
        lemma_rows_tuple_comparable(cv, pidx, n, rm, r1);
        lemma_tuple_cmp_trans(km, k2, k1);
        assert(tuple_le(km, k1));
        lemma_tuple_cmp_flip(k1, km);
        lemma_tuple_cmp_eq(k1, km);
        assert(false);
    }
    if p < p1 {
        assert(tuple_le(tuple_at(cv, oidx, r2), tuple_at(cv, oidx, r1)));
    } else {
        lemma_rows_tuple_comparable(cv, oidx, n, r2, r2);
        lemma_tuple_cmp_eq(tuple_at(cv, oidx, r2), tuple_at(cv, oidx, r2));
    }
}

} // verus!
