//! The scan's per-granule compute and its ordered post-processing: decode,
//! filter, project, order, and apply offset and limit.

use vstd::prelude::*;

use crate::codec::dec_values;
use crate::compression::{decompressed, CompressionType};
use crate::engines::{cols_same_len, cols_self_comparable, merge_tree_ordered, replacing_ordered,
    EngineName};
use crate::error::Error;
use crate::filter::{eval_filter_vectorized, row_matches, CompiledFilter, GranuleColumns};
use crate::part::granule_read;
use crate::storage::{defs_contain, Column, ColumnDef, ColumnDefV, ColumnV};
use crate::value::{Value, ValueV};

verus! {

/// One ordering stage: the named engine's `order_columns` result.
pub open spec fn stage_ordered(
    cv: Seq<ColumnV>,
    defs: Seq<ColumnDefV>,
    engine: EngineName,
    pk: Seq<ColumnDefV>,
    out: Seq<ColumnV>,
) -> bool {
    match engine {
        EngineName::MergeTree => merge_tree_ordered(cv, defs, out),
        EngineName::ReplacingMergeTree => replacing_ordered(cv, defs, pk, out),
    }
}

/// The column set after the ordering stages of a scan, one per ORDER BY
/// list, applied left to right.
pub open spec fn ordered_stages(
    cv: Seq<ColumnV>,
    lists: Seq<Seq<ColumnDefV>>,
    engine: EngineName,
    pk: Seq<ColumnDefV>,
    out: Seq<ColumnV>,
) -> bool
    decreases lists.len(),
{
    if lists.len() == 0 {
        out == cv
    } else {
        exists|mid: Seq<ColumnV>|
            #[trigger] stage_ordered(cv, lists[0], engine, pk, mid) && ordered_stages(
                mid,
                lists.drop_first(),
                engine,
                pk,
                out,
            )
    }
}

/// Chains one more ordering stage onto a finished run of stages.
proof fn lemma_ordered_stages_snoc(
    cv: Seq<ColumnV>,
    lists: Seq<Seq<ColumnDefV>>,
    engine: EngineName,
    pk: Seq<ColumnDefV>,
    mid: Seq<ColumnV>,
    l: Seq<ColumnDefV>,
    out: Seq<ColumnV>,
)
    requires
        ordered_stages(cv, lists, engine, pk, mid),
        stage_ordered(mid, l, engine, pk, out),
    ensures
        ordered_stages(cv, lists.push(l), engine, pk, out),
    decreases lists.len(),
{
    if lists.len() == 0 {
        assert(lists.push(l)[0] == l);
        assert(lists.push(l).drop_first() =~= Seq::<Seq<ColumnDefV>>::empty());
        assert(stage_ordered(cv, lists.push(l)[0], engine, pk, out));
        assert(ordered_stages(out, lists.push(l).drop_first(), engine, pk, out));
    } else {
        let mid0 = choose|mid0: Seq<ColumnV>|
            #[trigger] stage_ordered(cv, lists[0], engine, pk, mid0) && ordered_stages(
                mid0,
                lists.drop_first(),
                engine,
                pk,
                mid,
            );
        lemma_ordered_stages_snoc(mid0, lists.drop_first(), engine, pk, mid, l, out);
        assert(lists.push(l)[0] == lists[0]);
        assert(lists.push(l).drop_first() =~= lists.drop_first().push(l));
        assert(stage_ordered(cv, lists.push(l)[0], engine, pk, mid0));
    }
}

/// `sel` lists, in order, exactly the columns whose definition occurs in
/// the projection, and the output holds those columns' rows `off .. end`.
pub open spec fn is_projection_slice(
    sorted: Seq<ColumnV>,
    projection: Seq<ColumnDefV>,
    off: int,
    end: int,
    out: Seq<ColumnV>,
    sel: Seq<int>,
) -> bool {
    &&& forall|s: int|
        0 <= s < sel.len() ==> 0 <= #[trigger] sel[s] < sorted.len() && (exists|j: int|
            0 <= j < projection.len() && #[trigger] projection[j] == sorted[sel[s]].column_def)
    &&& forall|s1: int, s2: int| 0 <= s1 < s2 < sel.len() ==> sel[s1] < sel[s2]
    &&& forall|c: int|
        0 <= c < sorted.len() && (exists|j: int|
            0 <= j < projection.len() && #[trigger] projection[j] == (
            #[trigger] sorted[c]).column_def) ==> exists|s: int| 0 <= s < sel.len() && sel[s] == c
    &&& out.len() == sel.len()
    &&& forall|s: int|
        0 <= s < out.len() ==> (#[trigger] out[s]).column_def == sorted[sel[s]].column_def
            && out[s].data == sorted[sel[s]].data.subrange(off, end)
}

/// The scan's tail as one statement: some ordering of the input by the
/// ORDER BY lists, projected to the requested columns and cut to the page
/// `offset .. offset + limit`.  All returned columns share the one length
/// `end - off`, at most `limit` rows come back, and an offset at or past
/// the row count returns none.
pub open spec fn post_processed(
    cv: Seq<ColumnV>,
    lists: Seq<Seq<ColumnDefV>>,
    engine: EngineName,
    pk: Seq<ColumnDefV>,
    projection: Seq<ColumnDefV>,
    limit: Option<u64>,
    offset: u64,
    out: Seq<ColumnV>,
) -> bool {
    exists|sorted: Seq<ColumnV>, sel: Seq<int>, off: int, end: int|
        {
            let n = if sorted.len() == 0 {
                0int
            } else {
                sorted[0].data.len() as int
            };
            &&& ordered_stages(cv, lists, engine, pk, sorted)
            &&& off == (if offset <= n {
                offset as int
            } else {
                n
            })
            &&& end == (match limit {
                Some(l) => if off + l <= n {
                    off + l
                } else {
                    n
                },
                None => n,
            })
            &&& #[trigger] is_projection_slice(sorted, projection, off, end, out, sel)
            &&& forall|c: int| 0 <= c < out.len() ==> (#[trigger] out[c]).data.len() == end - off
            &&& (match limit {
                Some(l) => end - off <= l,
                None => true,
            })
            &&& (offset >= n ==> end - off == 0)
        }
}

/// Orders, projects and pages a scan result: re-sorts by each ORDER BY list
/// with the table's engine, keeps the projection columns, then applies the
/// offset and the limit.
pub fn apply_post_processing(
    result: Vec<Column>,
    order_by: Option<&Vec<Vec<ColumnDef>>>,
    engine_name: &EngineName,
    pk_col_defs: &Vec<ColumnDef>,
    columns_to_read: &Vec<ColumnDef>,
    limit: Option<u64>,
    offset: u64,
) -> (r: Result<Vec<Column>, Error>)
    requires
        cols_self_comparable(result.deep_view()),
        result@.len() > 0 ==> cols_same_len(result.deep_view(), result.deep_view()[0].data.len()),
    ensures
        r matches Ok(out) ==> post_processed(
            result.deep_view(),
            match order_by {
                Some(lists) => lists.deep_view(),
                None => Seq::empty(),
            },
            *engine_name,
            pk_col_defs.deep_view(),
            columns_to_read.deep_view(),
            limit,
            offset,
            out.deep_view(),
        ),
        r matches Err(e) ==> e == Error::NoColumnsSpecified || e
            == Error::InvalidColumnsSpecified,
{
    let ghost cv0 = result.deep_view();
    let mut sorted_cols = result;
    let ghost lists: Seq<Seq<ColumnDefV>> = match order_by {
        Some(lists) => lists.deep_view(),
        None => Seq::empty(),
    };
    proof {
        assert(lists.take(0) =~= Seq::<Seq<ColumnDefV>>::empty());
        assert(ordered_stages(cv0, lists.take(0), *engine_name, pk_col_defs.deep_view(), cv0));
    }
    if let Some(sort_lists) = order_by {
        let mut k: usize = 0;
        while k < sort_lists.len()
            invariant
                k <= sort_lists@.len(),
                lists == sort_lists.deep_view(),
                lists.len() == sort_lists@.len(),
                ordered_stages(
                    cv0,
                    lists.take(k as int),
                    *engine_name,
                    pk_col_defs.deep_view(),
                    sorted_cols.deep_view(),
                ),
                cols_self_comparable(sorted_cols.deep_view()),
                sorted_cols@.len() > 0 ==> cols_same_len(
                    sorted_cols.deep_view(),
                    sorted_cols.deep_view()[0].data.len(),
                ),
            decreases sort_lists@.len() - k,
        {
            let ghost pre = sorted_cols.deep_view();
            proof {
                assert(sort_lists@[k as int].deep_view() == lists[k as int]);
            }
            let staged = engine_name.order_columns(sorted_cols, &sort_lists[k], pk_col_defs);
            sorted_cols = match staged {
                Err(e) => {
                    return Err(e);
                },
                Ok(s) => s,
            };
            proof {
                assert(stage_ordered(
                    pre,
                    lists[k as int],
                    *engine_name,
                    pk_col_defs.deep_view(),
                    sorted_cols.deep_view(),
                ));
                lemma_ordered_stages_snoc(
                    cv0,
                    lists.take(k as int),
                    *engine_name,
                    pk_col_defs.deep_view(),
                    pre,
                    lists[k as int],
                    sorted_cols.deep_view(),
                );
                assert(lists.take(k + 1) =~= lists.take(k as int).push(lists[k as int]));
            }
            k += 1;
        }
        proof {
            assert(lists.take(sort_lists@.len() as int) =~= lists);
        }
    }
    let ghost sorted_v = sorted_cols.deep_view();
    let row_count = if sorted_cols.len() == 0 {
        0
    } else {
        sorted_cols[0].data.len()
    };
    let off = if offset <= row_count as u64 {
        offset as usize
    } else {
        row_count
    };
    let end = match limit {
        Some(l) => {
            if l <= (row_count - off) as u64 {
                off + (l as usize)
            } else {
                row_count
            }
        },
        None => row_count,
    };
    let mut out: Vec<Column> = Vec::new();
    let mut sel: Vec<usize> = Vec::new();
    let mut c: usize = 0;
    while c < sorted_cols.len()
        invariant
            c <= sorted_cols@.len(),
            sorted_v == sorted_cols.deep_view(),
            sorted_cols@.len() > 0 ==> cols_same_len(sorted_v, sorted_v[0].data.len()),
            row_count == (if sorted_v.len() == 0 {
                0int
            } else {
                sorted_v[0].data.len() as int
            }),
            off <= end <= row_count,
            out@.len() == sel@.len(),
            forall|s: int|
                0 <= s < sel@.len() ==> (#[trigger] sel@[s]) < c && (exists|j: int|
                    0 <= j < columns_to_read.deep_view().len()
                        && #[trigger] columns_to_read.deep_view()[j] == sorted_v[sel@[s] as int].column_def),
            forall|s1: int, s2: int| 0 <= s1 < s2 < sel@.len() ==> sel@[s1] < sel@[s2],
            forall|c2: int|
                0 <= c2 < c && (exists|j: int|
                    0 <= j < columns_to_read.deep_view().len()
                        && #[trigger] columns_to_read.deep_view()[j] == (
                    #[trigger] sorted_v[c2]).column_def) ==> exists|s: int|
                    0 <= s < sel@.len() && sel@[s] == c2,
            forall|s: int|
                0 <= s < out@.len() ==> (#[trigger] out.deep_view()[s]).column_def == sorted_v[
                    sel@[s] as int
                ].column_def && out.deep_view()[s].data =~= sorted_v[sel@[s] as int].data.subrange(
                    off as int,
                    end as int,
                ),
        decreases sorted_cols@.len() - c,
    {
        let ghost sel_at_entry = sel@;
        let wanted = defs_contain(columns_to_read, &sorted_cols[c].column_def);
        proof {
            assert(sorted_cols@[c as int]@ == sorted_v[c as int]);
        }
        if wanted {
            proof {
                assert(sorted_v[c as int].data.len() == row_count);
                assert(sorted_cols@[c as int].data@.len() == sorted_v[c as int].data.len());
            }
            let mut data: Vec<Value> = Vec::new();
            let mut i: usize = off;
            while i < end
                invariant
                    off <= i <= end <= sorted_cols@.len() * 0 + row_count,
                    c < sorted_cols@.len(),
                    sorted_v == sorted_cols.deep_view(),
                    row_count <= sorted_v[c as int].data.len(),
                    data@.len() == i - off,
                    data.deep_view() =~= sorted_v[c as int].data.subrange(off as int, i as int),
                decreases end - i,
            {
                proof {
                    assert(sorted_cols@[c as int].data@.len() == sorted_cols@[c as int]@.data.len());
                    assert(sorted_cols@[c as int]@ == sorted_v[c as int]);
                }
                let ghost pre_data = data.deep_view();
                let v = sorted_cols[c].data[i].clone();
                proof {
                    assert(v@ == sorted_v[c as int].data[i as int]);
                }
                data.push(v);
                proof {
                    assert forall|l: int| 0 <= l < data.deep_view().len() implies data.deep_view()[l]
                        == sorted_v[c as int].data.subrange(off as int, i + 1)[l] by {
                        if l < pre_data.len() {
                            assert(data.deep_view()[l] == pre_data[l]);
                        } else {
                            assert(data.deep_view()[l] == v@);
                        }
                    }
                    assert(data.deep_view() =~= sorted_v[c as int].data.subrange(
                        off as int,
                        i + 1,
                    ));
                }
                i += 1;
            }
            let col = Column { column_def: sorted_cols[c].column_def.clone(), data };
            let ghost gcol = col@;
            let ghost pre_out = out.deep_view();
            let ghost pre_sel = sel@;
            out.push(col);
            sel.push(c);
            proof {
                assert(sel@ =~= pre_sel.push(c));
                assert(out.deep_view()[pre_out.len() as int] == gcol);
                assert forall|s: int| 0 <= s < out@.len() implies (
                #[trigger] out.deep_view()[s]).column_def == sorted_v[sel@[s] as int].column_def
                    && out.deep_view()[s].data =~= sorted_v[sel@[s] as int].data.subrange(
                    off as int,
                    end as int,
                ) by {
                    if s < pre_out.len() {
                        assert(out.deep_view()[s] == pre_out[s]);
                        assert(sel@[s] == pre_sel[s]);
                    } else {
                        assert(out.deep_view()[s] == gcol);
                        assert(sel@[s] == c);
                    }
                }
                let w = choose|j: int|
                    0 <= j < columns_to_read@.len() && columns_to_read@[j]@ == sorted_cols@[
                        c as int
                    ].column_def@;
                assert(columns_to_read.deep_view()[w] == sorted_v[c as int].column_def);
            }
        }
        proof {
            if !wanted {
                assert forall|j: int|
                    0 <= j < columns_to_read.deep_view().len() implies #[trigger] columns_to_read.deep_view()[j]
                    != sorted_v[c as int].column_def by {
                    assert(columns_to_read@[j]@ != sorted_cols@[c as int].column_def@);
                }
            }
            assert forall|c2: int|
                0 <= c2 < c + 1 && (exists|j: int|
                    0 <= j < columns_to_read.deep_view().len()
                        && #[trigger] columns_to_read.deep_view()[j] == (
                    #[trigger] sorted_v[c2]).column_def) implies exists|s: int|
                0 <= s < sel@.len() && sel@[s] == c2 by {
                if c2 < c {
                    let s0 = choose|s: int|
                        0 <= s < sel_at_entry.len() && (#[trigger] sel_at_entry[s]) == c2;
                    assert(sel@[s0] == c2);
                } else {
                    assert(wanted);
                    assert(sel@[sel@.len() - 1] == c2);
                }
            }
        }
        c += 1;
    }
    proof {
        let gsel = Seq::new(sel@.len(), |s: int| sel@[s] as int);
        assert(is_projection_slice(
            sorted_v,
            columns_to_read.deep_view(),
            off as int,
            end as int,
            out.deep_view(),
            gsel,
        )) by {
            assert forall|s: int| 0 <= s < gsel.len() implies 0 <= #[trigger] gsel[s]
                < sorted_v.len() && (exists|j: int|
                0 <= j < columns_to_read.deep_view().len()
                    && #[trigger] columns_to_read.deep_view()[j] == sorted_v[gsel[s]].column_def)
                by {
                assert(gsel[s] == sel@[s] as int);
            }
            assert forall|s1: int, s2: int| 0 <= s1 < s2 < gsel.len() implies gsel[s1]
                < gsel[s2] by {
                assert(gsel[s1] == sel@[s1] as int);
                assert(gsel[s2] == sel@[s2] as int);
            }
            assert forall|c2: int|
                0 <= c2 < sorted_v.len() && (exists|j: int|
                    0 <= j < columns_to_read.deep_view().len()
                        && #[trigger] columns_to_read.deep_view()[j] == (
                    #[trigger] sorted_v[c2]).column_def) implies exists|s: int|
                0 <= s < gsel.len() && gsel[s] == c2 by {
                let s0 = choose|s: int| 0 <= s < sel@.len() && (#[trigger] sel@[s]) == c2;
                assert(gsel[s0] == c2);
            }
            assert forall|s: int| 0 <= s < out.deep_view().len() implies (
            #[trigger] out.deep_view()[s]).column_def == sorted_v[gsel[s]].column_def
                && out.deep_view()[s].data == sorted_v[gsel[s]].data.subrange(
                off as int,
                end as int,
            ) by {
                assert(gsel[s] == sel@[s] as int);
            }
        }
        assert forall|c2: int| 0 <= c2 < out.deep_view().len() implies (
        #[trigger] out.deep_view()[c2]).data.len() == end - off by {
            assert(out.deep_view()[c2].data == sorted_v[gsel[c2]].data.subrange(
                off as int,
                end as int,
            ));
        }
        assert(post_processed(
            cv0,
            lists,
            *engine_name,
            pk_col_defs.deep_view(),
            columns_to_read.deep_view(),
            limit,
            offset,
            out.deep_view(),
        ));
    }
    Ok(out)
}

/// Whether every present column of a granule decodes, and all to one row
/// count.
pub open spec fn granule_decodable(
    bytes: Seq<Option<Seq<u8>>>,
    cts: Seq<CompressionType>,
) -> bool {
    &&& forall|c: int|
        0 <= c < bytes.len() && (#[trigger] bytes[c]) is Some ==> decompressed(
            bytes[c]->Some_0,
            cts[c],
        ) is Some && dec_values(decompressed(bytes[c]->Some_0, cts[c])->Some_0) is Some
    &&& forall|c1: int, c2: int|
        0 <= c1 < bytes.len() && 0 <= c2 < bytes.len() && (#[trigger] bytes[c1]) is Some && (
        #[trigger] bytes[c2]) is Some ==> dec_values(
            decompressed(bytes[c1]->Some_0, cts[c1])->Some_0,
        )->Some_0.len() == dec_values(decompressed(bytes[c2]->Some_0, cts[c2])->Some_0)->Some_0.len()
}

/// Decompresses and decodes the byte ranges of one granule, one per column
/// of the read set; a column absent from the part stays absent.
pub fn decode_granule(bytes: &Vec<Option<Vec<u8>>>, cts: &Vec<CompressionType>) -> (r: Result<
    (GranuleColumns, usize),
    Error,
>)
    requires
        bytes@.len() == cts@.len(),
    ensures
        r is Ok <==> granule_decodable(bytes.deep_view(), cts@),
        r matches Ok(g) ==> g.0.deep_view().len() == bytes@.len() && (forall|c: int|
            0 <= c < bytes@.len() ==> ((#[trigger] g.0.deep_view()[c]) is Some
                <==> bytes.deep_view()[c] is Some)) && (forall|c: int|
            0 <= c < bytes@.len() && (#[trigger] bytes.deep_view()[c]) is Some
                ==> g.0.deep_view()[c]->Some_0 == dec_values(
                decompressed(bytes.deep_view()[c]->Some_0, cts@[c])->Some_0,
            )->Some_0) && (forall|c: int|
            0 <= c < bytes@.len() && (#[trigger] g.0.deep_view()[c]) is Some
                ==> g.0.deep_view()[c]->Some_0.len() == g.1),
        r matches Err(e) ==> e is CouldNotReadData,
{
    let ghost bv = bytes.deep_view();
    let mut decoded: GranuleColumns = Vec::new();
    let mut row_count: usize = 0;
    let mut seen: bool = false;
    let mut c: usize = 0;
    while c < bytes.len()
        invariant
            c <= bytes@.len() == cts@.len(),
            bv == bytes.deep_view(),
            bv.len() == bytes@.len(),
            decoded.deep_view().len() == c,
            forall|j: int|
                0 <= j < c ==> ((#[trigger] decoded.deep_view()[j]) is Some <==> bv[j] is Some),
            forall|j: int|
                0 <= j < c && (#[trigger] bv[j]) is Some ==> decompressed(
                    bv[j]->Some_0,
                    cts@[j],
                ) is Some && dec_values(decompressed(bv[j]->Some_0, cts@[j])->Some_0) is Some
                    && decoded.deep_view()[j]->Some_0 == dec_values(
                    decompressed(bv[j]->Some_0, cts@[j])->Some_0,
                )->Some_0,
            forall|j: int|
                0 <= j < c && (#[trigger] decoded.deep_view()[j]) is Some
                    ==> decoded.deep_view()[j]->Some_0.len() == row_count,
            seen <==> exists|j: int| 0 <= j < c && (#[trigger] bv[j]) is Some,
            !seen ==> row_count == 0,
        decreases bytes@.len() - c,
    {
        let ghost pre = decoded.deep_view();
        let entry = &bytes[c];
        proof {
            assert(bv[c as int] == bytes@[c as int].deep_view());
        }
        match entry {
            None => {
                decoded.push(None);
                proof {
                    assert(decoded.deep_view()[c as int] is None);
                    assert forall|j: int| 0 <= j < c implies decoded.deep_view()[j] == pre[j] by {}
                    assert forall|j: int|
                        0 <= j < c + 1 && (#[trigger] decoded.deep_view()[j]) is Some
                        implies decoded.deep_view()[j]->Some_0.len() == row_count by {
                        if j < c {
                            assert(decoded.deep_view()[j] == pre[j]);
                        }
                    }
                    assert(seen <==> exists|j: int| 0 <= j < c + 1 && (#[trigger] bv[j]) is Some)
                        by {
                        if seen {
                            let w = choose|j: int| 0 <= j < c && (#[trigger] bv[j]) is Some;
                            assert(bv[w] is Some);
                        }
                        if exists|j: int| 0 <= j < c + 1 && (#[trigger] bv[j]) is Some {
                            let w = choose|j: int| 0 <= j < c + 1 && (#[trigger] bv[j]) is Some;
                            assert(w < c);
                        }
                    }
                }
            },
            Some(b) => {
                let vals = match crate::compression::decompress_bytes(
                    b.as_slice(),
                    &cts[c],
                ) {
                    Err(_) => {
                        proof {
                            assert(bv[c as int] is Some);
                            assert(bv[c as int]->Some_0 == b@);
                            assert(!granule_decodable(bv, cts@));
                        }
                        return Err(Error::CouldNotReadData(
                            "Could not decompress granule".to_owned(),
                        ));
                    },
                    Ok(d) => match crate::codec::deserialize_values(d.as_slice()) {
                        None => {
                            proof {
                                assert(bv[c as int] is Some);
                                assert(bv[c as int]->Some_0 == b@);
                                assert(!granule_decodable(bv, cts@));
                            }
                            return Err(Error::CouldNotReadData(
                                "Could not decode granule".to_owned(),
                            ));
                        },
                        Some(vals) => vals,
                    },
                };
                proof {
                    assert(bv[c as int] is Some);
                    assert(bv[c as int]->Some_0 == b@);
                    assert(vals.deep_view() == dec_values(
                        decompressed(bv[c as int]->Some_0, cts@[c as int])->Some_0,
                    )->Some_0);
                }
                let n = vals.len();
                let ghost pre_seen = seen;
                if seen {
                    if n != row_count {
                        proof {
                            let w = choose|j: int| 0 <= j < c && (#[trigger] bv[j]) is Some;
                            assert(decoded.deep_view()[w] is Some);
                            assert(!granule_decodable(bv, cts@));
                        }
                        return Err(Error::CouldNotReadData(
                            "Granule columns of unequal lengths".to_owned(),
                        ));
                    }
                } else {
                    row_count = n;
                    seen = true;
                }
                proof {
                    assert(vals.deep_view().len() == vals@.len());
                }
                decoded.push(Some(vals));
                proof {
                    assert(decoded.deep_view()[c as int] is Some);
                    assert(decoded.deep_view()[c as int]->Some_0 == dec_values(
                        decompressed(bv[c as int]->Some_0, cts@[c as int])->Some_0,
                    )->Some_0);
                    assert forall|j: int| 0 <= j < c implies decoded.deep_view()[j] == pre[j] by {}
                    assert(bv[c as int] is Some);
                    assert forall|j: int|
                        0 <= j < c + 1 && (#[trigger] decoded.deep_view()[j]) is Some
                        implies decoded.deep_view()[j]->Some_0.len() == row_count by {
                        if j < c {
                            assert(decoded.deep_view()[j] == pre[j]);
                            assert(bv[j] is Some);
                        }
                    }
                }
            },
        }
        c += 1;
    }
    proof {
        assert(granule_decodable(bv, cts@)) by {
            assert forall|c1: int, c2: int|
                0 <= c1 < bv.len() && 0 <= c2 < bv.len() && (#[trigger] bv[c1]) is Some && (
                #[trigger] bv[c2]) is Some implies dec_values(
                decompressed(bv[c1]->Some_0, cts@[c1])->Some_0,
            )->Some_0.len() == dec_values(decompressed(bv[c2]->Some_0, cts@[c2])->Some_0)->Some_0.len()
                by {
                assert(decoded.deep_view()[c1] is Some);
                assert(decoded.deep_view()[c2] is Some);
            }
        }
    }
    Ok((decoded, row_count))
}

/// The filter's verdict on row `i` of a decoded granule; no filter keeps
/// every row.
pub open spec fn granule_mask(
    gd: Seq<Option<Seq<ValueV>>>,
    f: Option<CompiledFilter>,
    i: int,
) -> bool {
    match f {
        Some(f) => row_matches(f, gd, i),
        None => true,
    }
}

/// The rows of `vals` kept by `mask`, in order.
pub open spec fn masked_vals(vals: Seq<ValueV>, mask: Seq<bool>) -> Seq<ValueV>
    decreases vals.len(),
{
    if vals.len() == 0 || mask.len() == 0 {
        Seq::empty()
    } else if mask[0] {
        seq![vals[0]] + masked_vals(vals.drop_first(), mask.drop_first())
    } else {
        masked_vals(vals.drop_first(), mask.drop_first())
    }
}

/// Extends a masked run by one more row.
proof fn lemma_masked_vals_snoc(vals: Seq<ValueV>, mask: Seq<bool>, i: int)
    requires
        0 <= i < vals.len(),
        vals.len() == mask.len(),
    ensures
        masked_vals(vals.take(i + 1), mask.take(i + 1)) == if mask[i] {
            masked_vals(vals.take(i), mask.take(i)).push(vals[i])
        } else {
            masked_vals(vals.take(i), mask.take(i))
        },
    decreases i,
{
    if i == 0 {
        assert(vals.take(1)[0] == vals[0]);
        assert(mask.take(1)[0] == mask[0]);
        assert(vals.take(1).drop_first() =~= Seq::<ValueV>::empty());
        assert(mask.take(1).drop_first() =~= Seq::<bool>::empty());
        assert(vals.take(0) =~= Seq::<ValueV>::empty());
        assert(mask.take(0) =~= Seq::<bool>::empty());
        if mask[0] {
            assert(masked_vals(vals.take(1), mask.take(1)) == seq![vals[0]] + masked_vals(
                Seq::<ValueV>::empty(),
                Seq::<bool>::empty(),
            ));
            assert(seq![vals[0]] + Seq::<ValueV>::empty() =~= Seq::<ValueV>::empty().push(
                vals[0],
            ));
        }
    } else {
        lemma_masked_vals_snoc(vals.drop_first(), mask.drop_first(), i - 1);
        assert(vals.take(i + 1).drop_first() =~= vals.drop_first().take(i));
        assert(mask.take(i + 1).drop_first() =~= mask.drop_first().take(i));
        assert(vals.take(i).drop_first() =~= vals.drop_first().take(i - 1));
        assert(mask.take(i).drop_first() =~= mask.drop_first().take(i - 1));
        assert(vals.take(i + 1)[0] == vals[0]);
        assert(mask.take(i + 1)[0] == mask[0]);
        assert(vals.take(i)[0] == vals[0]);
        assert(vals.drop_first().take(i)[i - 1] == vals[i]);
        if mask[0] {
            if mask[i] {
                assert(seq![vals[0]] + masked_vals(vals.drop_first().take(i - 1), mask.drop_first().take(i - 1)).push(vals[i])
                    =~= (seq![vals[0]] + masked_vals(vals.drop_first().take(i - 1), mask.drop_first().take(i - 1))).push(vals[i]));
            }
        }
    }
}

/// Keeps the rows of a decoded granule that satisfy the filter: one output
/// column per read-set column, `Null`s standing in for columns absent from
/// the part, all positionally aligned.
pub fn filter_granule(
    decoded: &GranuleColumns,
    row_count: usize,
    filter: Option<&CompiledFilter>,
) -> (r: (Vec<Vec<Value>>, usize))
    requires
        forall|c: int|
            0 <= c < decoded@.len() && (#[trigger] decoded@[c]) is Some
                ==> decoded@[c]->Some_0@.len() == row_count,
    ensures
        r.0.deep_view().len() == decoded@.len(),
        forall|c: int|
            0 <= c < decoded@.len() ==> (#[trigger] r.0.deep_view()[c]).len() == r.1,
        forall|c: int|
            0 <= c < decoded@.len() && (#[trigger] decoded.deep_view()[c]) is Some
                ==> r.0.deep_view()[c] == masked_vals(
                decoded.deep_view()[c]->Some_0,
                Seq::new(
                    row_count as nat,
                    |i: int|
                        granule_mask(
                            decoded.deep_view(),
                            match filter {
                                Some(f) => Some(*f),
                                None => None,
                            },
                            i,
                        ),
                ),
            ),
        forall|c: int|
            0 <= c < decoded@.len() && (#[trigger] decoded.deep_view()[c]) is None ==> (forall|
                i: int,
            |
                0 <= i < r.1 ==> (#[trigger] r.0.deep_view()[c][i]) == ValueV::Null),
{
    let ghost gd = decoded.deep_view();
    let ghost gf: Option<CompiledFilter> = match filter {
        Some(f) => Some(*f),
        None => None,
    };
    proof {
        assert(gd.len() == decoded@.len());
        assert forall|c: int| 0 <= c < gd.len() && (#[trigger] gd[c]) is Some implies gd[c]->Some_0.len()
            == row_count by {
            assert(gd[c] == decoded@[c].deep_view());
        }
    }
    let mask: Vec<bool> = match filter {
        Some(f) => eval_filter_vectorized(f, decoded, row_count),
        None => {
            let mut m: Vec<bool> = Vec::new();
            let mut i: usize = 0;
            while i < row_count
                invariant
                    i <= row_count,
                    m@.len() == i,
                    forall|j: int| 0 <= j < i ==> (#[trigger] m@[j]) == true,
                decreases row_count - i,
            {
                m.push(true);
                i += 1;
            }
            m
        },
    };
    let ghost maskv = Seq::new(row_count as nat, |i: int| granule_mask(gd, gf, i));
    proof {
        assert forall|i: int| 0 <= i < row_count implies mask@[i] == maskv[i] by {}
        assert(mask@ =~= maskv);
    }
    let mut kept: usize = 0;
    let mut i: usize = 0;
    while i < row_count
        invariant
            i <= row_count == mask@.len(),
            kept <= i,
            kept == masked_count(mask@.take(i as int)),
        decreases row_count - i,
    {
        proof {
            lemma_masked_count_snoc(mask@, i as int);
        }
        if mask[i] {
            kept += 1;
        }
        i += 1;
    }
    proof {
        assert(mask@.take(row_count as int) =~= mask@);
    }
    let mut out: Vec<Vec<Value>> = Vec::new();
    let mut c: usize = 0;
    while c < decoded.len()
        invariant
            c <= decoded@.len(),
            gd == decoded.deep_view(),
            gd.len() == decoded@.len(),
            mask@ =~= maskv,
            row_count == mask@.len(),
            kept == masked_count(mask@),
            forall|c2: int|
                0 <= c2 < gd.len() && (#[trigger] gd[c2]) is Some ==> gd[c2]->Some_0.len()
                    == row_count,
            out.deep_view().len() == c,
            forall|c2: int|
                0 <= c2 < c ==> (#[trigger] out.deep_view()[c2]).len() == kept,
            forall|c2: int|
                0 <= c2 < c && (#[trigger] gd[c2]) is Some ==> out.deep_view()[c2] == masked_vals(
                    gd[c2]->Some_0,
                    maskv,
                ),
            forall|c2: int|
                0 <= c2 < c && (#[trigger] gd[c2]) is None ==> (forall|i2: int|
                    0 <= i2 < kept ==> (#[trigger] out.deep_view()[c2][i2]) == ValueV::Null),
        decreases decoded@.len() - c,
    {
        let ghost pre_out = out.deep_view();
        proof {
            assert(gd[c as int] == decoded@[c as int].deep_view());
        }
        match &decoded[c] {
            Some(col) => {
                proof {
                    assert(gd[c as int]->Some_0 == col.deep_view());
                    assert(col.deep_view().len() == col@.len());
                }
                let mut data: Vec<Value> = Vec::new();
                let mut i2: usize = 0;
                while i2 < row_count
                    invariant
                        i2 <= row_count == mask@.len(),
                        col.deep_view().len() == col@.len() == row_count,
                        data@.len() == masked_count(mask@.take(i2 as int)),
                        data.deep_view() =~= masked_vals(
                            col.deep_view().take(i2 as int),
                            mask@.take(i2 as int),
                        ),
                    decreases row_count - i2,
                {
                    proof {
                        lemma_masked_vals_snoc(col.deep_view(), mask@, i2 as int);
                        lemma_masked_count_snoc(mask@, i2 as int);
                    }
                    if mask[i2] {
                        let ghost pre_data = data.deep_view();
                        let v = col[i2].clone();
                        proof {
                            assert(v@ == col.deep_view()[i2 as int]);
                        }
                        data.push(v);
                        proof {
                            assert(data.deep_view() =~= pre_data.push(v@));
                        }
                    }
                    i2 += 1;
                }
                proof {
                    assert(col.deep_view().take(row_count as int) =~= col.deep_view());
                    assert(mask@.take(row_count as int) =~= mask@);
                }
                out.push(data);
                proof {
                    assert(out.deep_view()[c as int] == masked_vals(gd[c as int]->Some_0, maskv));
                    assert(masked_vals(gd[c as int]->Some_0, maskv).len() == masked_count(maskv))
                        by {
                        lemma_masked_vals_len(gd[c as int]->Some_0, maskv);
                    }
                    assert(maskv == mask@);
                    assert forall|c2: int| 0 <= c2 < c implies out.deep_view()[c2] == pre_out[c2]
                        by {}
                    assert forall|c2: int| 0 <= c2 <= c implies (
                    #[trigger] out.deep_view()[c2]).len() == kept by {
                        if c2 < c {
                            assert(out.deep_view()[c2] == pre_out[c2]);
                        } else {
                            assert(out.deep_view()[c2] == masked_vals(gd[c as int]->Some_0, maskv));
                        }
                    }
                    assert forall|c2: int|
                        0 <= c2 <= c && (#[trigger] gd[c2]) is None implies (forall|i3: int|
                        0 <= i3 < kept ==> (#[trigger] out.deep_view()[c2][i3]) == ValueV::Null)
                        by {
                        if c2 < c {
                            assert(out.deep_view()[c2] == pre_out[c2]);
                        }
                    }
                }
            },
            None => {
                let mut data: Vec<Value> = Vec::new();
                let mut i2: usize = 0;
                while i2 < kept
                    invariant
                        i2 <= kept,
                        data@.len() == i2,
                        forall|j: int|
                            0 <= j < i2 ==> (#[trigger] data.deep_view()[j]) == ValueV::Null,
                    decreases kept - i2,
                {
                    let ghost pre_data = data.deep_view();
                    data.push(Value::Null);
                    proof {
                        assert forall|j: int| 0 <= j <= i2 implies (
                        #[trigger] data.deep_view()[j]) == ValueV::Null by {
                            if j < i2 {
                                assert(data.deep_view()[j] == pre_data[j]);
                            } else {
                                assert(data.deep_view()[j] == Value::Null@);
                            }
                        }
                    }
                    i2 += 1;
                }
                out.push(data);
                proof {
                    assert(out.deep_view()[c as int].len() == kept);
                    assert forall|c2: int| 0 <= c2 < c implies out.deep_view()[c2] == pre_out[c2]
                        by {}
                    assert forall|c2: int| 0 <= c2 <= c implies (
                    #[trigger] out.deep_view()[c2]).len() == kept by {
                        if c2 < c {
                            assert(out.deep_view()[c2] == pre_out[c2]);
                        }
                    }
                    assert forall|c2: int|
                        0 <= c2 <= c && (#[trigger] gd[c2]) is None implies (forall|i3: int|
                        0 <= i3 < kept ==> (#[trigger] out.deep_view()[c2][i3]) == ValueV::Null)
                        by {
                        if c2 < c {
                            assert(out.deep_view()[c2] == pre_out[c2]);
                        } else {
                            assert(out.deep_view()[c2] == data.deep_view());
                        }
                    }
                }
            },
        }
        c += 1;
    }
    proof {
        let ens_mask = Seq::new(
            row_count as nat,
            |i3: int|
                granule_mask(
                    decoded.deep_view(),
                    match filter {
                        Some(f) => Some(*f),
                        None => None,
                    },
                    i3,
                ),
        );
        assert(ens_mask =~= maskv);
        assert forall|c2: int|
            0 <= c2 < decoded@.len() && (#[trigger] decoded.deep_view()[c2]) is Some
            implies out.deep_view()[c2] == masked_vals(decoded.deep_view()[c2]->Some_0, ens_mask)
            by {
            assert(out.deep_view()[c2] == masked_vals(gd[c2]->Some_0, maskv));
        }
    }
    (out, kept)
}

/// How many rows a mask keeps.
pub open spec fn masked_count(mask: Seq<bool>) -> int
    decreases mask.len(),
{
    if mask.len() == 0 {
        0
    } else {
        (if mask[0] {
            1int
        } else {
            0int
        }) + masked_count(mask.drop_first())
    }
}

/// Extends a kept-row count by one more row.
proof fn lemma_masked_count_snoc(mask: Seq<bool>, i: int)
    requires
        0 <= i < mask.len(),
    ensures
        masked_count(mask.take(i + 1)) == masked_count(mask.take(i)) + (if mask[i] {
            1int
        } else {
            0int
        }),
    decreases i,
{
    if i == 0 {
        assert(mask.take(1)[0] == mask[0]);
        assert(mask.take(1).drop_first() =~= Seq::<bool>::empty());
        assert(mask.take(0) =~= Seq::<bool>::empty());
    } else {
        lemma_masked_count_snoc(mask.drop_first(), i - 1);
        assert(mask.take(i + 1).drop_first() =~= mask.drop_first().take(i));
        assert(mask.take(i).drop_first() =~= mask.drop_first().take(i - 1));
        assert(mask.take(i + 1)[0] == mask[0]);
        assert(mask.take(i)[0] == mask[0]);
        assert(mask.drop_first().take(i)[i - 1] == mask[i]);
    }
}

/// A masked run holds as many rows as the mask keeps.
proof fn lemma_masked_vals_len(vals: Seq<ValueV>, mask: Seq<bool>)
    requires
        vals.len() == mask.len(),
    ensures
        masked_vals(vals, mask).len() == masked_count(mask),
    decreases vals.len(),
{
    if vals.len() != 0 {
        lemma_masked_vals_len(vals.drop_first(), mask.drop_first());
    }
}

} // verus!
