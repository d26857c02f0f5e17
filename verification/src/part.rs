//! Parts: the immutable, sorted units of columnar storage.
//!
//! A part holds one granule-compressed file per column and a `part.inf`
//! sidecar with the sparse primary-key marks.  The writer here produces the
//! file images as byte vectors; reading them back is proved to give the rows
//! that were written.

use vstd::prelude::*;

use crate::codec::{dec_values, enc_values, pow256, serialize_values, deserialize_values,
    vals_encodable};
use crate::compression::{compress_bytes, compressed, decompress_bytes, decompressed,
    CompressionType};
use crate::engines::{cols_same_len, cols_self_comparable, EngineName};
use crate::error::Error;
use crate::framing::{frame_bytes, framed, magic_column, magic_info, column_magic, info_magic,
    unframe_bytes, unframed};
use crate::storage::{Column, ColumnDef, ColumnDefV, ColumnV, TableDef};
use crate::value::{Value, ValueV};

verus! {

/// Represents a start byte position and end byte position of the compressed
/// granule within its column file.
#[derive(Clone, Copy, PartialEq, Eq, Structural, Debug)]
pub struct MarkInfo {
    pub start: u64,
    pub end: u64,
}

/// Abstraction of [`Mark`].
#[verifier::ext_equal]
pub struct MarkV {
    pub index: Seq<ValueV>,
    pub info: Seq<MarkInfo>,
}

/// Represents the first row of each granule as well as its starting position
/// and ending.
#[derive(Debug)]
pub struct Mark {
    pub index: Vec<Value>,
    pub info: Vec<MarkInfo>,
}

impl View for Mark {
    type V = MarkV;

    open spec fn view(&self) -> MarkV {
        MarkV { index: self.index.deep_view(), info: self.info@ }
    }
}

impl DeepView for Mark {
    type V = MarkV;

    open spec fn deep_view(&self) -> MarkV {
        self.view()
    }
}

/// Abstraction of [`TablePartInfo`].
#[verifier::ext_equal]
pub struct PartInfoV {
    pub name: Seq<char>,
    pub row_count: u64,
    pub marks: Seq<MarkV>,
    pub column_defs: Seq<ColumnDefV>,
}

/// The sidecar of one part: its name, row count, marks, and the column
/// definitions it was written with.
#[derive(Debug)]
pub struct TablePartInfo {
    pub name: String,
    pub row_count: u64,
    pub marks: Vec<Mark>,
    pub column_defs: Vec<ColumnDef>,
}

impl View for TablePartInfo {
    type V = PartInfoV;

    open spec fn view(&self) -> PartInfoV {
        PartInfoV {
            name: self.name@,
            row_count: self.row_count,
            marks: self.marks.deep_view(),
            column_defs: self.column_defs.deep_view(),
        }
    }
}

impl DeepView for TablePartInfo {
    type V = PartInfoV;

    open spec fn deep_view(&self) -> PartInfoV {
        self.view()
    }
}

/// Immutable table part information.
#[derive(Debug)]
pub struct TablePart {
    pub info: TablePartInfo,
    pub data: Vec<Column>,
}

/// Rounded-up division: the number of granules over `n` rows.
pub open spec fn ceil_div(n: nat, g: nat) -> nat
    recommends
        g > 0,
{
    ((n + g - 1) / (g as int)) as nat
}

/// The rows of granule `k`: the `k`-th slice of `g` rows, the last one
/// possibly shorter.
pub open spec fn granule_vals(data: Seq<ValueV>, g: nat, k: int) -> Seq<ValueV> {
    data.subrange(k * g, if k * g + g <= data.len() { k * g + g } else { data.len() as int })
}

/// What one granule of a column file reads back to: its byte range,
/// decompressed and decoded.
pub open spec fn granule_read(file: Seq<u8>, mi: MarkInfo, ct: CompressionType) -> Option<
    Seq<ValueV>,
> {
    if !(mi.start <= mi.end <= file.len()) {
        None
    } else {
        match decompressed(file.subrange(mi.start as int, mi.end as int), ct) {
            None => None,
            Some(d) => dec_values(d),
        }
    }
}

/// What a whole column file reads back to: the concatenation of its
/// granules, or `None` where any granule fails.
pub open spec fn column_read(file: Seq<u8>, infos: Seq<MarkInfo>, ct: CompressionType) -> Option<
    Seq<ValueV>,
>
    decreases infos.len(),
{
    if infos.len() == 0 {
        Some(Seq::empty())
    } else {
        match granule_read(file, infos[0], ct) {
            None => None,
            Some(first) => match column_read(file, infos.drop_first(), ct) {
                None => None,
                Some(rest) => Some(first + rest),
            },
        }
    }
}

/// The bytes stored for granule `k` of a column.
pub open spec fn granule_image(data: Seq<ValueV>, ct: CompressionType, g: nat, k: int) -> Seq<u8> {
    crate::compression::compressed(enc_values(granule_vals(data, g, k)), ct)
}

/// The total size of the first `k` granule images of a column.
pub open spec fn granules_size(data: Seq<ValueV>, ct: CompressionType, g: nat, k: int) -> int
    decreases k,
{
    if k <= 0 {
        0
    } else {
        granules_size(data, ct, g, k - 1) + granule_image(data, ct, g, k - 1).len()
    }
}

/// The accumulated image size only grows with more granules.
pub proof fn lemma_granules_size_mono(
    data: Seq<ValueV>,
    ct: CompressionType,
    g: nat,
    k1: int,
    k2: int,
)
    requires
        k1 <= k2,
    ensures
        granules_size(data, ct, g, k1) <= granules_size(data, ct, g, k2),
    decreases k2,
{
    if k1 < k2 && k2 > 0 {
        lemma_granules_size_mono(data, ct, g, k1, k2 - 1);
    }
}

/// The column file image produced for `data`: each mark's byte range holds
/// the compressed encoding of its granule, the granule images are adjacent
/// and cover the payload exactly, and the whole file is framed.
pub open spec fn column_file_wf(
    file: Seq<u8>,
    infos: Seq<MarkInfo>,
    data: Seq<ValueV>,
    ct: CompressionType,
    g: nat,
) -> bool {
    &&& g > 0
    &&& infos.len() == ceil_div(data.len(), g)
    &&& forall|k: int|
        0 <= k < infos.len() ==> (#[trigger] infos[k]).start <= infos[k].end <= file.len()
    &&& forall|k: int|
        0 <= k < infos.len() ==> decompressed(
            file.subrange((#[trigger] infos[k]).start as int, infos[k].end as int),
            ct,
        ) == Some(enc_values(granule_vals(data, g, k)))
    &&& forall|k: int|
        0 <= k < infos.len() ==> vals_encodable(granule_vals(data, g, k)) && granule_vals(
            data,
            g,
            k,
        ).len() < pow256(8)
    &&& infos.len() > 0 ==> infos[0].start == 6
    &&& forall|k: int| 0 <= k < infos.len() - 1 ==> (#[trigger] infos[k]).end == infos[k + 1].start
    &&& infos.len() > 0 ==> infos[infos.len() - 1].end == file.len() - 4
}

/// Reading every granule of a well-formed column file gives back exactly the
/// rows it was written from.
pub proof fn lemma_column_read_roundtrip(
    file: Seq<u8>,
    infos: Seq<MarkInfo>,
    data: Seq<ValueV>,
    ct: CompressionType,
    g: nat,
)
    requires
        column_file_wf(file, infos, data, ct, g),
    ensures
        column_read(file, infos, ct) == Some(data),
{
    lemma_column_read_roundtrip_from(file, infos, data, ct, g, 0);
    assert(0 * g == 0) by (nonlinear_arith);
    assert(infos.skip(0) =~= infos);
    assert(data.subrange(0, data.len() as int) =~= data);
}

/// Helper: reading the granules from `k` on gives the rows from `k * g` on.
proof fn lemma_column_read_roundtrip_from(
    file: Seq<u8>,
    infos: Seq<MarkInfo>,
    data: Seq<ValueV>,
    ct: CompressionType,
    g: nat,
    k: int,
)
    requires
        column_file_wf(file, infos, data, ct, g),
        0 <= k <= infos.len(),
    ensures
        column_read(file, infos.skip(k), ct) == Some(
            data.subrange(
                if k * g <= data.len() {
                    k * g
                } else {
                    data.len() as int
                },
                data.len() as int,
            ),
        ),
    decreases infos.len() - k,
{
    let tail = infos.skip(k);
    if k == infos.len() {
        assert(k * g >= data.len()) by (nonlinear_arith)
            requires
                k == infos.len(),
                infos.len() == ceil_div(data.len(), g),
                g > 0,
        ;
        assert(data.subrange(data.len() as int, data.len() as int) =~= Seq::<ValueV>::empty());
    } else {
        assert(tail[0] == infos[k]);
        assert(tail.drop_first() =~= infos.skip(k + 1));
        let gv = granule_vals(data, g, k);
        assert(k * g < data.len()) by (nonlinear_arith)
            requires
                0 <= k < infos.len(),
                infos.len() == ceil_div(data.len(), g),
                g > 0,
        ;
        crate::codec::lemma_dec_enc_values(gv);
        assert(granule_read(file, infos[k], ct) == Some(gv));
        lemma_column_read_roundtrip_from(file, infos, data, ct, g, k + 1);
        assert((k + 1) * g == k * g + g) by (nonlinear_arith);
        let nextpos = if (k + 1) * g <= data.len() {
            (k + 1) * g
        } else {
            data.len() as int
        };
        assert(gv + data.subrange(nextpos, data.len() as int) =~= data.subrange(
            k * g,
            data.len() as int,
        ));
    }
}

/// Reads and decompresses a granule from a column file image.
pub fn get_granule_bytes_decompressed(
    file: &[u8],
    mark_info: &MarkInfo,
    compression_type: &CompressionType,
) -> (r: Result<Vec<u8>, Error>)
    ensures
        r matches Ok(d) ==> mark_info.start <= mark_info.end <= file@.len() && decompressed(
            file@.subrange(mark_info.start as int, mark_info.end as int),
            *compression_type,
        ) == Some(d@),
        r matches Err(e) ==> e is CouldNotReadData,
        mark_info.start <= mark_info.end <= file@.len() ==> (r is Err <==> decompressed(
            file@.subrange(mark_info.start as int, mark_info.end as int),
            *compression_type,
        ) is None),
{
    if mark_info.end < mark_info.start {
        return Err(Error::CouldNotReadData("Invalid mark bounds".to_owned()));
    }
    if mark_info.end > file.len() as u64 {
        return Err(Error::CouldNotReadData("Mark end exceeds file size".to_owned()));
    }
    let start = mark_info.start as usize;
    let end = mark_info.end as usize;
    let compressed_slice = crate::codec::copy_range(file, start, end);
    decompress_bytes(compressed_slice.as_slice(), compression_type)
}

/// Reads one whole column back from its file image: checks the frame, then
/// decompresses and decodes every granule in mark order.
pub fn read_column_rows(file: &[u8], infos: &Vec<MarkInfo>, compression_type: &CompressionType)
    -> (r: Result<Vec<Value>, Error>)
    ensures
        r matches Ok(vals) ==> unframed(magic_column(), file@) is Some && column_read(
            file@,
            infos@,
            *compression_type,
        ) == Some(vals.deep_view()),
        r matches Err(e) ==> e is CouldNotReadData,
        unframed(magic_column(), file@) is Some && column_read(
            file@,
            infos@,
            *compression_type,
        ) is Some ==> r is Ok,
{
    let magic = column_magic();
    let check = unframe_bytes(magic.as_slice(), file);
    if let Err(e) = check {
        return Err(e);
    }
    let mut vals: Vec<Value> = Vec::new();
    let mut k: usize = 0;
    proof {
        assert(infos@.skip(0) =~= infos@);
        match column_read(file@, infos@, *compression_type) {
            None => {},
            Some(rest) => {
                assert(vals.deep_view() + rest =~= rest);
            },
        }
    }
    while k < infos.len()
        invariant
            k <= infos@.len(),
            ({
                match column_read(file@, infos@.skip(k as int), *compression_type) {
                    None => column_read(file@, infos@, *compression_type) is None,
                    Some(rest) => column_read(file@, infos@, *compression_type) == Some(
                        vals.deep_view() + rest,
                    ),
                }
            }),
        decreases infos@.len() - k,
    {
        proof {
            assert(infos@.skip(k as int)[0] == infos@[k as int]);
            assert(infos@.skip(k as int).drop_first() =~= infos@.skip(k as int + 1));
        }
        let gb = match get_granule_bytes_decompressed(file, &infos[k], compression_type) {
            Ok(gb) => gb,
            Err(e) => {
                proof {
                    assert(granule_read(file@, infos@[k as int], *compression_type) is None);
                }
                return Err(e);
            },
        };
        let decoded = match deserialize_values(gb.as_slice()) {
            Some(d) => d,
            None => {
                proof {
                    assert(granule_read(file@, infos@[k as int], *compression_type) is None);
                }
                return Err(Error::CouldNotReadData("Could not decode granule".to_owned()));
            },
        };
        proof {
            assert(granule_read(file@, infos@[k as int], *compression_type) == Some(
                decoded.deep_view(),
            ));
        }
        let mut j: usize = 0;
        let ghost pre_vals = vals.deep_view();
        while j < decoded.len()
            invariant
                j <= decoded@.len(),
                vals.deep_view() =~= pre_vals + decoded.deep_view().take(j as int),
            decreases decoded@.len() - j,
        {
            let ghost pre2 = vals.deep_view();
            let v = decoded[j].clone();
            proof {
                assert(v@ == decoded.deep_view()[j as int]);
            }
            vals.push(v);
            proof {
                assert(vals.deep_view().len() == pre2.len() + 1);
                assert forall|l: int| 0 <= l < vals.deep_view().len() implies vals.deep_view()[l]
                    == (pre_vals + decoded.deep_view().take(j + 1))[l] by {
                    if l < pre2.len() {
                        assert(vals.deep_view()[l] == pre2[l]);
                    } else {
                        assert(vals.deep_view()[l] == decoded.deep_view()[j as int]);
                    }
                }
                assert(vals.deep_view() =~= pre_vals + decoded.deep_view().take(j + 1));
            }
            j += 1;
        }
        proof {
            assert(decoded.deep_view().take(decoded@.len() as int) =~= decoded.deep_view());
            assert(vals.deep_view() =~= pre_vals + decoded.deep_view());
            match column_read(file@, infos@.skip(k as int + 1), *compression_type) {
                None => {},
                Some(rest) => {
                    assert((pre_vals + decoded.deep_view()) + rest =~= pre_vals + (
                    decoded.deep_view() + rest));
                },
            }
        }
        k += 1;
    }
    proof {
        assert(infos@.skip(infos@.len() as int).len() == 0);
        assert(vals.deep_view() + Seq::<ValueV>::empty() =~= vals.deep_view());
    }
    Ok(vals)
}

/// Builds the file image of one column: the magic prefix, each granule
/// compressed in order, and the trailing CRC32; hands back the byte ranges
/// of the granules.
#[verifier::rlimit(100)]
#[verifier::spinoff_prover]
pub fn write_column_file(data: &Vec<Value>, compression_type: &CompressionType, g: usize) -> (r:
    Result<(Vec<u8>, Vec<MarkInfo>), Error>)
    requires
        g >= 1,
        data@.len() > 0,
    ensures
        r matches Ok(fi) ==> column_file_wf(
            fi.0@,
            fi.1@,
            data.deep_view(),
            *compression_type,
            g as nat,
        ) && (exists|payload: Seq<u8>|
            fi.0@ == framed(magic_column(), payload) && payload.len() > 0) && unframed(
            magic_column(),
            fi.0@,
        ) is Some,
        r is Ok <==> granules_size(
            data.deep_view(),
            *compression_type,
            g as nat,
            ceil_div(data.deep_view().len(), g as nat) as int,
        ) <= usize::MAX - 10,
        r matches Err(e) ==> e is CouldNotInsertData,
{
    let ghost dv = data.deep_view();
    let magic = column_magic();
    let mut payload: Vec<u8> = Vec::new();
    let mut infos: Vec<MarkInfo> = Vec::new();
    let mut chunk_start: usize = 0;
    let ghost magic_len: int = 6;
    let mut n_granules: usize = 0;
    while chunk_start < data.len()
        invariant
            dv == data.deep_view(),
            dv.len() == data@.len(),
            g >= 1,
            data@.len() > 0,
            chunk_start == (if n_granules * g <= dv.len() {
                n_granules * g as int
            } else {
                dv.len() as int
            }),
            n_granules > 0 ==> (n_granules - 1) * g < dv.len(),
            infos@.len() == n_granules,
            payload@.len() + 6 <= usize::MAX,
            forall|k: int|
                0 <= k < infos@.len() ==> (#[trigger] infos@[k]).start <= infos@[k].end
                    <= payload@.len() + 6,
            forall|k: int|
                0 <= k < infos@.len() ==> decompressed(
                    (magic_column() + payload@).subrange(
                        (#[trigger] infos@[k]).start as int,
                        infos@[k].end as int,
                    ),
                    *compression_type,
                ) == Some(enc_values(granule_vals(dv, g as nat, k))),
            forall|k: int|
                0 <= k < infos@.len() ==> vals_encodable(granule_vals(dv, g as nat, k))
                    && granule_vals(dv, g as nat, k).len() < pow256(8),
            n_granules > 0 ==> payload@.len() > 0,
            payload@.len() == granules_size(dv, *compression_type, g as nat, n_granules as int),
            payload@.len() <= usize::MAX - 10,
            infos@.len() > 0 ==> infos@[0].start == 6,
            forall|k: int|
                0 <= k < infos@.len() - 1 ==> (#[trigger] infos@[k]).end == infos@[k + 1].start,
            infos@.len() > 0 ==> infos@[infos@.len() - 1].end == payload@.len() + 6,
        decreases data@.len() - chunk_start,
    {
        proof {
            assert(n_granules * g == chunk_start) by {
                if n_granules * g > dv.len() {
                    assert(chunk_start == dv.len());
                    assert(false);
                }
            }
        }
        let remaining = data.len() - chunk_start;
        let chunk_end = if remaining > g {
            chunk_start + g
        } else {
            data.len()
        };
        proof {
            assert(chunk_end == if chunk_start + g <= dv.len() {
                chunk_start + g
            } else {
                dv.len() as int
            });
        }
        let mut slice_vals: Vec<Value> = Vec::new();
        let mut i: usize = chunk_start;
        while i < chunk_end
            invariant
                chunk_start <= i <= chunk_end <= data@.len(),
                dv == data.deep_view(),
                slice_vals.deep_view() =~= dv.subrange(chunk_start as int, i as int),
                slice_vals@.len() == i - chunk_start,
            decreases chunk_end - i,
        {
            let ghost pre = slice_vals.deep_view();
            let v = data[i].clone();
            proof {
                assert(v@ == dv[i as int]);
            }
            slice_vals.push(v);
            proof {
                assert forall|l: int| 0 <= l < slice_vals.deep_view().len() implies
                    slice_vals.deep_view()[l] == dv.subrange(chunk_start as int, i + 1)[l] by {
                    if l < pre.len() {
                        assert(slice_vals.deep_view()[l] == pre[l]);
                    } else {
                        assert(slice_vals.deep_view()[l] == v@);
                    }
                }
                assert(slice_vals.deep_view() =~= dv.subrange(chunk_start as int, i + 1));
            }
            i += 1;
        }
        proof {
            assert(slice_vals.deep_view() =~= granule_vals(dv, g as nat, n_granules as int)) by {
                assert(n_granules * g == chunk_start);
                assert(n_granules as int * g + g == chunk_start + g);
            }
        }
        let enc = serialize_values(&slice_vals);
        let comp = match compress_bytes(enc.as_slice(), compression_type) {
            Ok(c) => c,
            Err(e) => {
                return Err(e);
            },
        };
        proof {
            assert(comp@ == granule_image(dv, *compression_type, g as nat, n_granules as int));
            assert(comp@.len() > 0) by {
                crate::codec::lemma_le_bytes_len(slice_vals.deep_view().len(), 8);
                assert(enc@.len() >= 8);
            }
        }
        if comp.len() > usize::MAX - 10 || payload.len() > usize::MAX - 10 - comp.len() {
            proof {
                assert(granules_size(dv, *compression_type, g as nat, n_granules + 1)
                    > usize::MAX - 10);
                assert(n_granules + 1 <= ceil_div(dv.len(), g as nat)) by (nonlinear_arith)
                    requires
                        g >= 1,
                        n_granules >= 0,
                        n_granules * g == chunk_start,
                        chunk_start < dv.len(),
                ;
                lemma_granules_size_mono(
                    dv,
                    *compression_type,
                    g as nat,
                    n_granules + 1,
                    ceil_div(dv.len(), g as nat) as int,
                );
            }
            return Err(Error::CouldNotInsertData("column file too large".to_owned()));
        }
        let start_pos = (payload.len() + 6) as u64;
        let ghost pre_payload = payload@;
        let mut cc = comp;
        let ghost ccv = cc@;
        payload.append(&mut cc);
        let end_pos = (payload.len() + 6) as u64;
        let ghost pre_infos = infos@;
        infos.push(MarkInfo { start: start_pos, end: end_pos });
        proof {
            assert(payload@ =~= pre_payload + ccv);
            let newfile = magic_column() + payload@;
            assert forall|k: int| 0 <= k < infos@.len() implies decompressed(
                newfile.subrange((#[trigger] infos@[k]).start as int, infos@[k].end as int),
                *compression_type,
            ) == Some(enc_values(granule_vals(dv, g as nat, k))) by {
                if k < pre_infos.len() {
                    assert(infos@[k] == pre_infos[k]);
                    assert(newfile.subrange(pre_infos[k].start as int, pre_infos[k].end as int)
                        =~= (magic_column() + pre_payload).subrange(
                        pre_infos[k].start as int,
                        pre_infos[k].end as int,
                    ));
                } else {
                    assert(infos@[k] == MarkInfo { start: start_pos, end: end_pos });
                    assert(newfile.subrange(start_pos as int, end_pos as int) =~= ccv);
                    assert(decompressed(ccv, *compression_type) == Some(enc.deep_view())) by {
                        assert(ccv == compressed(enc@, *compression_type));
                        assert(decompressed(ccv, *compression_type) == Some(enc@));
                        assert(enc@ == enc_values(granule_vals(dv, g as nat, k)));
                    }
                }
            }
            assert forall|k: int| 0 <= k < infos@.len() implies vals_encodable(
                granule_vals(dv, g as nat, k),
            ) && granule_vals(dv, g as nat, k).len() < pow256(8) by {
                if k < pre_infos.len() {
                } else {
                    assert(granule_vals(dv, g as nat, k) == slice_vals.deep_view());
                }
            }
        }
        let ghost old_n = n_granules as int;
        let ghost old_start = chunk_start as int;
        proof {
            assert(old_n < dv.len()) by (nonlinear_arith)
                requires
                    old_n * g == old_start,
                    0 <= old_start < dv.len(),
                    g >= 1,
                    old_n >= 0,
            ;
        }
        n_granules += 1;
        chunk_start = chunk_end;
        proof {
            assert((old_n + 1) * g == old_n * g + g) by (nonlinear_arith);
            assert(old_n * g < dv.len());
            assert(chunk_end == if (old_n + 1) * g <= dv.len() {
                (old_n + 1) * g as int
            } else {
                dv.len() as int
            });
        }
    }
    proof {
        // the loop produced one mark per granule
        assert(chunk_start == dv.len()) by {
            if n_granules * g <= dv.len() {
                assert(chunk_start == n_granules * g);
                assert(chunk_start >= dv.len());
            }
        }
        assert(n_granules > 0);
        assert(infos@.len() == ceil_div(dv.len(), g as nat)) by (nonlinear_arith)
            requires
                g >= 1,
                dv.len() > 0,
                n_granules * g >= dv.len(),
                n_granules > 0 ==> (n_granules - 1) * g < dv.len(),
                n_granules > 0,
                infos@.len() == n_granules,
        ;
    }
    let file = frame_bytes(magic.as_slice(), payload.as_slice());
    proof {
        assert(file@ == framed(magic_column(), payload@));
        crate::codec::lemma_le_bytes_len(crate::framing::crc32_of(payload@) as nat, 4);
        crate::framing::lemma_unframe_frame(magic_column(), payload@);
        assert forall|k: int| 0 <= k < infos@.len() implies decompressed(
            file@.subrange((#[trigger] infos@[k]).start as int, infos@[k].end as int),
            *compression_type,
        ) == Some(enc_values(granule_vals(dv, g as nat, k))) by {
            assert(file@.subrange(infos@[k].start as int, infos@[k].end as int) =~= (magic_column()
                + payload@).subrange(infos@[k].start as int, infos@[k].end as int));
        }
    }
    Ok((file, infos))
}

/// `fidx` lists, in order, exactly the columns whose definition occurs in
/// `defs`.
pub open spec fn is_def_filter(cols: Seq<ColumnV>, defs: Seq<ColumnDefV>, fidx: Seq<usize>) -> bool {
    &&& forall|k1: int, k2: int| 0 <= k1 < k2 < fidx.len() ==> fidx[k1] < fidx[k2]
    &&& forall|k: int| 0 <= k < fidx.len() ==> (#[trigger] fidx[k]) < cols.len()
    &&& forall|k: int|
        0 <= k < fidx.len() ==> exists|j: int|
            0 <= j < defs.len() && (#[trigger] defs[j]) == cols[(#[trigger] fidx[k]) as int].column_def
    &&& forall|c: int|
        0 <= c < cols.len() && (exists|j: int|
            0 <= j < defs.len() && (#[trigger] defs[j]) == (#[trigger] cols[c]).column_def)
            ==> exists|k: int| 0 <= k < fidx.len() && fidx[k] == c
}

/// The marks generated for a column set: one for each granule of the columns
/// selected by `fidx`, holding the selected values of the granule's first
/// row, with the byte ranges still unset.
pub open spec fn marks_generated(
    cols: Seq<ColumnV>,
    fidx: Seq<usize>,
    g: nat,
    marks: Seq<MarkV>,
) -> bool {
    let total: nat = if fidx.len() == 0 {
        0
    } else {
        cols[fidx[0] as int].data.len()
    };
    &&& marks.len() == ceil_div(total, g)
    &&& forall|m: int|
        0 <= m < marks.len() ==> (#[trigger] marks[m]).index.len() == fidx.len() && marks[m].info.len()
            == 0
    &&& forall|m: int, k: int|
        0 <= m < marks.len() && 0 <= k < fidx.len() ==> (#[trigger] marks[m].index[k]) == cols[
            fidx[k] as int
        ].data[m * g]
}

/// Builds the sparse index for one part: one mark per granule, holding the
/// key-column values of the granule's first row.
pub fn generate_indexes(columns: &Vec<Column>, order_by: &Vec<ColumnDef>, index_granularity: u32)
    -> (marks: Vec<Mark>)
    requires
        index_granularity >= 1,
        cols_same_len(columns.deep_view(), columns.deep_view()[0].data.len()) || columns@.len()
            == 0,
    ensures
        exists|fidx: Seq<usize>|
            is_def_filter(columns.deep_view(), order_by.deep_view(), fidx) && marks_generated(
                columns.deep_view(),
                fidx,
                index_granularity as nat,
                marks.deep_view(),
            ),
{
    let ghost cv = columns.deep_view();
    let mut fidx: Vec<usize> = Vec::new();
    let mut c: usize = 0;
    while c < columns.len()
        invariant
            c <= columns@.len(),
            cv == columns.deep_view(),
            forall|k1: int, k2: int| 0 <= k1 < k2 < fidx@.len() ==> fidx@[k1] < fidx@[k2],
            forall|k: int| 0 <= k < fidx@.len() ==> (#[trigger] fidx@[k]) < c,
            forall|k: int|
                0 <= k < fidx@.len() ==> exists|j: int|
                    0 <= j < order_by.deep_view().len() && (#[trigger] order_by.deep_view()[j])
                        == cv[(#[trigger] fidx@[k]) as int].column_def,
            forall|c2: int|
                0 <= c2 < c && (exists|j: int|
                    0 <= j < order_by.deep_view().len() && (#[trigger] order_by.deep_view()[j]) == (
                    #[trigger] cv[c2]).column_def) ==> exists|k: int|
                    0 <= k < fidx@.len() && fidx@[k] == c2,
        decreases columns@.len() - c,
    {
        let present = crate::storage::defs_contain(order_by, &columns[c].column_def);
        let ghost pre = fidx@;
        if present {
            fidx.push(c);
            proof {
                assert(fidx@ =~= pre.push(c));
            }
        }
        proof {
            if present {
                let j = choose|j: int|
                    0 <= j < order_by@.len() && order_by@[j]@ == columns@[c as int].column_def@;
                assert(order_by.deep_view()[j] == cv[c as int].column_def);
                assert(fidx@[fidx@.len() - 1] == c);
            } else {
                assert forall|j: int| 0 <= j < order_by.deep_view().len() implies (
                #[trigger] order_by.deep_view()[j]) != cv[c as int].column_def by {
                    assert(order_by@[j]@ != columns@[c as int].column_def@);
                    assert(order_by.deep_view()[j] == order_by@[j]@);
                }
            }
            assert forall|c2: int|
                0 <= c2 < c + 1 && (exists|j: int|
                    0 <= j < order_by.deep_view().len() && (#[trigger] order_by.deep_view()[j]) == (
                    #[trigger] cv[c2]).column_def) implies exists|k: int|
                0 <= k < fidx@.len() && fidx@[k] == c2 by {
                if c2 < c {
                    let k0 = choose|k: int| 0 <= k < pre.len() && pre[k] == c2;
                    assert(fidx@[k0] == c2);
                } else {
                    assert(present);
                    assert(fidx@[fidx@.len() - 1] == c2);
                }
            }
        }
        c += 1;
    }
    let total = if fidx.len() == 0 {
        0
    } else {
        columns[fidx[0]].data.len()
    };
    proof {
        assert(is_def_filter(cv, order_by.deep_view(), fidx@));
        if fidx@.len() > 0 {
            assert forall|k: int| 0 <= k < fidx@.len() implies (
            #[trigger] cv[fidx@[k] as int].data).len() == total by {
                assert(cv[fidx@[k] as int].data.len() == cv[0].data.len());
                assert(cv[fidx@[0] as int].data.len() == cv[0].data.len());
            }
        }
    }
    let g = index_granularity as usize;
    let mut marks: Vec<Mark> = Vec::new();
    let mut row_idx: usize = 0;
    let mut m: usize = 0;
    while row_idx < total
        invariant
            cv == columns.deep_view(),
            g == index_granularity >= 1,
            total == (if fidx@.len() == 0 {
                0
            } else {
                cv[fidx@[0] as int].data.len()
            }),
            fidx@.len() == 0 ==> total == 0,
            forall|k: int| 0 <= k < fidx@.len() ==> (#[trigger] fidx@[k]) < cv.len(),
            forall|k: int|
                0 <= k < fidx@.len() ==> (#[trigger] cv[fidx@[k] as int].data).len() == total,
            row_idx == (if m * g <= total {
                m * g as int
            } else {
                total as int
            }),
            m > 0 ==> (m - 1) * g < total,
            marks.deep_view().len() == m,
            forall|m2: int|
                0 <= m2 < m ==> (#[trigger] marks.deep_view()[m2]).index.len() == fidx@.len()
                    && marks.deep_view()[m2].info.len() == 0,
            forall|m2: int, k: int|
                0 <= m2 < m && 0 <= k < fidx@.len() ==> (#[trigger] marks.deep_view()[m2].index[k])
                    == cv[fidx@[k] as int].data[m2 * g],
        decreases total - row_idx,
    {
        proof {
            assert(m * g == row_idx) by {
                if m * g > total {
                    assert(row_idx == total);
                    assert(false);
                }
            }
        }
        let mut row_values: Vec<Value> = Vec::new();
        let mut k: usize = 0;
        while k < fidx.len()
            invariant
                k <= fidx@.len(),
                cv == columns.deep_view(),
                row_idx < total,
                forall|k2: int| 0 <= k2 < fidx@.len() ==> (#[trigger] fidx@[k2]) < cv.len(),
                forall|k2: int|
                    0 <= k2 < fidx@.len() ==> (#[trigger] cv[fidx@[k2] as int].data).len() == total,
                row_values@.len() == k,
                forall|k2: int|
                    0 <= k2 < k ==> (#[trigger] row_values.deep_view()[k2]) == cv[fidx@[k2] as int].data[row_idx as int],
            decreases fidx@.len() - k,
        {
            proof {
                assert(k < fidx@.len());
                assert(fidx@[k as int] < cv.len());
                assert(cv.len() == columns@.len());
                assert(row_idx < total);
                assert(cv[fidx@[k as int] as int].data.len() == total);
                assert(columns@[fidx@[k as int] as int]@ == cv[fidx@[k as int] as int]);
                assert(columns@[fidx@[k as int] as int].data.deep_view().len() == columns@[
                    fidx@[k as int] as int
                ].data@.len());
            }
            let cidx = fidx[k];
            let v = columns[cidx].data[row_idx].clone();
            proof {
                assert(v@ == cv[fidx@[k as int] as int].data[row_idx as int]);
            }
            let ghost pre_rv = row_values.deep_view();
            row_values.push(v);
            proof {
                assert forall|k2: int| 0 <= k2 <= k implies (#[trigger] row_values.deep_view()[k2])
                    == cv[fidx@[k2] as int].data[row_idx as int] by {
                    if k2 < k {
                        assert(row_values.deep_view()[k2] == pre_rv[k2]);
                    } else {
                        assert(row_values.deep_view()[k2] == v@);
                    }
                }
            }
            k += 1;
        }
        let ghost pre_marks = marks.deep_view();
        let mk = Mark { index: row_values, info: Vec::new() };
        let ghost mkv = mk@;
        marks.push(mk);
        proof {
            assert forall|m2: int| 0 <= m2 <= m implies (#[trigger] marks.deep_view()[m2]).index.len()
                == fidx@.len() && marks.deep_view()[m2].info.len() == 0 by {
                if m2 < m {
                    assert(marks.deep_view()[m2] == pre_marks[m2]);
                } else {
                    assert(marks.deep_view()[m2] == mkv);
                }
            }
            assert forall|m2: int, k2: int|
                0 <= m2 <= m && 0 <= k2 < fidx@.len() implies (#[trigger] marks.deep_view()[m2].index[k2])
                == cv[fidx@[k2] as int].data[m2 * g] by {
                if m2 < m {
                    assert(marks.deep_view()[m2] == pre_marks[m2]);
                } else {
                    assert(marks.deep_view()[m2] == mkv);
                    assert(mkv.index[k2] == cv[fidx@[k2] as int].data[row_idx as int]);
                }
            }
        }
        let ghost old_m = m as int;
        proof {
            assert(old_m < total) by (nonlinear_arith)
                requires
                    old_m * g == row_idx,
                    0 <= row_idx < total,
                    g >= 1,
                    old_m >= 0,
            ;
        }
        m += 1;
        row_idx = if total - row_idx > g {
            row_idx + g
        } else {
            total
        };
        proof {
            assert((old_m + 1) * g == old_m * g + g) by (nonlinear_arith);
        }
    }
    proof {
        let total_n: nat = if fidx@.len() == 0 {
            0
        } else {
            cv[fidx@[0] as int].data.len()
        };
        if total_n == 0 {
            assert(m == 0);
            assert(marks.deep_view().len() == ceil_div(total_n, g as nat)) by (nonlinear_arith)
                requires
                    g >= 1,
                    total_n == 0,
                    marks.deep_view().len() == 0,
            ;
        } else {
            assert(row_idx == total);
            assert(m * g >= total) by {
                if m * g < total {
                    assert(row_idx == m * g);
                    assert(false);
                }
            }
            assert(marks.deep_view().len() == ceil_div(total_n, g as nat)) by (nonlinear_arith)
                requires
                    g >= 1,
                    total_n > 0,
                    m * g >= total_n,
                    m > 0 ==> (m - 1) * g < total_n,
                    m > 0,
                    marks.deep_view().len() == m,
        ;
        }
        assert(marks_generated(cv, fidx@, g as nat, marks.deep_view()));
    }
    marks
}

} // verus!
