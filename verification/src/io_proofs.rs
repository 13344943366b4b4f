//! What holds between storing and loading a matrix.
use crate::float::FloatParts;
use crate::float_serializer::{float_bytes, lemma_float_bytes_len, lemma_round_trip};
use crate::rugmat::MatView;
use crate::rugmat_io::{
    body_bytes, checksum, entry_bytes, file_bytes, header_bytes, magic, parse_body, parse_entries,
    parse_file, LoadError, CHECKSUM_LEN, FILE_HEADER_LEN, RUGMAT_VERSION,
};
use vstd::bytes::{
    lemma_auto_spec_u64_to_from_le_bytes, spec_u64_from_le_bytes, spec_u64_to_le_bytes,
};
use vstd::prelude::*;

verus! {

/// Every float of the sequence is well formed.
pub open spec fn all_wf(data: Seq<FloatParts>) -> bool {
    forall|k: int| 0 <= k < data.len() ==> (#[trigger] data[k]).wf()
}

/// An entry is its 8-byte length and the float's encoding, and that length
/// fits the length field.
pub proof fn lemma_entry_len(f: FloatParts)
    requires
        f.wf(),
    ensures
        entry_bytes(f).len() == 8 + float_bytes(f).len(),
        float_bytes(f).len() <= u64::MAX,
        entry_bytes(f).subrange(0, 8) == spec_u64_to_le_bytes(float_bytes(f).len() as u64),
        entry_bytes(f).subrange(8, 8 + float_bytes(f).len() as int) == float_bytes(f),
{
    lemma_float_bytes_len(f);
    lemma_auto_spec_u64_to_from_le_bytes();
    assert(entry_bytes(f).subrange(0, 8) =~= spec_u64_to_le_bytes(float_bytes(f).len() as u64));
    assert(entry_bytes(f).subrange(8, 8 + float_bytes(f).len() as int) =~= float_bytes(f));
}

/// The body of the first `c` floats starts the body of all of them.
pub proof fn lemma_body_prefix(data: Seq<FloatParts>, c: nat)
    requires
        c <= data.len(),
    ensures
        body_bytes(data.take(c as int)).len() <= body_bytes(data).len(),
        body_bytes(data).take(body_bytes(data.take(c as int)).len() as int) == body_bytes(
            data.take(c as int),
        ),
    decreases data.len(),
{
    if c == data.len() {
        assert(data.take(c as int) =~= data);
        assert(body_bytes(data).take(body_bytes(data).len() as int) =~= body_bytes(data));
    } else {
        let shorter = data.drop_last();
        lemma_body_prefix(shorter, c);
        assert(shorter.take(c as int) =~= data.take(c as int));
        let head = body_bytes(data.take(c as int));
        assert(body_bytes(data).take(head.len() as int) =~= body_bytes(shorter).take(
            head.len() as int,
        ));
    }
}

/// Reading back the entries of a body, whatever bytes follow it, gives the
/// floats that were written and stops at the end of the body.
pub proof fn lemma_entries_round_trip(data: Seq<FloatParts>, rest: Seq<u8>)
    requires
        all_wf(data),
    ensures
        parse_entries(body_bytes(data) + rest, data.len()) == Ok::<
            (Seq<FloatParts>, nat),
            LoadError,
        >((data, body_bytes(data).len())),
    decreases data.len(),
{
    if data.len() == 0 {
        assert(data =~= Seq::<FloatParts>::empty());
    } else {
        let shorter = data.drop_last();
        let f = data.last();
        let entry = entry_bytes(f);
        let all = body_bytes(data) + rest;
        let pos = body_bytes(shorter).len() as int;
        let len = float_bytes(f).len();
        assert(all =~= body_bytes(shorter) + (entry + rest));
        lemma_entries_round_trip(shorter, entry + rest);
        lemma_entry_len(f);
        lemma_auto_spec_u64_to_from_le_bytes();
        assert(all.subrange(pos, pos + 8) =~= entry.subrange(0, 8));
        assert(all.subrange(pos + 8, pos + 8 + len) =~= entry.subrange(8, 8 + len as int));
        lemma_round_trip(f, Seq::empty());
        assert(float_bytes(f) + Seq::<u8>::empty() =~= float_bytes(f));
        assert(shorter.push(f) =~= data);
    }
}

/// A body cut short cannot be read to the end: reading its entries ends early.
pub proof fn lemma_entries_truncated(data: Seq<FloatParts>, c: nat, n: nat)
    requires
        all_wf(data),
        c <= data.len(),
        n < body_bytes(data.take(c as int)).len(),
    ensures
        parse_entries(body_bytes(data).take(n as int), c) == Err::<
            (Seq<FloatParts>, nat),
            LoadError,
        >(LoadError::UnexpectedEof),
    decreases c,
{
    let cut = body_bytes(data).take(n as int);
    let upto = data.take(c as int);
    let before = data.take(c - 1);
    assert(c > 0);
    assert(upto.drop_last() =~= before);
    let f = upto.last();
    let pos = body_bytes(before).len();
    lemma_body_prefix(data, c);
    lemma_body_prefix(data, (c - 1) as nat);
    if n < pos {
        lemma_entries_truncated(data, (c - 1) as nat, n);
    } else {
        assert(all_wf(before));
        assert(cut =~= body_bytes(before) + cut.skip(pos as int));
        lemma_entries_round_trip(before, cut.skip(pos as int));
        lemma_entry_len(f);
        lemma_auto_spec_u64_to_from_le_bytes();
        let len = float_bytes(f).len();
        assert(body_bytes(upto) == body_bytes(before) + entry_bytes(f));
        if cut.len() - pos >= 8 {
            assert(cut.subrange(pos as int, pos as int + 8) =~= entry_bytes(f).subrange(0, 8)) by {
                assert forall|k: int| 0 <= k < 8 implies cut[pos + k] == entry_bytes(f)[k] by {
                    assert(cut[pos + k] == body_bytes(data)[pos + k]);
                    assert(body_bytes(data)[pos + k] == body_bytes(data).take(
                        body_bytes(upto).len() as int,
                    )[pos + k]);
                }
            }
        }
    }
}

/// The header is 23 bytes: magic, version, rows, columns.
pub proof fn lemma_header(rows: nat, cols: nat)
    requires
        rows <= u64::MAX,
        cols <= u64::MAX,
    ensures
        header_bytes(rows, cols).len() == FILE_HEADER_LEN,
        header_bytes(rows, cols).subrange(0, 6) == magic(),
        header_bytes(rows, cols)[6] == RUGMAT_VERSION,
        spec_u64_from_le_bytes(header_bytes(rows, cols).subrange(7, 15)) == rows,
        spec_u64_from_le_bytes(header_bytes(rows, cols).subrange(15, 23)) == cols,
{
    lemma_auto_spec_u64_to_from_le_bytes();
    let h = header_bytes(rows, cols);
    assert(h.subrange(0, 6) =~= magic());
    assert(h.subrange(7, 15) =~= spec_u64_to_le_bytes(rows as u64));
    assert(h.subrange(15, 23) =~= spec_u64_to_le_bytes(cols as u64));
}

/// What loading makes of bytes that start with a header for `rows` and `cols`.
proof fn lemma_parse_after_header(rows: nat, cols: nat, rest: Seq<u8>)
    requires
        rows <= usize::MAX,
        cols <= usize::MAX,
    ensures
        parse_file(header_bytes(rows, cols) + rest) == parse_body(rest, rows, cols),
{
    lemma_header(rows, cols);
    let h = header_bytes(rows, cols);
    let bytes = h + rest;
    assert(bytes.subrange(0, 6) =~= h.subrange(0, 6));
    assert(bytes.subrange(7, 15) =~= h.subrange(7, 15));
    assert(bytes.subrange(15, 23) =~= h.subrange(15, 23));
    assert(bytes.skip(FILE_HEADER_LEN as int) =~= rest);
}

/// Round trip: loading the stored form of a matrix, whatever bytes follow it,
/// gives back the matrix: the same dimensions and the same floats.
pub proof fn lemma_file_round_trip(m: MatView, tail: Seq<u8>)
    requires
        m.wf(),
        m.rows <= usize::MAX,
        m.cols <= usize::MAX,
    ensures
        parse_file(file_bytes(m) + tail) == Ok::<MatView, LoadError>(m),
{
    let body = body_bytes(m.data);
    let sum = checksum(body);
    let rest = body + (sum + tail);
    assert(file_bytes(m) + tail =~= header_bytes(m.rows, m.cols) + rest);
    lemma_parse_after_header(m.rows, m.cols, rest);
    lemma_entries_round_trip(m.data, sum + tail);
    let end = body.len() as int;
    assert(rest.subrange(end, end + CHECKSUM_LEN) =~= sum);
    assert(rest.take(end) =~= body);
}

/// A stored matrix whose trailer differs in any one byte is rejected with a
/// checksum mismatch.
pub proof fn lemma_corrupt_trailer(m: MatView, k: nat, v: u8)
    requires
        m.wf(),
        m.rows <= usize::MAX,
        m.cols <= usize::MAX,
        k < CHECKSUM_LEN,
        v != checksum(body_bytes(m.data))[k as int],
    ensures
        parse_file(file_bytes(m).update(file_bytes(m).len() - CHECKSUM_LEN + k, v)) == Err::<
            MatView,
            LoadError,
        >(LoadError::ChecksumMismatch),
{
    let body = body_bytes(m.data);
    let sum = checksum(body);
    let bad = sum.update(k as int, v);
    let rest = body + bad;
    lemma_header(m.rows, m.cols);
    assert(file_bytes(m).update(file_bytes(m).len() - CHECKSUM_LEN + k, v) =~= header_bytes(
        m.rows,
        m.cols,
    ) + rest);
    lemma_parse_after_header(m.rows, m.cols, rest);
    lemma_entries_round_trip(m.data, bad);
    let end = body.len() as int;
    assert(rest.subrange(end, end + CHECKSUM_LEN) =~= bad);
    assert(rest.take(end) =~= body);
    assert(bad[k as int] != sum[k as int]);
}

/// A stored matrix cut short anywhere is rejected as ending early.
pub proof fn lemma_truncated_file(m: MatView, n: nat)
    requires
        m.wf(),
        m.rows <= usize::MAX,
        m.cols <= usize::MAX,
        n < file_bytes(m).len(),
    ensures
        parse_file(file_bytes(m).take(n as int)) == Err::<MatView, LoadError>(
            LoadError::UnexpectedEof,
        ),
{
    let body = body_bytes(m.data);
    let sum = checksum(body);
    let header = header_bytes(m.rows, m.cols);
    let cut = file_bytes(m).take(n as int);
    lemma_header(m.rows, m.cols);
    if n >= 6 {
        assert(cut.subrange(0, 6) =~= header.subrange(0, 6));
    }
    if n >= 7 {
        assert(cut[6] == header[6]);
    }
    if n >= FILE_HEADER_LEN {
        let rest = (body + sum).take(n - FILE_HEADER_LEN);
        assert(cut =~= header + rest);
        lemma_parse_after_header(m.rows, m.cols, rest);
        if n - FILE_HEADER_LEN < body.len() {
            assert(rest =~= body.take(n - FILE_HEADER_LEN));
            assert(m.data.take(m.data.len() as int) =~= m.data);
            lemma_entries_truncated(m.data, m.data.len(), (n - FILE_HEADER_LEN) as nat);
        } else {
            let part = sum.take(n - FILE_HEADER_LEN - body.len());
            assert(rest =~= body + part);
            lemma_entries_round_trip(m.data, part);
        }
    }
}

} // verus!
