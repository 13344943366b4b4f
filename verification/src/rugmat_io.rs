//! The whole-matrix byte format.
//!
//! A stored matrix is a header, a body and a trailer. The header is the magic
//! `RUGMAT`, a version byte, and the row and column counts as 8-byte
//! little-endian integers. The body holds the entries in column-major order,
//! each as an 8-byte little-endian length followed by that many bytes of float
//! encoding. The trailer is the 32-byte BLAKE3 hash of the body.
use crate::float::{FloatParts, RawFloat};
use crate::float_serializer::{float_bytes, parse_float, read_float, write_float, DecodeError};
use crate::rugmat::{MatView, RugMat};
use vstd::bytes::{
    lemma_auto_spec_u64_to_from_le_bytes, spec_u64_from_le_bytes, spec_u64_to_le_bytes,
    u64_from_le_bytes, u64_to_le_bytes,
};
use vstd::prelude::*;
use vstd::slice::slice_subrange;

verus! {

/// Format version written and accepted.
pub const RUGMAT_VERSION: u8 = 1;

/// Bytes before the first entry: magic, version, rows, columns.
pub const FILE_HEADER_LEN: usize = 23;

/// Bytes of the checksum trailer.
pub const CHECKSUM_LEN: usize = 32;

/// The magic `RUGMAT`.
pub open spec fn magic() -> Seq<u8> {
    seq![0x52u8, 0x55u8, 0x47u8, 0x4Du8, 0x41u8, 0x54u8]
}

/// Why a byte sequence is not a stored matrix.
#[derive(Clone, Copy, Debug, PartialEq, Eq)]
pub enum LoadError {
    /// The bytes end before the field being read is complete.
    UnexpectedEof,
    /// The first six bytes are not the magic.
    BadMagic,
    /// The version byte is not the supported one.
    UnsupportedVersion,
    /// An entry's bytes are complete but describe no float: its precision is
    /// zero or its limb count does not fit its precision.
    InvalidEntry,
    /// A dimension is larger than this machine can index.
    TooLarge,
    /// The trailer is not the hash of the body.
    ChecksumMismatch,
}

impl LoadError {
    /// Whether the error is one of invalid data, as opposed to missing data.
    pub fn is_invalid_data(&self) -> (b: bool)
        ensures
            b == !(*self == LoadError::UnexpectedEof),
    {
        match self {
            LoadError::UnexpectedEof => false,
            _ => true,
        }
    }

    /// The text of `message`.
    pub open spec fn message_text(self) -> Seq<char> {
        match self {
            LoadError::UnexpectedEof => "failed to fill whole buffer"@,
            LoadError::BadMagic => "bad magic"@,
            LoadError::UnsupportedVersion => "unsupported version"@,
            LoadError::InvalidEntry => "invalid float entry"@,
            LoadError::TooLarge => "dimensions too large"@,
            LoadError::ChecksumMismatch => "checksum mismatch"@,
        }
    }

    /// A short description for people.
    pub fn message(&self) -> (text: &'static str)
        ensures
            text@ == self.message_text(),
    {
        match self {
            LoadError::UnexpectedEof => "failed to fill whole buffer",
            LoadError::BadMagic => "bad magic",
            LoadError::UnsupportedVersion => "unsupported version",
            LoadError::InvalidEntry => "invalid float entry",
            LoadError::TooLarge => "dimensions too large",
            LoadError::ChecksumMismatch => "checksum mismatch",
        }
    }
}

/// The load error that a failure to decode one entry becomes.
pub open spec fn entry_error(e: DecodeError) -> LoadError {
    match e {
        DecodeError::UnexpectedEof => LoadError::UnexpectedEof,
        DecodeError::InvalidPrecision => LoadError::InvalidEntry,
        DecodeError::LimbCountMismatch => LoadError::InvalidEntry,
    }
}

/// The BLAKE3 hash of a byte sequence.
pub uninterp spec fn blake3_hash(data: Seq<u8>) -> Seq<u8>;

/// Hashes `data` with `blake3::hash`. The result is the 32-byte BLAKE3 hash
/// of the input, a function of the input bytes alone; nothing more is claimed
/// of it.
#[verifier::external_body]
fn blake3_digest(data: &[u8]) -> (out: [u8; 32])
    ensures
        out@ == blake3_hash(data@),
{
    *blake3::hash(data).as_bytes()
}

/// The trailer for a body: the 32 bytes of its hash.
pub open spec fn checksum(body: Seq<u8>) -> Seq<u8> {
    Seq::new(CHECKSUM_LEN as nat, |i: int| blake3_hash(body)[i])
}

/// One entry of the body: the length of the float's encoding, then the
/// encoding.
pub open spec fn entry_bytes(f: FloatParts) -> Seq<u8> {
    spec_u64_to_le_bytes(float_bytes(f).len() as u64) + float_bytes(f)
}

/// The body: the entries one after another.
pub open spec fn body_bytes(data: Seq<FloatParts>) -> Seq<u8>
    decreases data.len(),
{
    if data.len() == 0 {
        Seq::empty()
    } else {
        body_bytes(data.drop_last()) + entry_bytes(data.last())
    }
}

pub open spec fn header_bytes(rows: nat, cols: nat) -> Seq<u8> {
    magic() + seq![RUGMAT_VERSION] + spec_u64_to_le_bytes(rows as u64) + spec_u64_to_le_bytes(
        cols as u64,
    )
}

/// The stored form of a matrix.
pub open spec fn file_bytes(m: MatView) -> Seq<u8> {
    header_bytes(m.rows, m.cols) + body_bytes(m.data) + checksum(body_bytes(m.data))
}

/// Reads `count` entries from the start of `body`. Gives the floats and the
/// number of bytes they occupy, or the error of the first entry that cannot be
/// read.
pub open spec fn parse_entries(body: Seq<u8>, count: nat) -> Result<(Seq<FloatParts>, nat), LoadError>
    decreases count,
{
    if count == 0 {
        Ok((Seq::empty(), 0))
    } else {
        match parse_entries(body, (count - 1) as nat) {
            Err(e) => Err(e),
            Ok((floats, pos)) => {
                if body.len() - pos < 8 {
                    Err(LoadError::UnexpectedEof)
                } else {
                    let at = pos as int;
                    let len = spec_u64_from_le_bytes(body.subrange(at, at + 8)) as nat;
                    if body.len() - pos - 8 < len {
                        Err(LoadError::UnexpectedEof)
                    } else {
                        match parse_float(body.subrange(at + 8, at + 8 + len)) {
                            Err(e) => Err(entry_error(e)),
                            Ok((f, used)) => Ok((floats.push(f), (pos + 8 + len) as nat)),
                        }
                    }
                }
            },
        }
    }
}

/// What loading makes of the bytes after the header, for the dimensions that
/// the header gave: the entries, then the trailer, which must be the checksum
/// of the bytes that the entries occupy.
pub open spec fn parse_body(rest: Seq<u8>, rows: nat, cols: nat) -> Result<MatView, LoadError> {
    match parse_entries(rest, rows * cols) {
        Err(e) => Err(e),
        Ok((data, end)) => {
            if rest.len() - end < CHECKSUM_LEN {
                Err(LoadError::UnexpectedEof)
            } else if rest.subrange(end as int, end as int + CHECKSUM_LEN) != checksum(
                rest.take(end as int),
            ) {
                Err(LoadError::ChecksumMismatch)
            } else {
                Ok(MatView { rows, cols, data })
            }
        },
    }
}

/// What loading makes of a byte sequence: the matrix stored at its start, or
/// the first error met while reading front to back. Bytes after the trailer
/// are not looked at.
pub open spec fn parse_file(bytes: Seq<u8>) -> Result<MatView, LoadError> {
    if bytes.len() < 6 {
        Err(LoadError::UnexpectedEof)
    } else if bytes.subrange(0, 6) != magic() {
        Err(LoadError::BadMagic)
    } else if bytes.len() < 7 {
        Err(LoadError::UnexpectedEof)
    } else if bytes[6] != RUGMAT_VERSION {
        Err(LoadError::UnsupportedVersion)
    } else if bytes.len() < FILE_HEADER_LEN {
        Err(LoadError::UnexpectedEof)
    } else {
        let rows = spec_u64_from_le_bytes(bytes.subrange(7, 15)) as nat;
        let cols = spec_u64_from_le_bytes(bytes.subrange(15, 23)) as nat;
        let rest = bytes.skip(FILE_HEADER_LEN as int);
        if rows > usize::MAX || cols > usize::MAX {
            Err(LoadError::TooLarge)
        } else {
            parse_body(rest, rows, cols)
        }
    }
}

/// Once an entry cannot be read, reading more entries fails the same way.
pub proof fn lemma_entry_error_sticks(body: Seq<u8>, failed: nat, count: nat)
    requires
        failed <= count,
        parse_entries(body, failed) is Err,
    ensures
        parse_entries(body, count) == parse_entries(body, failed),
    decreases count,
{
    if failed < count {
        lemma_entry_error_sticks(body, failed, (count - 1) as nat);
    }
}

/// Entries that were read lie inside the body, and there are as many floats
/// as were asked for, each well formed.
pub proof fn lemma_parse_entries_bounds(body: Seq<u8>, count: nat)
    requires
        parse_entries(body, count) is Ok,
    ensures
        parse_entries(body, count)->Ok_0.0.len() == count,
        parse_entries(body, count)->Ok_0.1 <= body.len(),
        8 * count <= parse_entries(body, count)->Ok_0.1,
        forall|k: int|
            0 <= k < count ==> (#[trigger] parse_entries(body, count)->Ok_0.0[k]).wf(),
    decreases count,
{
    if count > 0 {
        lemma_parse_entries_bounds(body, (count - 1) as nat);
    }
}

fn bytes_equal(a: &[u8], b: &[u8]) -> (same: bool)
    ensures
        same == (a@ == b@),
{
    if a.len() != b.len() {
        return false;
    }
    let mut i: usize = 0;
    while i < a.len()
        invariant
            i <= a@.len(),
            a@.len() == b@.len(),
            forall|k: int| 0 <= k < i ==> a@[k] == b@[k],
        decreases a@.len() - i,
    {
        if a[i] != b[i] {
            return false;
        }
        i += 1;
    }
    assert(a@ =~= b@);
    true
}

fn is_magic(bytes: &[u8]) -> (same: bool)
    requires
        bytes@.len() == 6,
    ensures
        same == (bytes@ == magic()),
{
    let same: bool = bytes[0] == 0x52 && bytes[1] == 0x55 && bytes[2] == 0x47 && bytes[3] == 0x4D
        && bytes[4] == 0x41 && bytes[5] == 0x54;
    if same {
        assert(bytes@ =~= magic());
    }
    same
}

fn load_error_of(e: DecodeError) -> (out: LoadError)
    ensures
        out == entry_error(e),
{
    match e {
        DecodeError::UnexpectedEof => LoadError::UnexpectedEof,
        DecodeError::InvalidPrecision => LoadError::InvalidEntry,
        DecodeError::LimbCountMismatch => LoadError::InvalidEntry,
    }
}

impl RugMat {
    /// The stored form of the matrix.
    pub fn to_bytes(&self) -> (out: Vec<u8>)
        requires
            self.wf(),
        ensures
            out@ == file_bytes(self@),
    {
        let mut out: Vec<u8> = Vec::new();
        out.push(0x52);
        out.push(0x55);
        out.push(0x47);
        out.push(0x4D);
        out.push(0x41);
        out.push(0x54);
        out.push(RUGMAT_VERSION);
        let mut rows_bytes: Vec<u8> = u64_to_le_bytes(self.rows as u64);
        out.append(&mut rows_bytes);
        let mut cols_bytes: Vec<u8> = u64_to_le_bytes(self.cols as u64);
        out.append(&mut cols_bytes);
        proof {
            lemma_auto_spec_u64_to_from_le_bytes();
            assert(out@ =~= header_bytes(self@.rows, self@.cols));
        }
        let n: usize = self.data.len();
        let mut i: usize = 0;
        while i < n
            invariant
                i <= n,
                n == self.data@.len(),
                out@ == header_bytes(self@.rows, self@.cols) + body_bytes(self@.data.take(i as int)),
                header_bytes(self@.rows, self@.cols).len() == FILE_HEADER_LEN,
            decreases n - i,
        {
            let mut entry: Vec<u8> = Vec::new();
            write_float(&mut entry, &self.data[i]);
            let mut len_bytes: Vec<u8> = u64_to_le_bytes(entry.len() as u64);
            proof {
                let f = self@.data[i as int];
                let taken = self@.data.take(i + 1);
                assert(entry@ =~= float_bytes(f));
                assert(taken.drop_last() =~= self@.data.take(i as int));
                assert(taken.last() == f);
            }
            out.append(&mut len_bytes);
            out.append(&mut entry);
            i += 1;
            assert(out@ =~= header_bytes(self@.rows, self@.cols) + body_bytes(
                self@.data.take(i as int),
            ));
        }
        proof {
            assert(self@.data.take(n as int) =~= self@.data);
        }
        let digest: [u8; 32] = blake3_digest(slice_subrange(out.as_slice(), FILE_HEADER_LEN, out.len()));
        proof {
            assert(out@.subrange(FILE_HEADER_LEN as int, out@.len() as int) =~= body_bytes(
                self@.data,
            ));
            assert(digest@ =~= checksum(body_bytes(self@.data)));
        }
        let ghost before = out@;
        let mut k: usize = 0;
        while k < 32
            invariant
                k <= 32,
                digest@.len() == 32,
                out@ == before + digest@.take(k as int),
            decreases 32 - k,
        {
            out.push(digest[k]);
            k += 1;
            assert(out@ =~= before + digest@.take(k as int));
        }
        assert(digest@.take(32) =~= digest@);
        out
    }

    /// Reads the matrix stored at the start of `bytes`. The whole of it is
    /// read and its checksum compared before a matrix is returned.
    pub fn from_bytes(bytes: &[u8]) -> (out: Result<RugMat, LoadError>)
        ensures
            match out {
                Ok(m) => parse_file(bytes@) == Ok::<MatView, LoadError>(m@) && m.wf() && m@.wf(),
                Err(e) => parse_file(bytes@) == Err::<MatView, LoadError>(e),
            },
    {
        let total: usize = bytes.len();
        if total < 6 {
            return Err(LoadError::UnexpectedEof);
        }
        if !is_magic(slice_subrange(bytes, 0, 6)) {
            return Err(LoadError::BadMagic);
        }
        if total < 7 {
            return Err(LoadError::UnexpectedEof);
        }
        if bytes[6] != RUGMAT_VERSION {
            return Err(LoadError::UnsupportedVersion);
        }
        if total < FILE_HEADER_LEN {
            return Err(LoadError::UnexpectedEof);
        }
        let rows: u64 = u64_from_le_bytes(slice_subrange(bytes, 7, 15));
        let cols: u64 = u64_from_le_bytes(slice_subrange(bytes, 15, 23));
        if rows > usize::MAX as u64 || cols > usize::MAX as u64 {
            return Err(LoadError::TooLarge);
        }
        assert(rows * cols <= u128::MAX) by (nonlinear_arith)
            requires
                rows <= u64::MAX,
                cols <= u64::MAX,
        ;
        let count: u128 = (rows as u128) * (cols as u128);
        let rest: &[u8] = slice_subrange(bytes, FILE_HEADER_LEN, total);
        assert(rest@ =~= bytes@.skip(FILE_HEADER_LEN as int));
        let rest_len: usize = rest.len();
        let mut data: Vec<RawFloat> = Vec::new();
        let mut pos: usize = 0;
        assert(Seq::new(data@.len(), |k: int| data@[k]@) =~= Seq::<FloatParts>::empty());
        while (data.len() as u128) < count
            invariant
                data@.len() <= count,
                count == rows * cols,
                pos <= rest_len,
                rest_len == rest@.len(),
                parse_file(bytes@) == parse_body(rest@, rows as nat, cols as nat),
                parse_entries(rest@, data@.len() as nat) == Ok::<(Seq<FloatParts>, nat), LoadError>(
                    (Seq::new(data@.len(), |k: int| data@[k]@), pos as nat),
                ),
            decreases count - data@.len(),
        {
            let ghost done = data@.len() as nat;
            let ghost floats = Seq::new(data@.len(), |k: int| data@[k]@);
            if rest_len - pos < 8 {
                proof {
                    lemma_entry_error_sticks(rest@, done + 1, count as nat);
                }
                return Err(LoadError::UnexpectedEof);
            }
            let len: u64 = u64_from_le_bytes(slice_subrange(rest, pos, pos + 8));
            if ((rest_len - pos - 8) as u64) < len {
                proof {
                    lemma_entry_error_sticks(rest@, done + 1, count as nat);
                }
                return Err(LoadError::UnexpectedEof);
            }
            let start: usize = pos + 8;
            let end: usize = start + len as usize;
            match read_float(slice_subrange(rest, start, end)) {
                Err(e) => {
                    proof {
                        lemma_entry_error_sticks(rest@, done + 1, count as nat);
                    }
                    return Err(load_error_of(e));
                },
                Ok((f, used)) => {
                    data.push(f);
                    pos = end;
                    proof {
                        assert(Seq::new(data@.len(), |k: int| data@[k]@) =~= floats.push(f@));
                    }
                },
            }
        }
        proof {
            lemma_parse_entries_bounds(rest@, count as nat);
        }
        if rest_len - pos < CHECKSUM_LEN {
            return Err(LoadError::UnexpectedEof);
        }
        let digest: [u8; 32] = blake3_digest(slice_subrange(rest, 0, pos));
        proof {
            assert(rest@.subrange(0, pos as int) =~= rest@.take(pos as int));
            assert(digest@ =~= checksum(rest@.take(pos as int)));
        }
        if !bytes_equal(slice_subrange(rest, pos, pos + CHECKSUM_LEN), digest.as_slice()) {
            return Err(LoadError::ChecksumMismatch);
        }
        let m = RugMat { data, rows: rows as usize, cols: cols as usize };
        assert(m@.data =~= parse_entries(rest@, count as nat)->Ok_0.0);
        Ok(m)
    }
}

} // verus!
