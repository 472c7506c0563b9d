use vstd::prelude::*;
use vstd::utf8::encode_utf8;

use crate::codec::{dec_str, dec_u64, enc_str, enc_u64, fits_u64, lemma_dec_enc_str,
    lemma_dec_enc_u64, lemma_enc_u64_len, read_str, read_u64, write_str, write_u64};
use crate::errors::SqlLayerError;

verus! {

/// Per-table metadata: the monotonic row-id counter, persisted with the
/// table's name. A `max_row_id` of zero denotes an empty table.
pub struct TableMetadataView {
    pub name: Seq<char>,
    pub max_row_id: u64,
}

/// Per-table metadata: the monotonic row-id counter.
#[derive(Debug, Clone, PartialEq)]
pub struct TableMetadata {
    pub name: String,
    pub max_row_id: u64,
}

impl View for TableMetadata {
    type V = TableMetadataView;

    open spec fn view(&self) -> TableMetadataView {
        TableMetadataView { name: self.name@, max_row_id: self.max_row_id }
    }
}

impl TableMetadata {
    /// Fresh metadata for a table with no rows yet.
    pub fn new(name: String) -> (r: Self)
        ensures
            r@.name == name@,
            r@.max_row_id == 0,
    {
        Self { name, max_row_id: 0 }
    }

    /// Bumps the row-id counter by one; runs inside the insert transaction.
    pub fn increment_max_row_id(&mut self)
        requires
            old(self).max_row_id < u64::MAX,
        ensures
            final(self)@.name == old(self)@.name,
            final(self)@.max_row_id == old(self)@.max_row_id + 1,
    {
        self.max_row_id = self.max_row_id + 1;
    }

    /// The row id the next insert will use.
    pub fn get_current_row_id(&self) -> (r: u64)
        ensures
            r == self@.max_row_id,
    {
        self.max_row_id
    }

    /// Serializes the metadata: the table name, then the row-id counter.
    pub fn to_bytes(&self) -> (r: Result<Vec<u8>, SqlLayerError>)
        ensures
            r matches Ok(v) && v@ == enc_table_metadata(self@),
    {
        let mut out: Vec<u8> = Vec::new();
        write_str(&mut out, self.name.as_str());
        write_u64(&mut out, self.max_row_id);
        proof {
            assert(out@ =~= enc_table_metadata(self@));
        }
        Ok(out)
    }

    /// Deserializes metadata, failing on any input that is not exactly one
    /// encoded metadata record.
    pub fn from_bytes(bytes: &[u8]) -> (r: Result<Self, SqlLayerError>)
        ensures
            match dec_table_metadata(bytes@, 0) {
                Some((mv, n)) => if n == bytes@.len() {
                    r matches Ok(m) && m@ == mv
                } else {
                    r == Err::<Self, SqlLayerError>(SqlLayerError::SerializationFailure)
                },
                None => r == Err::<Self, SqlLayerError>(SqlLayerError::SerializationFailure),
            },
    {
        match read_str(bytes, 0) {
            Some((name, j)) => match read_u64(bytes, j) {
                Some((max_row_id, k)) => {
                    if k == bytes.len() {
                        Ok(Self { name, max_row_id })
                    } else {
                        Err(SqlLayerError::SerializationFailure)
                    }
                },
                None => Err(SqlLayerError::SerializationFailure),
            },
            None => Err(SqlLayerError::SerializationFailure),
        }
    }
}

/// The serialized form of table metadata: the name, then the counter.
pub open spec fn enc_table_metadata(m: TableMetadataView) -> Seq<u8> {
    enc_str(m.name) + enc_u64(m.max_row_id)
}

pub open spec fn dec_table_metadata(b: Seq<u8>, i: int) -> Option<(TableMetadataView, int)> {
    match dec_str(b, i) {
        Some((name, j)) => match dec_u64(b, j) {
            Some((max_row_id, k)) => Some((TableMetadataView { name, max_row_id }, k)),
            None => None,
        },
        None => None,
    }
}

/// Decoding an encoded metadata record yields the record back: the codec
/// round-trips on every value whose name's UTF-8 form fits the length field.
pub proof fn lemma_dec_enc_table_metadata(b: Seq<u8>, i: int, m: TableMetadataView)
    requires
        0 <= i,
        fits_u64(encode_utf8(m.name).len()),
        i + enc_table_metadata(m).len() <= b.len(),
        b.subrange(i, i + enc_table_metadata(m).len()) == enc_table_metadata(m),
    ensures
        dec_table_metadata(b, i) == Some((m, i + enc_table_metadata(m).len())),
{
    let e1 = enc_str(m.name);
    let e2 = enc_u64(m.max_row_id);
    let e = enc_table_metadata(m);
    lemma_enc_u64_len(m.max_row_id);
    assert(b.subrange(i, i + e1.len() as int) =~= e.subrange(0, e1.len() as int));
    assert(e.subrange(0, e1.len() as int) =~= e1);
    lemma_dec_enc_str(b, i, m.name);
    let j = i + e1.len() as int;
    assert(b.subrange(j, j + 8) =~= e.subrange(e1.len() as int, e1.len() as int + 8));
    assert(e.subrange(e1.len() as int, e1.len() as int + 8) =~= e2);
    lemma_dec_enc_u64(b, j, m.max_row_id);
}

/// The metadata codec round-trips: `from_bytes` of `to_bytes` is the
/// identity on every metadata value.
pub proof fn lemma_table_metadata_round_trip(m: TableMetadataView)
    requires
        fits_u64(encode_utf8(m.name).len()),
    ensures
        dec_table_metadata(enc_table_metadata(m), 0) == Some(
            (m, enc_table_metadata(m).len() as int),
        ),
{
    let e = enc_table_metadata(m);
    assert(e.subrange(0, e.len() as int) =~= e);
    lemma_dec_enc_table_metadata(e, 0, m);
}

} // verus!
