//! The database core: the decision logic of `create_table`, `add_index`,
//! `insert`, and `get_record_by_pk`. Each operation's transaction body is a
//! pure function from the values read under the transaction to the writes it
//! commits; the shell around the library performs the reads and writes and
//! hands every decision to the functions here.

use vstd::prelude::*;
use vstd::utf8::encode_utf8;

use crate::codec::fits_u64;
use crate::errors::{ErrorView, SqlLayerError};
use crate::index::Index;
use crate::keys::{column_packable, columns_elems, elem_i64, index_key, index_key_spec,
    lemma_elem_i64_inj, lemma_prefixed_keys_distinct, name_packable, pk_key, pk_key_spec, row_key,
    row_key_spec, row_id_value, table_key, table_key_spec, table_meta_key, table_meta_key_spec,
    unpack_i64_elem, TAG_INDEX, TAG_PRIMARY_KEY, TAG_ROW, TAG_TABLE_META};
use crate::record::{Column, ColumnView, Columns, Record, record_to_row_spec, row_to_record_spec,
    lemma_record_row_round_trip};
use crate::row::{Row, RowView, dec_row, enc_row, row_fits};
use crate::table::{FieldType, FieldView, Table, TableView, enc_table, field_pos_spec};
use crate::table_metadata::{TableMetadata, TableMetadataView, dec_table_metadata,
    enc_table_metadata};

verus! {

// ---------------------------------------------------------------------------
// type validation
// ---------------------------------------------------------------------------

/// True for the five congruent (field type, column variant) pairs that type
/// validation accepts, and for every NULL column: NULL columns do not
/// participate in validation.
pub open spec fn congruent(field: FieldType, column: ColumnView) -> bool {
    match (field, column) {
        (FieldType::Bool, ColumnView::Bool(_)) => true,
        (FieldType::Int, ColumnView::Int(_)) => true,
        (FieldType::String, ColumnView::String(_)) => true,
        (FieldType::Float, ColumnView::Float(_)) => true,
        (FieldType::Bytes, ColumnView::Bytes(_)) => true,
        (_, ColumnView::Null) => true,
        _ => false,
    }
}

/// The name a field type is reported under in a mismatch error.
pub open spec fn field_type_name(t: FieldType) -> Seq<char> {
    match t {
        FieldType::String => "String"@,
        FieldType::Int => "Int"@,
        FieldType::Float => "Float"@,
        FieldType::Bool => "Bool"@,
        FieldType::Bytes => "Bytes"@,
    }
}

/// The name a column variant is reported under in a mismatch error.
pub open spec fn column_type_name(c: ColumnView) -> Seq<char> {
    match c {
        ColumnView::String(_) => "String"@,
        ColumnView::Int(_) => "Int"@,
        ColumnView::Float(_) => "Float"@,
        ColumnView::Bool(_) => "Bool"@,
        ColumnView::Bytes(_) => "Bytes"@,
        ColumnView::Null => "Null"@,
    }
}

/// What checking one column against one field yields: fine, or a mismatch
/// error naming the expected and the found type.
pub open spec fn check_spec(field: FieldType, column: ColumnView) -> Result<(), ErrorView> {
    if congruent(field, column) {
        Ok(())
    } else {
        Err(ErrorView::MismatchedColumnType(field_type_name(field), column_type_name(column)))
    }
}

fn field_type_name_exec(t: &FieldType) -> (r: String)
    ensures
        r@ == field_type_name(*t),
{
    match t {
        FieldType::String => String::from_str("String"),
        FieldType::Int => String::from_str("Int"),
        FieldType::Float => String::from_str("Float"),
        FieldType::Bool => String::from_str("Bool"),
        FieldType::Bytes => String::from_str("Bytes"),
    }
}

fn column_type_name_exec(c: &Column) -> (r: String)
    ensures
        r@ == column_type_name(c@),
{
    match c {
        Column::String(_) => String::from_str("String"),
        Column::Int(_) => String::from_str("Int"),
        Column::Float(_) => String::from_str("Float"),
        Column::Bool(_) => String::from_str("Bool"),
        Column::Bytes(_) => String::from_str("Bytes"),
        Column::Null => String::from_str("Null"),
    }
}

/// Accepts exactly the five congruent (field type, column variant) pairs
/// and every NULL column, and reports any other pair as a mismatch of the
/// two type names.
pub fn check_field_against_column(field: &FieldType, column: &Column) -> (r: Result<
    (),
    SqlLayerError,
>)
    ensures
        match r {
            Ok(_) => check_spec(*field, column@) == Ok::<(), ErrorView>(()),
            Err(e) => check_spec(*field, column@) == Err::<(), ErrorView>(e@),
        },
{
    let ok = match (field, column) {
        (FieldType::Bool, Column::Bool(_)) => true,
        (FieldType::Int, Column::Int(_)) => true,
        (FieldType::String, Column::String(_)) => true,
        (FieldType::Float, Column::Float(_)) => true,
        (FieldType::Bytes, Column::Bytes(_)) => true,
        (_, Column::Null) => true,
        _ => false,
    };
    if ok {
        Ok(())
    } else {
        Err(
            SqlLayerError::MismatchedColumnType(
                field_type_name_exec(field),
                column_type_name_exec(column),
            ),
        )
    }
}

/// What validating a record against a schema yields: the first mismatch
/// among the pairs formed by position, or fine. Only the first
/// `min(|fields|, |columns|)` positions participate.
pub open spec fn validate_spec(fields: Seq<FieldView>, cols: Seq<ColumnView>) -> Result<
    (),
    ErrorView,
>
    decreases fields.len(),
{
    if fields.len() == 0 || cols.len() == 0 {
        Ok(())
    } else {
        match check_spec(fields[0].field_type, cols[0]) {
            Ok(_) => validate_spec(fields.drop_first(), cols.drop_first()),
            Err(e) => Err(e),
        }
    }
}

/// What [`validate_spec`] returns: fine exactly when every paired position
/// is congruent; otherwise the mismatch error of the first incongruent
/// position.
pub proof fn lemma_validate_spec(fields: Seq<FieldView>, cols: Seq<ColumnView>)
    ensures
        match validate_spec(fields, cols) {
            Ok(_) => forall|i: int|
                0 <= i < fields.len() && i < cols.len() ==> congruent(
                    (#[trigger] fields[i]).field_type,
                    cols[i],
                ),
            Err(e) => exists|i: int|
                {
                    &&& 0 <= i < fields.len() && i < cols.len()
                    &&& !congruent((#[trigger] fields[i]).field_type, cols[i])
                    &&& e == ErrorView::MismatchedColumnType(
                        field_type_name(fields[i].field_type),
                        column_type_name(cols[i]),
                    )
                    &&& forall|j: int| 0 <= j < i ==> congruent((#[trigger] fields[j]).field_type, cols[j])
                },
        },
    decreases fields.len(),
{
    if fields.len() == 0 || cols.len() == 0 {
    } else {
        lemma_validate_spec(fields.drop_first(), cols.drop_first());
        match validate_spec(fields, cols) {
            Ok(_) => {
                assert forall|i: int|
                    0 <= i < fields.len() && i < cols.len() implies congruent(
                    (#[trigger] fields[i]).field_type,
                    cols[i],
                ) by {
                    if i > 0 {
                        assert(fields.drop_first()[i - 1] == fields[i]);
                        assert(cols.drop_first()[i - 1] == cols[i]);
                    }
                }
            },
            Err(e) => {
                if check_spec(fields[0].field_type, cols[0]) is Err {
                    assert(0 <= 0 < fields.len() && 0 < cols.len() && !congruent(
                        fields[0].field_type,
                        cols[0],
                    ) && e == ErrorView::MismatchedColumnType(
                        field_type_name(fields[0].field_type),
                        column_type_name(cols[0]),
                    ));
                } else {
                    let i0 = choose|i: int|
                        {
                            &&& 0 <= i < fields.drop_first().len() && i < cols.drop_first().len()
                            &&& !congruent(
                                (#[trigger] fields.drop_first()[i]).field_type,
                                cols.drop_first()[i],
                            )
                            &&& e == ErrorView::MismatchedColumnType(
                                field_type_name(fields.drop_first()[i].field_type),
                                column_type_name(cols.drop_first()[i]),
                            )
                            &&& forall|j: int|
                                0 <= j < i ==> congruent(
                                    (#[trigger] fields.drop_first()[j]).field_type,
                                    cols.drop_first()[j],
                                )
                        };
                    assert(fields.drop_first()[i0] == fields[i0 + 1]);
                    assert(cols.drop_first()[i0] == cols[i0 + 1]);
                    assert forall|j: int| 0 <= j < i0 + 1 implies congruent(
                        (#[trigger] fields[j]).field_type,
                        cols[j],
                    ) by {
                        if j > 0 {
                            assert(fields.drop_first()[j - 1] == fields[j]);
                            assert(cols.drop_first()[j - 1] == cols[j]);
                        }
                    }
                    assert({
                        &&& 0 <= i0 + 1 < fields.len() && i0 + 1 < cols.len()
                        &&& !congruent(fields[i0 + 1].field_type, cols[i0 + 1])
                        &&& e == ErrorView::MismatchedColumnType(
                            field_type_name(fields[i0 + 1].field_type),
                            column_type_name(cols[i0 + 1]),
                        )
                    });
                }
            },
        }
    }
}

/// Pairs the schema's fields with the record's columns by position and
/// checks each pair, reporting the first mismatch.
pub fn validate_record(table: &Table, record: &Record) -> (r: Result<(), SqlLayerError>)
    ensures
        match r {
            Ok(_) => validate_spec(table@.fields, record@) == Ok::<(), ErrorView>(()),
            Err(e) => validate_spec(table@.fields, record@) == Err::<(), ErrorView>(e@),
        },
{
    let nf = table.fields.len();
    let nc = record.columns.len();
    let n = if nf < nc {
        nf
    } else {
        nc
    };
    let mut i: usize = 0;
    proof {
        assert(table@.fields.skip(0) =~= table@.fields);
        assert(record@.skip(0) =~= record@);
    }
    while i < n
        invariant
            0 <= i <= n,
            n == if table.fields.len() < record.columns.len() {
                table.fields.len()
            } else {
                record.columns.len()
            },
            table@.fields == table.fields.deep_view(),
            record@ == record.columns.deep_view(),
            validate_spec(table@.fields, record@) == validate_spec(
                table@.fields.skip(i as int),
                record@.skip(i as int),
            ),
        decreases n - i,
    {
        match check_field_against_column(&table.fields[i].field_type, &record.columns[i]) {
            Ok(_) => {
                proof {
                    let fs = table@.fields.skip(i as int);
                    let cs = record@.skip(i as int);
                    assert(fs[0] == table@.fields[i as int]);
                    assert(cs[0] == record@[i as int]);
                    assert(fs.drop_first() =~= table@.fields.skip(i + 1));
                    assert(cs.drop_first() =~= record@.skip(i + 1));
                }
            },
            Err(e) => {
                proof {
                    let fs = table@.fields.skip(i as int);
                    let cs = record@.skip(i as int);
                    assert(fs[0] == table@.fields[i as int]);
                    assert(cs[0] == record@[i as int]);
                }
                return Err(e);
            },
        }
        i = i + 1;
    }
    proof {
        let fs = table@.fields.skip(n as int);
        let cs = record@.skip(n as int);
        assert(fs.len() == 0 || cs.len() == 0);
    }
    Ok(())
}

// ---------------------------------------------------------------------------
// key-column extraction
// ---------------------------------------------------------------------------

/// What gathering the named columns of a record yields, starting at the
/// `k`-th name: the columns at the fields' positions, in order, or the first
/// missing-column error, either for a name that is no field or for a
/// position past the record's end.
pub open spec fn extract_from_spec(
    t: TableView,
    rec: Seq<ColumnView>,
    names: Seq<Seq<char>>,
    k: int,
) -> Result<Seq<ColumnView>, ErrorView>
    decreases names.len() - k,
{
    if k < 0 || k >= names.len() {
        Ok(Seq::empty())
    } else {
        match field_pos_spec(t.fields, names[k]) {
            None => Err(ErrorView::MissingColumn(names[k])),
            Some(p) => if 0 <= p < rec.len() {
                match extract_from_spec(t, rec, names, k + 1) {
                    Ok(rest) => Ok(seq![rec[p]] + rest),
                    Err(e) => Err(e),
                }
            } else {
                Err(ErrorView::MissingColumn(names[k]))
            },
        }
    }
}

/// What gathering the named columns of a record yields.
pub open spec fn extract_spec(t: TableView, rec: Seq<ColumnView>, names: Seq<Seq<char>>) -> Result<
    Seq<ColumnView>,
    ErrorView,
> {
    extract_from_spec(t, rec, names, 0)
}

/// Gathers the columns of `record` named by `names`, positionally through
/// the schema's field list, reporting the first name that has no field or
/// whose position lies past the record's end.
pub fn extract_columns(table: &Table, record: &Record, names: &Vec<String>) -> (r: Result<
    Vec<Column>,
    SqlLayerError,
>)
    ensures
        match r {
            Ok(cols) => extract_spec(table@, record@, names.deep_view()) == Ok::<
                Seq<ColumnView>,
                ErrorView,
            >(cols.deep_view()),
            Err(e) => extract_spec(table@, record@, names.deep_view()) == Err::<
                Seq<ColumnView>,
                ErrorView,
            >(e@),
        },
{
    let n = names.len();
    let mut acc: Vec<Column> = Vec::new();
    let mut k: usize = 0;
    proof {
        match extract_from_spec(table@, record@, names.deep_view(), 0) {
            Ok(rest) => {
                assert(acc.deep_view() + rest =~= rest);
            },
            Err(_) => {},
        }
    }
    while k < n
        invariant
            0 <= k <= n,
            n == names.len(),
            table@ == table.view(),
            record@ == record.columns.deep_view(),
            extract_from_spec(table@, record@, names.deep_view(), 0) == (match extract_from_spec(
                table@,
                record@,
                names.deep_view(),
                k as int,
            ) {
                Ok(rest) => Ok::<Seq<ColumnView>, ErrorView>(acc.deep_view() + rest),
                Err(e) => Err::<Seq<ColumnView>, ErrorView>(e),
            }),
        decreases n - k,
    {
        let ghost prev = acc.deep_view();
        match table.get_field_pos(&names[k]) {
            None => {
                return Err(SqlLayerError::MissingColumn(names[k].clone()));
            },
            Some(p) => {
                if p < record.columns.len() {
                    let c = record.columns[p].clone();
                    proof {
                        assert(c@ == record@[p as int]);
                    }
                    acc.push(c);
                    proof {
                        assert(acc.deep_view() =~= prev.push(record@[p as int]));
                        match extract_from_spec(table@, record@, names.deep_view(), k + 1) {
                            Ok(rest) => {
                                assert(prev + (seq![record@[p as int]] + rest) =~= prev.push(
                                    record@[p as int],
                                ) + rest);
                            },
                            Err(_) => {},
                        }
                    }
                } else {
                    return Err(SqlLayerError::MissingColumn(names[k].clone()));
                }
            },
        }
        k = k + 1;
    }
    proof {
        assert(acc.deep_view() + Seq::<ColumnView>::empty() =~= acc.deep_view());
    }
    Ok(acc)
}

/// Extraction yields only columns of the record, so every extracted column
/// of a packable record is packable.
pub proof fn lemma_extract_packable(
    t: TableView,
    rec: Seq<ColumnView>,
    names: Seq<Seq<char>>,
    k: int,
)
    requires
        forall|i: int| 0 <= i < rec.len() ==> column_packable(#[trigger] rec[i]),
    ensures
        extract_from_spec(t, rec, names, k) matches Ok(cols) ==> forall|i: int|
            0 <= i < cols.len() ==> column_packable(#[trigger] cols[i]),
    decreases names.len() - k,
{
    if k < 0 || k >= names.len() {
    } else {
        lemma_extract_packable(t, rec, names, k + 1);
        match field_pos_spec(t.fields, names[k]) {
            None => {},
            Some(p) => {
                if 0 <= p < rec.len() {
                    match extract_from_spec(t, rec, names, k + 1) {
                        Ok(rest) => {
                            let cols = seq![rec[p]] + rest;
                            assert forall|i: int| 0 <= i < cols.len() implies column_packable(
                                #[trigger] cols[i],
                            ) by {
                                if i == 0 {
                                    assert(cols[0] == rec[p]);
                                } else {
                                    assert(cols[i] == rest[i - 1]);
                                }
                            }
                        },
                        Err(_) => {},
                    }
                }
            },
        }
    }
}

// ---------------------------------------------------------------------------
// the insert protocol
// ---------------------------------------------------------------------------

/// The ghost form of one insert's outcome: the ordered key-value writes the
/// transaction commits, the row id it assigned, and the bumped metadata.
pub struct InsertPlanView {
    pub writes: Seq<(Seq<u8>, Seq<u8>)>,
    pub row_id: i64,
    pub new_meta: TableMetadataView,
}

/// One insert's outcome: the ordered key-value writes the transaction
/// commits, the row id it assigned, and the bumped metadata.
#[derive(Debug)]
pub struct InsertPlan {
    pub writes: Vec<(Vec<u8>, Vec<u8>)>,
    pub row_id: i64,
    pub new_meta: TableMetadata,
}

impl View for InsertPlan {
    type V = InsertPlanView;

    open spec fn view(&self) -> InsertPlanView {
        InsertPlanView {
            writes: self.writes.deep_view(),
            row_id: self.row_id,
            new_meta: self.new_meta@,
        }
    }
}

/// The metadata an insert works with: decoded from the stored bytes, or
/// created fresh for a table that has no rows yet. The flag says whether
/// the fresh record must also be written, as the lazy create does.
pub open spec fn meta_or_new_spec(table_name: Seq<char>, meta_bytes: Option<Seq<u8>>) -> Result<
    (TableMetadataView, bool),
    ErrorView,
> {
    match meta_bytes {
        None => Ok((TableMetadataView { name: table_name, max_row_id: 0 }, true)),
        Some(b) => match dec_table_metadata(b, 0) {
            Some((mv, n)) => if n == b.len() {
                Ok((mv, false))
            } else {
                Err(ErrorView::SerializationFailure)
            },
            None => Err(ErrorView::SerializationFailure),
        },
    }
}

/// What gathering every secondary index's columns yields, from the `k`-th
/// index on: one ordered column tuple per index, or the first
/// missing-column error.
pub open spec fn extract_indexes_from_spec(t: TableView, rec: Seq<ColumnView>, k: int) -> Result<
    Seq<Seq<ColumnView>>,
    ErrorView,
>
    decreases t.indexes.len() - k,
{
    if k < 0 || k >= t.indexes.len() {
        Ok(Seq::empty())
    } else {
        match extract_spec(t, rec, t.indexes[k].fields) {
            Err(e) => Err(e),
            Ok(cols) => match extract_indexes_from_spec(t, rec, k + 1) {
                Ok(rest) => Ok(seq![cols] + rest),
                Err(e) => Err(e),
            },
        }
    }
}

/// The secondary-index entries one insert writes: for each index, its key
/// tuple packed under the `Index` tag, holding the packed row id.
pub open spec fn index_writes_spec(
    root: Seq<u8>,
    table_name: Seq<char>,
    tuples: Seq<Seq<ColumnView>>,
    row_id: i64,
) -> Seq<(Seq<u8>, Seq<u8>)> {
    Seq::new(tuples.len(), |i: int| (index_key_spec(root, table_name, tuples[i]), elem_i64(row_id)))
}

/// What one insert commits, given the stored schema, the stored metadata
/// bytes if any, and the record: validation and extraction errors in the
/// order the protocol meets them, or the full write set. The writes are, in
/// order: the fresh metadata if it was created lazily, the primary-key
/// entry, one entry per secondary index, the row payload, and the bumped
/// metadata.
pub open spec fn insert_plan_spec(
    root: Seq<u8>,
    table_name: Seq<char>,
    t: TableView,
    meta_bytes: Option<Seq<u8>>,
    rec: Seq<ColumnView>,
) -> Result<InsertPlanView, ErrorView> {
    match validate_spec(t.fields, rec) {
        Err(e) => Err(e),
        Ok(_) => match extract_spec(t, rec, t.primary_key) {
            Err(e) => Err(e),
            Ok(pk) => match meta_or_new_spec(table_name, meta_bytes) {
                Err(e) => Err(e),
                Ok((m, created)) => match extract_indexes_from_spec(t, rec, 0) {
                    Err(e) => Err(e),
                    Ok(tuples) => {
                        let row_id = m.max_row_id as i64;
                        let new_meta = TableMetadataView {
                            name: m.name,
                            max_row_id: (m.max_row_id + 1) as u64,
                        };
                        Ok(
                            InsertPlanView {
                                writes: (if created {
                                    seq![
                                        (
                                            table_meta_key_spec(root, table_name),
                                            enc_table_metadata(m),
                                        ),
                                    ]
                                } else {
                                    Seq::empty()
                                }) + seq![(pk_key_spec(root, table_name, pk), elem_i64(row_id))]
                                    + index_writes_spec(root, table_name, tuples, row_id) + seq![
                                    (
                                        row_key_spec(root, table_name, row_id),
                                        enc_row(RowView { columns: record_to_row_spec(rec) }),
                                    ),
                                ] + seq![
                                    (
                                        table_meta_key_spec(root, table_name),
                                        enc_table_metadata(new_meta),
                                    ),
                                ],
                                row_id,
                                new_meta,
                            },
                        )
                    },
                },
            },
        },
    }
}

fn plan_index_writes(
    root: &Vec<u8>,
    table_name: &String,
    table: &Table,
    record: &Record,
    row_id: i64,
) -> (r: Result<Vec<(Vec<u8>, Vec<u8>)>, SqlLayerError>)
    requires
        name_packable(table_name@),
        forall|i: int| 0 <= i < record@.len() ==> column_packable(#[trigger] record@[i]),
    ensures
        match extract_indexes_from_spec(table@, record@, 0) {
            Ok(tuples) => r matches Ok(ws) && ws.deep_view() == index_writes_spec(
                root@,
                table_name@,
                tuples,
                row_id,
            ),
            Err(e) => r matches Err(e2) && e2@ == e,
        },
{
    let mut ws: Vec<(Vec<u8>, Vec<u8>)> = Vec::new();
    let ghost mut tuples_acc: Seq<Seq<ColumnView>> = Seq::empty();
    let n = table.indexes.len();
    let mut k: usize = 0;
    proof {
        assert(ws.deep_view() =~~= index_writes_spec(root@, table_name@, tuples_acc, row_id));
        match extract_indexes_from_spec(table@, record@, 0) {
            Ok(rest) => {
                assert(tuples_acc + rest =~= rest);
            },
            Err(_) => {},
        }
    }
    while k < n
        invariant
            0 <= k <= n,
            n == table.indexes.len(),
            name_packable(table_name@),
            forall|i: int| 0 <= i < record@.len() ==> column_packable(#[trigger] record@[i]),
            table@ == table.view(),
            record@ == record.columns.deep_view(),
            n == table@.indexes.len(),
            ws.deep_view() == index_writes_spec(root@, table_name@, tuples_acc, row_id),
            extract_indexes_from_spec(table@, record@, 0) == (match extract_indexes_from_spec(
                table@,
                record@,
                k as int,
            ) {
                Ok(rest) => Ok::<Seq<Seq<ColumnView>>, ErrorView>(tuples_acc + rest),
                Err(e) => Err::<Seq<Seq<ColumnView>>, ErrorView>(e),
            }),
        decreases n - k,
    {
        proof {
            assert(table@.indexes[k as int] == table.indexes.deep_view()[k as int]);
        }
        let cols = match extract_columns(table, record, table.indexes[k].fields()) {
            Ok(cols) => cols,
            Err(e) => {
                return Err(e);
            },
        };
        proof {
            lemma_extract_packable(table@, record@, table@.indexes[k as int].fields, 0);
            let r_s = extract_from_spec(table@, record@, table@.indexes[k as int].fields, 0);
            assert(r_s == Ok::<Seq<ColumnView>, ErrorView>(cols.deep_view()));
            assert forall|i: int| 0 <= i < cols@.len() implies column_packable(
                (#[trigger] cols@[i])@,
            ) by {
                assert(column_packable(r_s->Ok_0[i]));
            }
        }
        let key = index_key(root, table_name, &cols);
        let value = row_id_value(row_id);
        let ghost prev = ws.deep_view();
        let ghost prev_tuples = tuples_acc;
        ws.push((key, value));
        proof {
            tuples_acc = tuples_acc.push(cols.deep_view());
            assert(ws.deep_view() =~~= prev.push(
                (
                    index_key_spec(root@, table_name@, cols.deep_view()),
                    elem_i64(row_id),
                ),
            ));
            assert(ws.deep_view() =~~= index_writes_spec(root@, table_name@, tuples_acc, row_id));
            match extract_indexes_from_spec(table@, record@, k + 1) {
                Ok(rest) => {
                    assert(prev_tuples + (seq![cols.deep_view()] + rest) =~= tuples_acc + rest);
                },
                Err(_) => {},
            }
        }
        k = k + 1;
    }
    proof {
        assert(tuples_acc + Seq::<Seq<ColumnView>>::empty() =~= tuples_acc);
    }
    Ok(ws)
}

/// The decision body of `insert`, for a table whose schema is present:
/// validates the record against the schema, extracts the primary-key and
/// index columns, allocates the row id from the metadata, and produces, in
/// order, every write the transaction commits. On any error no write is
/// produced at all; the shell applies the writes of a successful plan
/// inside one transaction, so the insert commits all of them or none.
pub fn plan_insert(
    root: &Vec<u8>,
    table_name: &String,
    table: &Table,
    meta_bytes: Option<&Vec<u8>>,
    record: &Record,
) -> (r: Result<InsertPlan, SqlLayerError>)
    requires
        name_packable(table_name@),
        forall|i: int| 0 <= i < record@.len() ==> column_packable(#[trigger] record@[i]),
        meta_or_new_spec(
            table_name@,
            match meta_bytes {
                Some(b) => Some(b@),
                None => None,
            },
        ) matches Ok(mc) ==> mc.0.max_row_id < u64::MAX,
    ensures
        match r {
            Ok(p) => insert_plan_spec(
                root@,
                table_name@,
                table@,
                match meta_bytes {
                    Some(b) => Some(b@),
                    None => None,
                },
                record@,
            ) == Ok::<InsertPlanView, ErrorView>(p@),
            Err(e) => insert_plan_spec(
                root@,
                table_name@,
                table@,
                match meta_bytes {
                    Some(b) => Some(b@),
                    None => None,
                },
                record@,
            ) == Err::<InsertPlanView, ErrorView>(e@),
        },
{
    match validate_record(table, record) {
        Ok(_) => {},
        Err(e) => {
            return Err(e);
        },
    }
    let pk = match extract_columns(table, record, &table.primary_key) {
        Ok(pk) => pk,
        Err(e) => {
            return Err(e);
        },
    };
    let (mut meta, created) = match meta_bytes {
        None => (TableMetadata::new(table_name.clone()), true),
        Some(b) => match TableMetadata::from_bytes(b.as_slice()) {
            Ok(m) => (m, false),
            Err(e) => {
                return Err(e);
            },
        },
    };
    let ghost m0 = meta@;
    let ghost spec_mb: Option<Seq<u8>> = match meta_bytes {
        Some(b) => Some(b@),
        None => None,
    };
    proof {
        assert(meta_or_new_spec(table_name@, spec_mb) == Ok::<(TableMetadataView, bool), ErrorView>(
            (m0, created),
        ));
    }
    let mut writes: Vec<(Vec<u8>, Vec<u8>)> = Vec::new();
    if created {
        let mb = match meta.to_bytes() {
            Ok(mb) => mb,
            Err(e) => {
                return Err(e);
            },
        };
        writes.push((table_meta_key(root, table_name), mb));
    }
    let ghost w0 = writes.deep_view();
    proof {
        assert(w0 =~~= (if created {
            seq![(table_meta_key_spec(root@, table_name@), enc_table_metadata(m0))]
        } else {
            Seq::<(Seq<u8>, Seq<u8>)>::empty()
        }));
    }
    let row_id = meta.get_current_row_id() as i64;
    proof {
        lemma_extract_packable(table@, record@, table@.primary_key, 0);
        assert forall|i: int| 0 <= i < pk@.len() implies column_packable((#[trigger] pk@[i])@) by {
            assert(column_packable(pk.deep_view()[i]));
        }
    }
    let pkk = pk_key(root, table_name, &pk);
    let pkv = row_id_value(row_id);
    writes.push((pkk, pkv));
    let ghost w1 = writes.deep_view();
    proof {
        assert(w1 =~~= w0 + seq![(pk_key_spec(root@, table_name@, pk.deep_view()), elem_i64(row_id))]);
    }
    let index_ws = match plan_index_writes(root, table_name, table, record, row_id) {
        Ok(ws) => ws,
        Err(e) => {
            return Err(e);
        },
    };
    let ghost iws = index_ws.deep_view();
    let mut index_ws_moved = index_ws;
    writes.append(&mut index_ws_moved);
    let ghost w2 = writes.deep_view();
    proof {
        assert(w2 =~~= w1 + iws);
    }
    let row = record.to_row();
    let row_bytes = match row.to_bytes() {
        Ok(b) => b,
        Err(e) => {
            return Err(e);
        },
    };
    writes.push((row_key(root, table_name, row_id), row_bytes));
    let ghost w3 = writes.deep_view();
    proof {
        assert(row@ == (RowView { columns: record_to_row_spec(record@) }));
        assert(w3 =~~= w2 + seq![
            (
                row_key_spec(root@, table_name@, row_id),
                enc_row(RowView { columns: record_to_row_spec(record@) }),
            ),
        ]);
    }
    meta.increment_max_row_id();
    let meta_bytes_out = match meta.to_bytes() {
        Ok(b) => b,
        Err(e) => {
            return Err(e);
        },
    };
    writes.push((table_meta_key(root, table_name), meta_bytes_out));
    proof {
        assert(writes.deep_view() =~~= w3 + seq![
            (table_meta_key_spec(root@, table_name@), enc_table_metadata(meta@)),
        ]);
        let spec_writes = (if created {
            seq![(table_meta_key_spec(root@, table_name@), enc_table_metadata(m0))]
        } else {
            Seq::<(Seq<u8>, Seq<u8>)>::empty()
        }) + seq![(pk_key_spec(root@, table_name@, pk.deep_view()), elem_i64(row_id))] + iws
            + seq![
            (
                row_key_spec(root@, table_name@, row_id),
                enc_row(RowView { columns: record_to_row_spec(record@) }),
            ),
        ] + seq![(table_meta_key_spec(root@, table_name@), enc_table_metadata(meta@))];
        assert(writes.deep_view() =~~= spec_writes);
    }
    Ok(InsertPlan { writes, row_id, new_meta: meta })
}

/// What one insert does, given the schema the transaction read: a missing
/// schema makes the insert a silent no-op that commits nothing (the current
/// contract); a present schema yields the full plan, or the protocol's
/// first error.
pub open spec fn insert_outcome_spec(
    root: Seq<u8>,
    table_name: Seq<char>,
    t: Option<TableView>,
    meta_bytes: Option<Seq<u8>>,
    rec: Seq<ColumnView>,
) -> Result<Option<InsertPlanView>, ErrorView> {
    match t {
        None => Ok(None),
        Some(t) => match insert_plan_spec(root, table_name, t, meta_bytes, rec) {
            Ok(p) => Ok(Some(p)),
            Err(e) => Err(e),
        },
    }
}

/// The decision body of `insert` over exactly what the transaction read:
/// the stored schema if any, and the stored metadata bytes if any. An
/// insert into an unknown table returns no plan and so commits nothing.
pub fn plan_insert_with_schema(
    root: &Vec<u8>,
    table_name: &String,
    table: Option<&Table>,
    meta_bytes: Option<&Vec<u8>>,
    record: &Record,
) -> (r: Result<Option<InsertPlan>, SqlLayerError>)
    requires
        name_packable(table_name@),
        forall|i: int| 0 <= i < record@.len() ==> column_packable(#[trigger] record@[i]),
        meta_or_new_spec(
            table_name@,
            match meta_bytes {
                Some(b) => Some(b@),
                None => None,
            },
        ) matches Ok(mc) ==> mc.0.max_row_id < u64::MAX,
    ensures
        ({
            let spec_table = match table {
                Some(t) => Some(t@),
                None => None::<TableView>,
            };
            let spec_mb = match meta_bytes {
                Some(b) => Some(b@),
                None => None::<Seq<u8>>,
            };
            match r {
                Ok(Some(p)) => insert_outcome_spec(root@, table_name@, spec_table, spec_mb, record@)
                    == Ok::<Option<InsertPlanView>, ErrorView>(Some(p@)),
                Ok(None) => insert_outcome_spec(root@, table_name@, spec_table, spec_mb, record@)
                    == Ok::<Option<InsertPlanView>, ErrorView>(None),
                Err(e) => insert_outcome_spec(root@, table_name@, spec_table, spec_mb, record@)
                    == Err::<Option<InsertPlanView>, ErrorView>(e@),
            }
        }),
{
    match table {
        None => Ok(None),
        Some(t) => match plan_insert(root, table_name, t, meta_bytes, record) {
            Ok(p) => Ok(Some(p)),
            Err(e) => Err(e),
        },
    }
}

// ---------------------------------------------------------------------------
// the other operations' decision bodies
// ---------------------------------------------------------------------------

/// The write that `create_table` commits: the schema under the table's
/// name. No existence check is made; a second create overwrites.
pub fn plan_table_write(root: &Vec<u8>, table: &Table) -> (r: Result<
    (Vec<u8>, Vec<u8>),
    SqlLayerError,
>)
    requires
        name_packable(table@.name),
    ensures
        r matches Ok(kv) && kv.0@ == table_key_spec(root@, table@.name) && kv.1@ == enc_table(
            table@,
        ),
{
    let bytes = match table.to_bytes() {
        Ok(b) => b,
        Err(e) => {
            return Err(e);
        },
    };
    let key = table_key(root, &table.name);
    Ok((key, bytes))
}

/// The decision body of `add_index`: a missing schema is the table-not-found
/// error; otherwise the index is appended to the schema, which the shell
/// writes back under the same transaction.
pub fn apply_add_index(table_name: &String, table: Option<Table>, index: &Index) -> (r: Result<
    Table,
    SqlLayerError,
>)
    ensures
        match table {
            None => r matches Err(e) && e@ == ErrorView::TableNotFound(table_name@),
            Some(t) => r matches Ok(t2) && t2@.name == t@.name && t2@.fields == t@.fields
                && t2@.primary_key == t@.primary_key && t2@.indexes == t@.indexes.push(index@),
        },
{
    match table {
        None => Err(SqlLayerError::TableNotFound(table_name.clone())),
        Some(mut t) => {
            t.add_index(index);
            Ok(t)
        },
    }
}

/// The key `get_record_by_pk` reads first: the primary-key entry of the
/// given column tuple.
pub fn pk_lookup_key(root: &Vec<u8>, table_name: &String, pk: &Columns) -> (r: Vec<u8>)
    requires
        name_packable(table_name@),
        forall|i: int| 0 <= i < pk@.len() ==> column_packable(#[trigger] pk@[i]),
    ensures
        r@ == pk_key_spec(root@, table_name@, pk@),
{
    proof {
        assert forall|i: int| 0 <= i < pk.0@.len() implies column_packable(
            (#[trigger] pk.0@[i])@,
        ) by {
            assert(pk@[i] == pk.0@[i]@);
        }
    }
    pk_key(root, table_name, &pk.0)
}

/// The row id held in a primary-key or index entry: the packed form is
/// decoded by the tuple codec; a malformed value is a serialization
/// failure.
pub fn row_id_from_value(value: &Vec<u8>) -> (r: Result<i64, SqlLayerError>)
    ensures
        forall|v: i64| value@ == elem_i64(v) ==> r == Ok::<i64, SqlLayerError>(v),
        r matches Err(e) ==> e == SqlLayerError::SerializationFailure,
{
    match unpack_i64_elem(value.as_slice()) {
        Some(v) => Ok(v),
        None => Err(SqlLayerError::SerializationFailure),
    }
}

// ---------------------------------------------------------------------------
// the store model: what the writes of one transaction do to the KV store,
// and what the laws of the layer say about it
// ---------------------------------------------------------------------------

/// The store after a transaction's writes land, first to last.
pub open spec fn apply_writes(
    store: Map<Seq<u8>, Seq<u8>>,
    ws: Seq<(Seq<u8>, Seq<u8>)>,
) -> Map<Seq<u8>, Seq<u8>>
    decreases ws.len(),
{
    if ws.len() == 0 {
        store
    } else {
        apply_writes(store.insert(ws[0].0, ws[0].1), ws.drop_first())
    }
}

/// A key none of the writes names keeps its binding.
pub proof fn lemma_apply_writes_unwritten(
    store: Map<Seq<u8>, Seq<u8>>,
    ws: Seq<(Seq<u8>, Seq<u8>)>,
    k: Seq<u8>,
)
    requires
        forall|i: int| 0 <= i < ws.len() ==> (#[trigger] ws[i]).0 != k,
    ensures
        apply_writes(store, ws).contains_key(k) == store.contains_key(k),
        store.contains_key(k) ==> apply_writes(store, ws)[k] == store[k],
    decreases ws.len(),
{
    if ws.len() > 0 {
        assert(ws[0].0 != k);
        lemma_apply_writes_unwritten(store.insert(ws[0].0, ws[0].1), ws.drop_first(), k);
    }
}

/// A key whose last write is the `j`-th ends up bound to that write's value.
pub proof fn lemma_apply_writes_last(
    store: Map<Seq<u8>, Seq<u8>>,
    ws: Seq<(Seq<u8>, Seq<u8>)>,
    j: int,
)
    requires
        0 <= j < ws.len(),
        forall|i: int| j < i < ws.len() ==> (#[trigger] ws[i]).0 != ws[j].0,
    ensures
        apply_writes(store, ws).contains_key(ws[j].0),
        apply_writes(store, ws)[ws[j].0] == ws[j].1,
    decreases ws.len(),
{
    let s1 = store.insert(ws[0].0, ws[0].1);
    if j == 0 {
        assert forall|i: int| 0 <= i < ws.drop_first().len() implies (#[trigger] ws.drop_first()[i]).0
            != ws[0].0 by {
            assert(ws.drop_first()[i] == ws[i + 1]);
        }
        lemma_apply_writes_unwritten(s1, ws.drop_first(), ws[0].0);
    } else {
        assert forall|i: int| j - 1 < i < ws.drop_first().len() implies (#[trigger] ws.drop_first()[i]).0
            != ws.drop_first()[j - 1].0 by {
            assert(ws.drop_first()[i] == ws[i + 1]);
            assert(ws.drop_first()[j - 1] == ws[j]);
        }
        lemma_apply_writes_last(s1, ws.drop_first(), j - 1);
        assert(ws.drop_first()[j - 1] == ws[j]);
    }
}

/// The store after one insert: the plan's writes on success, the store
/// unchanged on failure. Atomicity across the writes of one plan is the KV
/// engine's transaction: all land or none do.
pub open spec fn db_after_insert(
    store: Map<Seq<u8>, Seq<u8>>,
    root: Seq<u8>,
    table_name: Seq<char>,
    t: TableView,
    meta_bytes: Option<Seq<u8>>,
    rec: Seq<ColumnView>,
) -> Map<Seq<u8>, Seq<u8>> {
    match insert_plan_spec(root, table_name, t, meta_bytes, rec) {
        Ok(p) => apply_writes(store, p.writes),
        Err(_) => store,
    }
}

/// The inverse of the packed row-id value, as the tuple codec computes it.
pub open spec fn unpack_i64_spec(b: Seq<u8>) -> Option<i64> {
    if exists|v: i64| b == elem_i64(v) {
        Some(choose|v: i64| b == elem_i64(v))
    } else {
        None
    }
}

/// What `get_record_by_pk` computes from a store: the primary-key entry
/// names a row id, the row id names a payload, the payload decodes to a
/// record; a miss at either key is an absent record.
pub open spec fn lookup_record_spec(
    store: Map<Seq<u8>, Seq<u8>>,
    root: Seq<u8>,
    table_name: Seq<char>,
    pk: Seq<ColumnView>,
) -> Result<Option<Seq<ColumnView>>, ErrorView> {
    let pkk = pk_key_spec(root, table_name, pk);
    if !store.contains_key(pkk) {
        Ok(None)
    } else {
        match unpack_i64_spec(store[pkk]) {
            None => Err(ErrorView::SerializationFailure),
            Some(row_id) => {
                let rk = row_key_spec(root, table_name, row_id);
                if !store.contains_key(rk) {
                    Ok(None)
                } else {
                    match dec_row(store[rk], 0) {
                        Some((rv, n)) => if n == store[rk].len() {
                            Ok(Some(row_to_record_spec(rv.columns)))
                        } else {
                            Err(ErrorView::SerializationFailure)
                        },
                        None => Err(ErrorView::SerializationFailure),
                    }
                }
            },
        }
    }
}

/// True when a column's variable-length payload fits the row codec's
/// 64-bit length fields; every column held in memory does.
pub open spec fn column_fits(c: ColumnView) -> bool {
    match c {
        ColumnView::String(s) => fits_u64(encode_utf8(s).len()),
        ColumnView::Bytes(b) => fits_u64(b.len()),
        _ => true,
    }
}

/// True when a record's length and every column fit the row codec's length
/// fields.
pub open spec fn record_fits(rec: Seq<ColumnView>) -> bool {
    &&& fits_u64(rec.len())
    &&& forall|i: int| 0 <= i < rec.len() ==> column_fits(#[trigger] rec[i])
}

/// Row-id allocation is monotonic: a successful insert assigns the
/// metadata's counter as the row id and bumps the counter by one, so an
/// insert that reads the metadata the previous one wrote assigns exactly
/// the next id. Starting from absent metadata the assigned ids are the
/// contiguous sequence 0, 1, 2, …; a retried transaction re-reads the
/// counter, so ids stay strictly increasing though possibly non-contiguous.
pub proof fn lemma_row_id_monotonic(
    root: Seq<u8>,
    table_name: Seq<char>,
    t1: TableView,
    t2: TableView,
    mb1: Option<Seq<u8>>,
    rec1: Seq<ColumnView>,
    rec2: Seq<ColumnView>,
)
    requires
        insert_plan_spec(root, table_name, t1, mb1, rec1) is Ok,
        meta_or_new_spec(table_name, mb1) matches Ok(mc) && mc.0.max_row_id < i64::MAX as u64,
        fits_u64(
            encode_utf8(
                insert_plan_spec(root, table_name, t1, mb1, rec1)->Ok_0.new_meta.name,
            ).len(),
        ),
        insert_plan_spec(
            root,
            table_name,
            t2,
            Some(enc_table_metadata(insert_plan_spec(root, table_name, t1, mb1, rec1)->Ok_0.new_meta)),
            rec2,
        ) is Ok,
    ensures
        insert_plan_spec(
            root,
            table_name,
            t2,
            Some(enc_table_metadata(insert_plan_spec(root, table_name, t1, mb1, rec1)->Ok_0.new_meta)),
            rec2,
        )->Ok_0.row_id == insert_plan_spec(root, table_name, t1, mb1, rec1)->Ok_0.row_id + 1,
        insert_plan_spec(
            root,
            table_name,
            t2,
            Some(enc_table_metadata(insert_plan_spec(root, table_name, t1, mb1, rec1)->Ok_0.new_meta)),
            rec2,
        )->Ok_0.row_id > insert_plan_spec(root, table_name, t1, mb1, rec1)->Ok_0.row_id,
        meta_or_new_spec(table_name, mb1)->Ok_0.0.max_row_id == 0 ==> insert_plan_spec(
            root,
            table_name,
            t1,
            mb1,
            rec1,
        )->Ok_0.row_id == 0,
{
    let p1 = insert_plan_spec(root, table_name, t1, mb1, rec1)->Ok_0;
    let m1 = meta_or_new_spec(table_name, mb1)->Ok_0.0;
    assert(p1.row_id == m1.max_row_id as i64);
    assert(p1.new_meta.max_row_id == m1.max_row_id + 1);
    crate::table_metadata::lemma_table_metadata_round_trip(p1.new_meta);
    let mb2 = Some(enc_table_metadata(p1.new_meta));
    assert(meta_or_new_spec(table_name, mb2) == Ok::<(TableMetadataView, bool), ErrorView>(
        (p1.new_meta, false),
    ));
    let p2 = insert_plan_spec(root, table_name, t2, mb2, rec2)->Ok_0;
    assert(p2.row_id == p1.new_meta.max_row_id as i64);
}

/// Type validation rejects: an insert whose record positionally mismatches
/// a schema field type fails with a mismatched-column-type error; by
/// [`lemma_insert_atomic`] the failure leaves the store unchanged.
pub proof fn lemma_insert_type_validation(
    root: Seq<u8>,
    table_name: Seq<char>,
    t: TableView,
    meta_bytes: Option<Seq<u8>>,
    rec: Seq<ColumnView>,
)
    requires
        exists|i: int|
            0 <= i < t.fields.len() && i < rec.len() && !congruent(
                (#[trigger] t.fields[i]).field_type,
                rec[i],
            ),
    ensures
        insert_plan_spec(root, table_name, t, meta_bytes, rec) matches Err(e) && e is MismatchedColumnType,
{
    lemma_validate_spec(t.fields, rec);
    match validate_spec(t.fields, rec) {
        Ok(_) => {
            let i = choose|i: int|
                0 <= i < t.fields.len() && i < rec.len() && !congruent(
                    (#[trigger] t.fields[i]).field_type,
                    rec[i],
                );
            assert(congruent(t.fields[i].field_type, rec[i]));
        },
        Err(e) => {},
    }
}

/// A name that has no field, or a field position past the record's end.
pub open spec fn name_missing(t: TableView, rec: Seq<ColumnView>, name: Seq<char>) -> bool {
    match field_pos_spec(t.fields, name) {
        None => true,
        Some(p) => !(0 <= p < rec.len()),
    }
}

/// What extraction fails with: a missing-column error, exactly when some
/// requested name is missing.
pub proof fn lemma_extract_err(t: TableView, rec: Seq<ColumnView>, names: Seq<Seq<char>>, k: int)
    requires
        0 <= k,
    ensures
        (extract_from_spec(t, rec, names, k) is Err) <==> (exists|i: int|
            k <= i < names.len() && name_missing(t, rec, #[trigger] names[i])),
        extract_from_spec(t, rec, names, k) matches Err(e) ==> e is MissingColumn,
    decreases names.len() - k,
{
    if k < 0 || k >= names.len() {
    } else {
        lemma_extract_err(t, rec, names, k + 1);
        if name_missing(t, rec, names[k]) {
            assert(extract_from_spec(t, rec, names, k) is Err);
            assert(k <= k < names.len() && name_missing(t, rec, names[k]));
        } else {
            if exists|i: int| k <= i < names.len() && name_missing(t, rec, #[trigger] names[i]) {
                let i0 = choose|i: int|
                    k <= i < names.len() && name_missing(t, rec, #[trigger] names[i]);
                assert(i0 != k);
                assert(k + 1 <= i0 < names.len() && name_missing(t, rec, names[i0]));
                assert(extract_from_spec(t, rec, names, k + 1) is Err);
                assert(extract_from_spec(t, rec, names, k) is Err);
            }
            if extract_from_spec(t, rec, names, k) is Err {
                assert(extract_from_spec(t, rec, names, k + 1) is Err);
                let i1 = choose|i: int|
                    k + 1 <= i < names.len() && name_missing(t, rec, #[trigger] names[i]);
                assert(k <= i1 < names.len() && name_missing(t, rec, names[i1]));
            }
        }
    }
}

/// Missing-column rejection: an insert whose record passes type validation
/// but lacks a primary-key or indexed column, by name or by position,
/// fails with a missing-column error, provided the stored metadata itself
/// decodes; by [`lemma_insert_atomic`] the failure leaves the store
/// unchanged.
pub proof fn lemma_insert_missing_column(
    root: Seq<u8>,
    table_name: Seq<char>,
    t: TableView,
    meta_bytes: Option<Seq<u8>>,
    rec: Seq<ColumnView>,
)
    requires
        validate_spec(t.fields, rec) is Ok,
        meta_or_new_spec(table_name, meta_bytes) is Ok,
        (exists|i: int| 0 <= i < t.primary_key.len() && name_missing(t, rec, #[trigger] t.primary_key[i]))
            || (exists|k: int, i: int|
            0 <= k < t.indexes.len() && 0 <= i < t.indexes[k].fields.len() && name_missing(
                t,
                rec,
                #[trigger] t.indexes[k].fields[i],
            )),
    ensures
        insert_plan_spec(root, table_name, t, meta_bytes, rec) matches Err(e) && e is MissingColumn,
{
    lemma_extract_err(t, rec, t.primary_key, 0);
    if exists|i: int|
        0 <= i < t.primary_key.len() && name_missing(t, rec, #[trigger] t.primary_key[i]) {
        assert(extract_from_spec(t, rec, t.primary_key, 0) is Err);
    } else {
        let (k0, i0) = choose|k: int, i: int|
            0 <= k < t.indexes.len() && 0 <= i < t.indexes[k].fields.len() && name_missing(
                t,
                rec,
                #[trigger] t.indexes[k].fields[i],
            );
        lemma_extract_indexes_err(t, rec, 0, k0);
    }
}

/// An index with a missing column makes the whole index extraction fail
/// with a missing-column error.
proof fn lemma_extract_indexes_err(t: TableView, rec: Seq<ColumnView>, k: int, bad: int)
    requires
        0 <= k <= bad < t.indexes.len(),
        exists|i: int|
            0 <= i < t.indexes[bad].fields.len() && name_missing(
                t,
                rec,
                #[trigger] t.indexes[bad].fields[i],
            ),
    ensures
        extract_indexes_from_spec(t, rec, k) matches Err(e) && e is MissingColumn,
    decreases t.indexes.len() - k,
{
    lemma_extract_err(t, rec, t.indexes[k].fields, 0);
    if k == bad {
        assert(extract_from_spec(t, rec, t.indexes[k].fields, 0) is Err);
    } else {
        match extract_spec(t, rec, t.indexes[k].fields) {
            Err(e) => {},
            Ok(_) => {
                lemma_extract_indexes_err(t, rec, k + 1, bad);
            },
        }
    }
}

/// Atomic insert: a failed insert leaves the store exactly as it was; a
/// successful one commits exactly its plan's writes, and the KV engine's
/// transaction commits them all or none.
pub proof fn lemma_insert_atomic(
    store: Map<Seq<u8>, Seq<u8>>,
    root: Seq<u8>,
    table_name: Seq<char>,
    t: TableView,
    meta_bytes: Option<Seq<u8>>,
    rec: Seq<ColumnView>,
)
    ensures
        insert_plan_spec(root, table_name, t, meta_bytes, rec) is Err ==> db_after_insert(
            store,
            root,
            table_name,
            t,
            meta_bytes,
            rec,
        ) == store,
        insert_plan_spec(root, table_name, t, meta_bytes, rec) matches Ok(p) ==> db_after_insert(
            store,
            root,
            table_name,
            t,
            meta_bytes,
            rec,
        ) == apply_writes(store, p.writes),
{
}

/// Primary-key lookup finds what insert wrote: after a successful insert,
/// looking the record's primary-key tuple up in the resulting store yields
/// exactly the inserted record, NULL columns included.
pub proof fn lemma_insert_then_lookup(
    store: Map<Seq<u8>, Seq<u8>>,
    root: Seq<u8>,
    table_name: Seq<char>,
    t: TableView,
    meta_bytes: Option<Seq<u8>>,
    rec: Seq<ColumnView>,
)
    requires
        insert_plan_spec(root, table_name, t, meta_bytes, rec) is Ok,
        record_fits(rec),
    ensures
        lookup_record_spec(
            db_after_insert(store, root, table_name, t, meta_bytes, rec),
            root,
            table_name,
            extract_spec(t, rec, t.primary_key)->Ok_0,
        ) == Ok::<Option<Seq<ColumnView>>, ErrorView>(Some(rec)),
{
    let p = insert_plan_spec(root, table_name, t, meta_bytes, rec)->Ok_0;
    let pk = extract_spec(t, rec, t.primary_key)->Ok_0;
    let row_id = p.row_id;
    let ws = p.writes;
    let store2 = apply_writes(store, ws);
    let created = meta_or_new_spec(table_name, meta_bytes)->Ok_0.1;
    let pkk = pk_key_spec(root, table_name, pk);
    let rk = row_key_spec(root, table_name, row_id);
    let jp: int = if created {
        1
    } else {
        0
    };
    let tuples = extract_indexes_from_spec(t, rec, 0)->Ok_0;
    let ni = tuples.len() as int;
    // the write list, position by position
    assert(ws.len() == jp + ni + 3);
    assert(ws[jp] == (pkk, elem_i64(row_id)));
    assert(ws[jp + ni + 1] == (rk, enc_row(RowView { columns: record_to_row_spec(rec) })));
    assert forall|i: int| jp < i < ws.len() implies (#[trigger] ws[i]).0 != pkk by {
        lemma_key_shapes(root, table_name, pk, row_id, t, rec, tuples, i - jp - 1);
        if i < jp + 1 + ni {
            assert(ws[i] == index_writes_spec(root, table_name, tuples, row_id)[i - jp - 1]);
        }
    }
    lemma_apply_writes_last(store, ws, jp);
    assert(store2[pkk] == elem_i64(row_id));
    lemma_elem_i64_choose(row_id);
    assert(unpack_i64_spec(store2[pkk]) == Some(row_id));
    assert forall|i: int| jp + ni + 1 < i < ws.len() implies (#[trigger] ws[i]).0 != rk by {
        lemma_key_shapes(root, table_name, pk, row_id, t, rec, tuples, 0);
    }
    lemma_apply_writes_last(store, ws, jp + ni + 1);
    assert(store2[rk] == enc_row(RowView { columns: record_to_row_spec(rec) }));
    let rv = RowView { columns: record_to_row_spec(rec) };
    assert(row_fits(rv)) by {
        assert forall|i: int|
            0 <= i < rv.columns.len() implies ((#[trigger] rv.columns[i]) matches Some(c)
            ==> crate::row::row_column_fits(c)) by {
            assert(column_fits(rec[i]));
        }
    }
    crate::row::lemma_row_round_trip(rv);
    lemma_record_row_round_trip(rec);
}

/// Why the lookup keys differ from every other key the insert writes: the
/// data-prefix tag after the root decides.
proof fn lemma_key_shapes(
    root: Seq<u8>,
    table_name: Seq<char>,
    pk: Seq<ColumnView>,
    row_id: i64,
    t: TableView,
    rec: Seq<ColumnView>,
    tuples: Seq<Seq<ColumnView>>,
    ix: int,
)
    ensures
        pk_key_spec(root, table_name, pk) != table_meta_key_spec(root, table_name),
        pk_key_spec(root, table_name, pk) != row_key_spec(root, table_name, row_id),
        row_key_spec(root, table_name, row_id) != table_meta_key_spec(root, table_name),
        0 <= ix < tuples.len() ==> index_writes_spec(root, table_name, tuples, row_id)[ix].0
            != pk_key_spec(root, table_name, pk),
        0 <= ix < tuples.len() ==> index_writes_spec(root, table_name, tuples, row_id)[ix].0
            != row_key_spec(root, table_name, row_id),
{
    let es = crate::keys::elem_str(table_name);
    assert(pk_key_spec(root, table_name, pk) =~= root + crate::keys::elem_u64(TAG_PRIMARY_KEY) + (
    es + columns_elems(pk)));
    assert(table_meta_key_spec(root, table_name) =~= root + crate::keys::elem_u64(TAG_TABLE_META)
        + es);
    assert(row_key_spec(root, table_name, row_id) =~= root + crate::keys::elem_u64(TAG_ROW) + (es
        + elem_i64(row_id)));
    lemma_prefixed_keys_distinct(
        root,
        TAG_PRIMARY_KEY,
        TAG_TABLE_META,
        es + columns_elems(pk),
        es,
    );
    lemma_prefixed_keys_distinct(
        root,
        TAG_PRIMARY_KEY,
        TAG_ROW,
        es + columns_elems(pk),
        es + elem_i64(row_id),
    );
    lemma_prefixed_keys_distinct(root, TAG_ROW, TAG_TABLE_META, es + elem_i64(row_id), es);
    if 0 <= ix < tuples.len() {
        assert(index_writes_spec(root, table_name, tuples, row_id)[ix].0 == index_key_spec(
            root,
            table_name,
            tuples[ix],
        ));
        assert(index_key_spec(root, table_name, tuples[ix]) =~= root + crate::keys::elem_u64(
            TAG_INDEX,
        ) + (es + columns_elems(tuples[ix])));
        lemma_prefixed_keys_distinct(
            root,
            TAG_INDEX,
            TAG_PRIMARY_KEY,
            es + columns_elems(tuples[ix]),
            es + columns_elems(pk),
        );
        lemma_prefixed_keys_distinct(
            root,
            TAG_INDEX,
            TAG_ROW,
            es + columns_elems(tuples[ix]),
            es + elem_i64(row_id),
        );
    }
}

/// The packed row id decodes to itself under the ghost inverse.
proof fn lemma_elem_i64_choose(v: i64)
    ensures
        unpack_i64_spec(elem_i64(v)) == Some(v),
{
    assert(elem_i64(v) == elem_i64(v));
    let w = choose|w: i64| elem_i64(v) == elem_i64(w);
    lemma_elem_i64_inj(w, v);
}

/// The record held in a stored row payload.
pub fn record_from_row_bytes(bytes: &Vec<u8>) -> (r: Result<Record, SqlLayerError>)
    ensures
        match dec_row(bytes@, 0) {
            Some((rv, n)) => if n == bytes@.len() {
                r matches Ok(rec) && rec@ == row_to_record_spec(rv.columns)
            } else {
                r == Err::<Record, SqlLayerError>(SqlLayerError::SerializationFailure)
            },
            None => r == Err::<Record, SqlLayerError>(SqlLayerError::SerializationFailure),
        },
{
    match Row::from_bytes(bytes.as_slice()) {
        Ok(row) => Ok(Record::from_row(&row)),
        Err(_) => Err(SqlLayerError::SerializationFailure),
    }
}

} // verus!
