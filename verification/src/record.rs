use vstd::prelude::*;

use crate::row::{Column as RowColumn, ColumnBool, ColumnBytes, ColumnFloat, ColumnInt,
    ColumnString, Row, RowColumnView, null_row_column};

verus! {

/// A record column value as a ghost value: one of the five typed variants,
/// or an explicit SQL NULL.
pub enum ColumnView {
    String(Seq<char>),
    Int(i64),
    Float(u64),
    Bool(bool),
    Bytes(Seq<u8>),
    Null,
}

/// A record column value: one of the five typed variants, or an explicit SQL
/// NULL. The float variant holds the IEEE-754 binary64 bit pattern of its
/// number, so that the layer's logic stays on plain values.
#[derive(Debug, PartialEq)]
pub enum Column {
    String(String),
    Int(i64),
    Float(u64),
    Bool(bool),
    Bytes(Vec<u8>),
    Null,
}

impl Clone for Column {
    fn clone(&self) -> (r: Self)
        ensures
            r@ == self@,
    {
        match self {
            Column::String(s) => Column::String(s.clone()),
            Column::Int(i) => Column::Int(*i),
            Column::Float(bits) => Column::Float(*bits),
            Column::Bool(b) => Column::Bool(*b),
            Column::Bytes(v) => {
                let c = v.clone();
                proof {
                    assert forall|i: int| 0 <= i < c@.len() implies c@[i] == v@[i] by {
                        assert(vstd::pervasive::cloned::<u8>(v@[i], c@[i]));
                    }
                    assert(c@ =~= v@);
                }
                Column::Bytes(c)
            },
            Column::Null => Column::Null,
        }
    }
}

impl View for Column {
    type V = ColumnView;

    open spec fn view(&self) -> ColumnView {
        match self {
            Column::String(s) => ColumnView::String(s@),
            Column::Int(i) => ColumnView::Int(*i),
            Column::Float(bits) => ColumnView::Float(*bits),
            Column::Bool(b) => ColumnView::Bool(*b),
            Column::Bytes(b) => ColumnView::Bytes(b@),
            Column::Null => ColumnView::Null,
        }
    }
}

impl DeepView for Column {
    type V = ColumnView;

    open spec fn deep_view(&self) -> ColumnView {
        self.view()
    }
}

/// A record: an ordered sequence of column values, positionally aligned with
/// the owning table's field list. A record carries no identity.
#[derive(Debug, Clone, PartialEq)]
pub struct Record {
    pub columns: Vec<Column>,
}

impl View for Record {
    type V = Seq<ColumnView>;

    open spec fn view(&self) -> Seq<ColumnView> {
        self.columns.deep_view()
    }
}

/// An ordered list of column values, used to hand a primary-key tuple to a
/// lookup.
#[derive(Debug, Clone, PartialEq)]
pub struct Columns(pub Vec<Column>);

impl View for Columns {
    type V = Seq<ColumnView>;

    open spec fn view(&self) -> Seq<ColumnView> {
        self.0.deep_view()
    }
}

impl Columns {
    pub fn new(columns: Vec<Column>) -> (r: Self)
        ensures
            r@ == columns.deep_view(),
    {
        Self(columns)
    }
}

/// The row slot that one record column becomes: NULL becomes an absent slot,
/// a typed value becomes a slot with exactly that member present.
pub open spec fn column_to_row_spec(c: ColumnView) -> Option<RowColumnView> {
    match c {
        ColumnView::Null => None,
        ColumnView::String(s) => Some(
            RowColumnView { column_string: Some(s), ..null_row_column() },
        ),
        ColumnView::Int(i) => Some(RowColumnView { column_int: Some(i), ..null_row_column() }),
        ColumnView::Float(bits) => Some(
            RowColumnView { column_float: Some(bits), ..null_row_column() },
        ),
        ColumnView::Bool(b) => Some(RowColumnView { column_bool: Some(b), ..null_row_column() }),
        ColumnView::Bytes(b) => Some(RowColumnView { column_bytes: Some(b), ..null_row_column() }),
    }
}

/// The row that a record becomes, slot by slot.
pub open spec fn record_to_row_spec(cols: Seq<ColumnView>) -> Seq<Option<RowColumnView>> {
    cols.map_values(|c: ColumnView| column_to_row_spec(c))
}

/// The record column that one row slot reads back as: the first present
/// typed member, in the fixed order string, int, float, bool, bytes; an
/// all-absent slot reads back as NULL.
pub open spec fn row_column_to_column_spec(c: RowColumnView) -> ColumnView {
    if c.column_string is Some {
        ColumnView::String(c.column_string->0)
    } else if c.column_int is Some {
        ColumnView::Int(c.column_int->0)
    } else if c.column_float is Some {
        ColumnView::Float(c.column_float->0)
    } else if c.column_bool is Some {
        ColumnView::Bool(c.column_bool->0)
    } else if c.column_bytes is Some {
        ColumnView::Bytes(c.column_bytes->0)
    } else {
        ColumnView::Null
    }
}

/// The record that a row reads back as, slot by slot.
pub open spec fn row_to_record_spec(cols: Seq<Option<RowColumnView>>) -> Seq<ColumnView> {
    cols.map_values(
        |c: Option<RowColumnView>|
            match c {
                None => ColumnView::Null,
                Some(rc) => row_column_to_column_spec(rc),
            },
    )
}

/// Converting a record to a row and back is the identity: typed values come
/// back as themselves and NULL columns come back as NULL.
pub proof fn lemma_record_row_round_trip(cols: Seq<ColumnView>)
    ensures
        row_to_record_spec(record_to_row_spec(cols)) == cols,
{
    let mid = record_to_row_spec(cols);
    let back = row_to_record_spec(mid);
    assert forall|i: int| 0 <= i < cols.len() implies back[i] == cols[i] by {
        match cols[i] {
            ColumnView::Null => {},
            ColumnView::String(_) => {},
            ColumnView::Int(_) => {},
            ColumnView::Float(_) => {},
            ColumnView::Bool(_) => {},
            ColumnView::Bytes(_) => {},
        }
    }
    assert(back =~= cols);
}

impl Record {
    /// The row payload this record is stored as: NULL columns become absent
    /// slots, typed columns become single-member slots.
    pub fn to_row(&self) -> (r: Row)
        ensures
            r@.columns == record_to_row_spec(self@),
    {
        let mut row = Row::new();
        let n = self.columns.len();
        let mut i: usize = 0;
        while i < n
            invariant
                0 <= i <= n,
                n == self.columns.len(),
                self@ == self.columns.deep_view(),
                row@.columns =~= record_to_row_spec(self@.take(i as int)),
            decreases n - i,
        {
            let c = &self.columns[i];
            match c {
                Column::Null => {
                    row.add_null_column();
                },
                Column::String(s) => {
                    row.add_column(RowColumn::new_string(s.clone()));
                },
                Column::Int(v) => {
                    row.add_column(RowColumn::new_int(*v));
                },
                Column::Float(bits) => {
                    row.add_column(RowColumn::new_float(*bits));
                },
                Column::Bool(b) => {
                    row.add_column(RowColumn::new_bool(*b));
                },
                Column::Bytes(b) => {
                    row.add_column(RowColumn::new_bytes(b.clone()));
                },
            }
            proof {
                assert(self@.take(i + 1).drop_last() =~= self@.take(i as int));
                assert(self@.take(i + 1).last() == self@[i as int]);
                assert(record_to_row_spec(self@.take(i + 1)) =~= record_to_row_spec(
                    self@.take(i as int),
                ).push(column_to_row_spec(self@[i as int])));
            }
            i = i + 1;
        }
        proof {
            assert(self@.take(n as int) =~= self@);
        }
        row
    }

    /// The record a stored row reads back as.
    pub fn from_row(row: &Row) -> (r: Record)
        ensures
            r@ == row_to_record_spec(row@.columns),
    {
        let mut columns: Vec<Column> = Vec::new();
        let n = row.columns.len();
        let mut i: usize = 0;
        while i < n
            invariant
                0 <= i <= n,
                n == row.columns.len(),
                columns.deep_view() =~= row_to_record_spec(row@.columns.take(i as int)),
            decreases n - i,
        {
            let c = match &row.columns[i] {
                None => Column::Null,
                Some(rc) => {
                    if let Some(s) = &rc.column_string {
                        Column::String(s.0.clone())
                    } else if let Some(v) = &rc.column_int {
                        Column::Int(v.0)
                    } else if let Some(f) = &rc.column_float {
                        Column::Float(f.0)
                    } else if let Some(b) = &rc.column_bool {
                        Column::Bool(b.0)
                    } else if let Some(b) = &rc.column_bytes {
                        Column::Bytes(b.0.clone())
                    } else {
                        Column::Null
                    }
                },
            };
            columns.push(c);
            proof {
                assert(row@.columns.take(i + 1).drop_last() =~= row@.columns.take(i as int));
                assert(row@.columns.take(i + 1).last() == row@.columns[i as int]);
                assert(row_to_record_spec(row@.columns.take(i + 1)) =~= row_to_record_spec(
                    row@.columns.take(i as int),
                ).push(row_to_record_spec(row@.columns.take(i + 1)).last()));
            }
            i = i + 1;
        }
        proof {
            assert(row@.columns.take(n as int) =~= row@.columns);
        }
        Record { columns }
    }
}

} // verus!
