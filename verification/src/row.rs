use vstd::prelude::*;
use vstd::utf8::encode_utf8;

use crate::codec::{dec_bool, dec_bytes, dec_i64, dec_str, dec_u64, enc_bool, enc_bytes, enc_i64,
    enc_str, enc_u64, fits_u64, lemma_dec_enc_bool, lemma_dec_enc_bytes, lemma_dec_enc_i64,
    lemma_dec_enc_str, lemma_dec_enc_u64, lemma_enc_u64_len, lemma_subrange_split, read_bool,
    read_bytes, read_i64, read_str, read_u64, write_bool, write_bytes, write_i64, write_str,
    write_u64};
use crate::errors::SqlLayerError;

verus! {

/// A string column value inside a row payload.
#[derive(Debug, Clone, PartialEq)]
pub struct ColumnString(pub String);

/// A signed 64-bit integer column value inside a row payload.
#[derive(Debug, Clone, PartialEq)]
pub struct ColumnInt(pub i64);

/// A float column value inside a row payload, held as the IEEE-754 binary64
/// bit pattern of the number.
#[derive(Debug, Clone, PartialEq)]
pub struct ColumnFloat(pub u64);

/// A boolean column value inside a row payload.
#[derive(Debug, Clone, PartialEq)]
pub struct ColumnBool(pub bool);

/// A byte-string column value inside a row payload.
#[derive(Debug, Clone, PartialEq)]
pub struct ColumnBytes(pub Vec<u8>);

/// One typed column slot of a row payload: at most one of the five typed
/// members is present; a slot with none present reads as null.
pub struct RowColumnView {
    pub column_string: Option<Seq<char>>,
    pub column_int: Option<i64>,
    pub column_float: Option<u64>,
    pub column_bool: Option<bool>,
    pub column_bytes: Option<Seq<u8>>,
}

/// One typed column slot of a row payload.
#[derive(Debug, Clone, PartialEq)]
pub struct Column {
    pub column_string: Option<ColumnString>,
    pub column_int: Option<ColumnInt>,
    pub column_float: Option<ColumnFloat>,
    pub column_bool: Option<ColumnBool>,
    pub column_bytes: Option<ColumnBytes>,
}

impl View for Column {
    type V = RowColumnView;

    open spec fn view(&self) -> RowColumnView {
        RowColumnView {
            column_string: match self.column_string {
                Some(c) => Some(c.0@),
                None => None,
            },
            column_int: match self.column_int {
                Some(c) => Some(c.0),
                None => None,
            },
            column_float: match self.column_float {
                Some(c) => Some(c.0),
                None => None,
            },
            column_bool: match self.column_bool {
                Some(c) => Some(c.0),
                None => None,
            },
            column_bytes: match self.column_bytes {
                Some(c) => Some(c.0@),
                None => None,
            },
        }
    }
}

impl DeepView for Column {
    type V = RowColumnView;

    open spec fn deep_view(&self) -> RowColumnView {
        self.view()
    }
}

/// An all-absent column slot, as a ghost value.
pub open spec fn null_row_column() -> RowColumnView {
    RowColumnView {
        column_string: None,
        column_int: None,
        column_float: None,
        column_bool: None,
        column_bytes: None,
    }
}

impl Column {
    pub fn new_string(value: String) -> (r: Self)
        ensures
            r@ == (RowColumnView { column_string: Some(value@), ..null_row_column() }),
    {
        Self {
            column_string: Some(ColumnString(value)),
            column_int: None,
            column_float: None,
            column_bool: None,
            column_bytes: None,
        }
    }

    pub fn new_int(value: i64) -> (r: Self)
        ensures
            r@ == (RowColumnView { column_int: Some(value), ..null_row_column() }),
    {
        Self {
            column_string: None,
            column_int: Some(ColumnInt(value)),
            column_float: None,
            column_bool: None,
            column_bytes: None,
        }
    }

    /// Takes the IEEE-754 binary64 bit pattern of the float value.
    pub fn new_float(bits: u64) -> (r: Self)
        ensures
            r@ == (RowColumnView { column_float: Some(bits), ..null_row_column() }),
    {
        Self {
            column_string: None,
            column_int: None,
            column_float: Some(ColumnFloat(bits)),
            column_bool: None,
            column_bytes: None,
        }
    }

    pub fn new_bool(value: bool) -> (r: Self)
        ensures
            r@ == (RowColumnView { column_bool: Some(value), ..null_row_column() }),
    {
        Self {
            column_string: None,
            column_int: None,
            column_float: None,
            column_bool: Some(ColumnBool(value)),
            column_bytes: None,
        }
    }

    pub fn new_bytes(value: Vec<u8>) -> (r: Self)
        ensures
            r@ == (RowColumnView { column_bytes: Some(value@), ..null_row_column() }),
    {
        Self {
            column_string: None,
            column_int: None,
            column_float: None,
            column_bool: None,
            column_bytes: Some(ColumnBytes(value)),
        }
    }

    /// True when none of the five typed members is present.
    pub fn is_null(&self) -> (r: bool)
        ensures
            r == (self@ == null_row_column()),
    {
        let r = self.column_bool.is_none() && self.column_int.is_none()
            && self.column_float.is_none() && self.column_string.is_none()
            && self.column_bytes.is_none();
        proof {
            if r {
                assert(self@ =~= null_row_column());
            }
        }
        r
    }
}

/// A row payload: an ordered list of optionally-null typed column slots,
/// positionally aligned with the owning table's field list at insert time.
pub struct RowView {
    pub columns: Seq<Option<RowColumnView>>,
}

/// A row payload.
#[derive(Debug, Clone, PartialEq)]
pub struct Row {
    pub columns: Vec<Option<Column>>,
}

impl View for Row {
    type V = RowView;

    open spec fn view(&self) -> RowView {
        RowView { columns: self.columns.deep_view() }
    }
}

impl Row {
    pub fn new() -> (r: Self)
        ensures
            r@.columns == Seq::<Option<RowColumnView>>::empty(),
    {
        let r = Self { columns: Vec::new() };
        proof {
            assert(r@.columns =~= Seq::<Option<RowColumnView>>::empty());
        }
        r
    }

    pub fn add_column(&mut self, column: Column)
        ensures
            final(self)@.columns == old(self)@.columns.push(Some(column@)),
    {
        let ghost prev = self@.columns;
        let ghost cv = column@;
        self.columns.push(Some(column));
        proof {
            assert(self@.columns =~= prev.push(Some(cv)));
        }
    }

    /// Appends an explicit SQL NULL slot.
    pub fn add_null_column(&mut self)
        ensures
            final(self)@.columns == old(self)@.columns.push(None),
    {
        let ghost prev = self@.columns;
        self.columns.push(None);
        proof {
            assert(self@.columns =~= prev.push(None));
        }
    }
}

// ---------------------------------------------------------------------------
// the row payload codec: each column slot is five optional members, each an
// absent marker or a present marker followed by the member's encoding; the
// row is a count followed by its slots, each an absent marker (an explicit
// NULL) or a present marker followed by the slot
// ---------------------------------------------------------------------------

pub open spec fn enc_opt_str(o: Option<Seq<char>>) -> Seq<u8> {
    match o {
        None => enc_bool(false),
        Some(s) => enc_bool(true) + enc_str(s),
    }
}

pub open spec fn enc_opt_i64(o: Option<i64>) -> Seq<u8> {
    match o {
        None => enc_bool(false),
        Some(x) => enc_bool(true) + enc_i64(x),
    }
}

pub open spec fn enc_opt_u64(o: Option<u64>) -> Seq<u8> {
    match o {
        None => enc_bool(false),
        Some(x) => enc_bool(true) + enc_u64(x),
    }
}

pub open spec fn enc_opt_bool(o: Option<bool>) -> Seq<u8> {
    match o {
        None => enc_bool(false),
        Some(x) => enc_bool(true) + enc_bool(x),
    }
}

pub open spec fn enc_opt_bytes(o: Option<Seq<u8>>) -> Seq<u8> {
    match o {
        None => enc_bool(false),
        Some(x) => enc_bool(true) + enc_bytes(x),
    }
}

pub open spec fn enc_row_column(c: RowColumnView) -> Seq<u8> {
    enc_opt_str(c.column_string) + (enc_opt_i64(c.column_int) + (enc_opt_u64(c.column_float) + (
    enc_opt_bool(c.column_bool) + enc_opt_bytes(c.column_bytes))))
}

pub open spec fn enc_opt_row_column(c: Option<RowColumnView>) -> Seq<u8> {
    match c {
        None => enc_bool(false),
        Some(c) => enc_bool(true) + enc_row_column(c),
    }
}

pub open spec fn enc_row_columns(cs: Seq<Option<RowColumnView>>) -> Seq<u8>
    decreases cs.len(),
{
    if cs.len() == 0 {
        Seq::empty()
    } else {
        enc_opt_row_column(cs[0]) + enc_row_columns(cs.drop_first())
    }
}

/// The serialized form of a row payload.
pub open spec fn enc_row(r: RowView) -> Seq<u8> {
    enc_u64(r.columns.len() as u64) + enc_row_columns(r.columns)
}

pub open spec fn dec_opt_str(b: Seq<u8>, i: int) -> Option<(Option<Seq<char>>, int)> {
    match dec_bool(b, i) {
        Some((present, j)) => if present {
            match dec_str(b, j) {
                Some((s, k)) => Some((Some(s), k)),
                None => None,
            }
        } else {
            Some((None, j))
        },
        None => None,
    }
}

pub open spec fn dec_opt_i64(b: Seq<u8>, i: int) -> Option<(Option<i64>, int)> {
    match dec_bool(b, i) {
        Some((present, j)) => if present {
            match dec_i64(b, j) {
                Some((x, k)) => Some((Some(x), k)),
                None => None,
            }
        } else {
            Some((None, j))
        },
        None => None,
    }
}

pub open spec fn dec_opt_u64(b: Seq<u8>, i: int) -> Option<(Option<u64>, int)> {
    match dec_bool(b, i) {
        Some((present, j)) => if present {
            match dec_u64(b, j) {
                Some((x, k)) => Some((Some(x), k)),
                None => None,
            }
        } else {
            Some((None, j))
        },
        None => None,
    }
}

pub open spec fn dec_opt_bool(b: Seq<u8>, i: int) -> Option<(Option<bool>, int)> {
    match dec_bool(b, i) {
        Some((present, j)) => if present {
            match dec_bool(b, j) {
                Some((x, k)) => Some((Some(x), k)),
                None => None,
            }
        } else {
            Some((None, j))
        },
        None => None,
    }
}

pub open spec fn dec_opt_bytes(b: Seq<u8>, i: int) -> Option<(Option<Seq<u8>>, int)> {
    match dec_bool(b, i) {
        Some((present, j)) => if present {
            match dec_bytes(b, j) {
                Some((x, k)) => Some((Some(x), k)),
                None => None,
            }
        } else {
            Some((None, j))
        },
        None => None,
    }
}

pub open spec fn dec_row_column(b: Seq<u8>, i: int) -> Option<(RowColumnView, int)> {
    match dec_opt_str(b, i) {
        Some((column_string, i1)) => match dec_opt_i64(b, i1) {
            Some((column_int, i2)) => match dec_opt_u64(b, i2) {
                Some((column_float, i3)) => match dec_opt_bool(b, i3) {
                    Some((column_bool, i4)) => match dec_opt_bytes(b, i4) {
                        Some((column_bytes, i5)) => Some(
                            (
                                RowColumnView {
                                    column_string,
                                    column_int,
                                    column_float,
                                    column_bool,
                                    column_bytes,
                                },
                                i5,
                            ),
                        ),
                        None => None,
                    },
                    None => None,
                },
                None => None,
            },
            None => None,
        },
        None => None,
    }
}

pub open spec fn dec_opt_row_column(b: Seq<u8>, i: int) -> Option<(Option<RowColumnView>, int)> {
    match dec_bool(b, i) {
        Some((present, j)) => if present {
            match dec_row_column(b, j) {
                Some((c, k)) => Some((Some(c), k)),
                None => None,
            }
        } else {
            Some((None, j))
        },
        None => None,
    }
}

pub open spec fn dec_row_columns(b: Seq<u8>, i: int, n: nat) -> Option<
    (Seq<Option<RowColumnView>>, int),
>
    decreases n,
{
    if n == 0 {
        Some((Seq::empty(), i))
    } else {
        match dec_opt_row_column(b, i) {
            Some((c, j)) => match dec_row_columns(b, j, (n - 1) as nat) {
                Some((cs, k)) => Some((seq![c] + cs, k)),
                None => None,
            },
            None => None,
        }
    }
}

pub open spec fn dec_row(b: Seq<u8>, i: int) -> Option<(RowView, int)> {
    match dec_u64(b, i) {
        Some((n, j)) => match dec_row_columns(b, j, n as nat) {
            Some((cs, k)) => Some((RowView { columns: cs }, k)),
            None => None,
        },
        None => None,
    }
}

/// True when a column slot's variable-length members fit the 64-bit length
/// field; every slot held in memory does.
pub open spec fn row_column_fits(c: RowColumnView) -> bool {
    &&& (c.column_string matches Some(s) ==> fits_u64(encode_utf8(s).len()))
    &&& (c.column_bytes matches Some(v) ==> fits_u64(v.len()))
}

/// True when a row's count and every slot fit the length fields.
pub open spec fn row_fits(r: RowView) -> bool {
    &&& fits_u64(r.columns.len())
    &&& forall|i: int|
        0 <= i < r.columns.len() ==> ((#[trigger] r.columns[i]) matches Some(c)
            ==> row_column_fits(c))
}

// ---------------------------------------------------------------------------
// decoding what was encoded
// ---------------------------------------------------------------------------

pub proof fn lemma_dec_enc_opt_str(b: Seq<u8>, i: int, o: Option<Seq<char>>)
    requires
        0 <= i,
        o matches Some(s) ==> fits_u64(encode_utf8(s).len()),
        i + enc_opt_str(o).len() <= b.len(),
        b.subrange(i, i + enc_opt_str(o).len() as int) == enc_opt_str(o),
    ensures
        dec_opt_str(b, i) == Some((o, i + enc_opt_str(o).len() as int)),
{
    match o {
        None => {
            lemma_dec_enc_bool(b, i, false);
        },
        Some(s) => {
            lemma_subrange_split(b, i, enc_bool(true), enc_str(s));
            lemma_dec_enc_bool(b, i, true);
            lemma_dec_enc_str(b, i + 1, s);
        },
    }
}

pub proof fn lemma_dec_enc_opt_i64(b: Seq<u8>, i: int, o: Option<i64>)
    requires
        0 <= i,
        i + enc_opt_i64(o).len() <= b.len(),
        b.subrange(i, i + enc_opt_i64(o).len() as int) == enc_opt_i64(o),
    ensures
        dec_opt_i64(b, i) == Some((o, i + enc_opt_i64(o).len() as int)),
{
    match o {
        None => {
            lemma_dec_enc_bool(b, i, false);
        },
        Some(x) => {
            lemma_enc_u64_len(x as u64);
            lemma_subrange_split(b, i, enc_bool(true), enc_i64(x));
            lemma_dec_enc_bool(b, i, true);
            lemma_dec_enc_i64(b, i + 1, x);
        },
    }
}

pub proof fn lemma_dec_enc_opt_u64(b: Seq<u8>, i: int, o: Option<u64>)
    requires
        0 <= i,
        i + enc_opt_u64(o).len() <= b.len(),
        b.subrange(i, i + enc_opt_u64(o).len() as int) == enc_opt_u64(o),
    ensures
        dec_opt_u64(b, i) == Some((o, i + enc_opt_u64(o).len() as int)),
{
    match o {
        None => {
            lemma_dec_enc_bool(b, i, false);
        },
        Some(x) => {
            lemma_enc_u64_len(x);
            lemma_subrange_split(b, i, enc_bool(true), enc_u64(x));
            lemma_dec_enc_bool(b, i, true);
            lemma_dec_enc_u64(b, i + 1, x);
        },
    }
}

pub proof fn lemma_dec_enc_opt_bool(b: Seq<u8>, i: int, o: Option<bool>)
    requires
        0 <= i,
        i + enc_opt_bool(o).len() <= b.len(),
        b.subrange(i, i + enc_opt_bool(o).len() as int) == enc_opt_bool(o),
    ensures
        dec_opt_bool(b, i) == Some((o, i + enc_opt_bool(o).len() as int)),
{
    match o {
        None => {
            lemma_dec_enc_bool(b, i, false);
        },
        Some(x) => {
            lemma_subrange_split(b, i, enc_bool(true), enc_bool(x));
            lemma_dec_enc_bool(b, i, true);
            lemma_dec_enc_bool(b, i + 1, x);
        },
    }
}

pub proof fn lemma_dec_enc_opt_bytes(b: Seq<u8>, i: int, o: Option<Seq<u8>>)
    requires
        0 <= i,
        o matches Some(v) ==> fits_u64(v.len()),
        i + enc_opt_bytes(o).len() <= b.len(),
        b.subrange(i, i + enc_opt_bytes(o).len() as int) == enc_opt_bytes(o),
    ensures
        dec_opt_bytes(b, i) == Some((o, i + enc_opt_bytes(o).len() as int)),
{
    match o {
        None => {
            lemma_dec_enc_bool(b, i, false);
        },
        Some(v) => {
            lemma_subrange_split(b, i, enc_bool(true), enc_bytes(v));
            lemma_dec_enc_bool(b, i, true);
            lemma_dec_enc_bytes(b, i + 1, v);
        },
    }
}

pub proof fn lemma_dec_enc_row_column(b: Seq<u8>, i: int, c: RowColumnView)
    requires
        0 <= i,
        row_column_fits(c),
        i + enc_row_column(c).len() <= b.len(),
        b.subrange(i, i + enc_row_column(c).len() as int) == enc_row_column(c),
    ensures
        dec_row_column(b, i) == Some((c, i + enc_row_column(c).len() as int)),
{
    let e1 = enc_opt_str(c.column_string);
    let e2 = enc_opt_i64(c.column_int);
    let e3 = enc_opt_u64(c.column_float);
    let e4 = enc_opt_bool(c.column_bool);
    let e5 = enc_opt_bytes(c.column_bytes);
    lemma_subrange_split(b, i, e1, e2 + (e3 + (e4 + e5)));
    let i1 = i + e1.len() as int;
    lemma_subrange_split(b, i1, e2, e3 + (e4 + e5));
    let i2 = i1 + e2.len() as int;
    lemma_subrange_split(b, i2, e3, e4 + e5);
    let i3 = i2 + e3.len() as int;
    lemma_subrange_split(b, i3, e4, e5);
    let i4 = i3 + e4.len() as int;
    lemma_dec_enc_opt_str(b, i, c.column_string);
    lemma_dec_enc_opt_i64(b, i1, c.column_int);
    lemma_dec_enc_opt_u64(b, i2, c.column_float);
    lemma_dec_enc_opt_bool(b, i3, c.column_bool);
    lemma_dec_enc_opt_bytes(b, i4, c.column_bytes);
}

pub proof fn lemma_dec_enc_opt_row_column(b: Seq<u8>, i: int, c: Option<RowColumnView>)
    requires
        0 <= i,
        c matches Some(cc) ==> row_column_fits(cc),
        i + enc_opt_row_column(c).len() <= b.len(),
        b.subrange(i, i + enc_opt_row_column(c).len() as int) == enc_opt_row_column(c),
    ensures
        dec_opt_row_column(b, i) == Some((c, i + enc_opt_row_column(c).len() as int)),
{
    match c {
        None => {
            lemma_dec_enc_bool(b, i, false);
        },
        Some(cc) => {
            lemma_subrange_split(b, i, enc_bool(true), enc_row_column(cc));
            lemma_dec_enc_bool(b, i, true);
            lemma_dec_enc_row_column(b, i + 1, cc);
        },
    }
}

pub proof fn lemma_dec_enc_row_columns(b: Seq<u8>, i: int, cs: Seq<Option<RowColumnView>>)
    requires
        0 <= i,
        forall|k: int|
            0 <= k < cs.len() ==> ((#[trigger] cs[k]) matches Some(c) ==> row_column_fits(c)),
        i + enc_row_columns(cs).len() <= b.len(),
        b.subrange(i, i + enc_row_columns(cs).len() as int) == enc_row_columns(cs),
    ensures
        dec_row_columns(b, i, cs.len()) == Some((cs, i + enc_row_columns(cs).len() as int)),
    decreases cs.len(),
{
    if cs.len() == 0 {
        assert(cs =~= Seq::<Option<RowColumnView>>::empty());
    } else {
        let e1 = enc_opt_row_column(cs[0]);
        let rest = enc_row_columns(cs.drop_first());
        lemma_subrange_split(b, i, e1, rest);
        lemma_dec_enc_opt_row_column(b, i, cs[0]);
        let j = i + e1.len() as int;
        lemma_dec_enc_row_columns(b, j, cs.drop_first());
        assert(seq![cs[0]] + cs.drop_first() =~= cs);
    }
}

/// The row codec round-trips: decoding an encoded row yields the row back,
/// for every row payload; NULL slots survive as NULL.
pub proof fn lemma_row_round_trip(r: RowView)
    requires
        row_fits(r),
    ensures
        dec_row(enc_row(r), 0) == Some((r, enc_row(r).len() as int)),
{
    let b = enc_row(r);
    let e1 = enc_u64(r.columns.len() as u64);
    let e2 = enc_row_columns(r.columns);
    lemma_enc_u64_len(r.columns.len() as u64);
    assert(b.subrange(0, b.len() as int) =~= b);
    lemma_subrange_split(b, 0, e1, e2);
    lemma_dec_enc_u64(b, 0, r.columns.len() as u64);
    lemma_dec_enc_row_columns(b, 8, r.columns);
}

/// Appending a slot appends its encoding.
pub proof fn lemma_enc_row_columns_push(cs: Seq<Option<RowColumnView>>, c: Option<RowColumnView>)
    ensures
        enc_row_columns(cs.push(c)) == enc_row_columns(cs) + enc_opt_row_column(c),
    decreases cs.len(),
{
    if cs.len() == 0 {
        assert(cs.push(c)[0] == c);
        assert(cs.push(c).drop_first() =~= Seq::<Option<RowColumnView>>::empty());
        assert(enc_row_columns(cs) + enc_opt_row_column(c) =~= enc_opt_row_column(c));
        assert(enc_opt_row_column(c) + enc_row_columns(Seq::empty()) =~= enc_opt_row_column(c));
    } else {
        assert(cs.push(c).drop_first() =~= cs.drop_first().push(c));
        assert(cs.push(c)[0] == cs[0]);
        lemma_enc_row_columns_push(cs.drop_first(), c);
        assert(enc_opt_row_column(cs[0]) + (enc_row_columns(cs.drop_first())
            + enc_opt_row_column(c)) =~= (enc_opt_row_column(cs[0]) + enc_row_columns(
            cs.drop_first(),
        )) + enc_opt_row_column(c));
    }
}

// ---------------------------------------------------------------------------
// executable codec
// ---------------------------------------------------------------------------

fn write_opt_str(out: &mut Vec<u8>, o: &Option<ColumnString>)
    ensures
        final(out)@ == old(out)@ + enc_opt_str(
            match o {
                Some(s) => Some(s.0@),
                None => None,
            },
        ),
{
    match o {
        None => write_bool(out, false),
        Some(s) => {
            write_bool(out, true);
            write_str(out, s.0.as_str());
            proof {
                assert(out@ =~= old(out)@ + (enc_bool(true) + enc_str(s.0@)));
            }
        },
    }
}

fn write_opt_i64(out: &mut Vec<u8>, o: &Option<ColumnInt>)
    ensures
        final(out)@ == old(out)@ + enc_opt_i64(
            match o {
                Some(x) => Some(x.0),
                None => None,
            },
        ),
{
    match o {
        None => write_bool(out, false),
        Some(x) => {
            write_bool(out, true);
            write_i64(out, x.0);
            proof {
                assert(out@ =~= old(out)@ + (enc_bool(true) + enc_i64(x.0)));
            }
        },
    }
}

fn write_opt_u64(out: &mut Vec<u8>, o: &Option<ColumnFloat>)
    ensures
        final(out)@ == old(out)@ + enc_opt_u64(
            match o {
                Some(x) => Some(x.0),
                None => None,
            },
        ),
{
    match o {
        None => write_bool(out, false),
        Some(x) => {
            write_bool(out, true);
            write_u64(out, x.0);
            proof {
                assert(out@ =~= old(out)@ + (enc_bool(true) + enc_u64(x.0)));
            }
        },
    }
}

fn write_opt_bool(out: &mut Vec<u8>, o: &Option<ColumnBool>)
    ensures
        final(out)@ == old(out)@ + enc_opt_bool(
            match o {
                Some(x) => Some(x.0),
                None => None,
            },
        ),
{
    match o {
        None => write_bool(out, false),
        Some(x) => {
            write_bool(out, true);
            write_bool(out, x.0);
            proof {
                assert(out@ =~= old(out)@ + (enc_bool(true) + enc_bool(x.0)));
            }
        },
    }
}

fn write_opt_bytes(out: &mut Vec<u8>, o: &Option<ColumnBytes>)
    ensures
        final(out)@ == old(out)@ + enc_opt_bytes(
            match o {
                Some(x) => Some(x.0@),
                None => None,
            },
        ),
{
    match o {
        None => write_bool(out, false),
        Some(x) => {
            write_bool(out, true);
            let payload = x.0.as_slice();
            let m = payload.len();
            proof {
                assert(m < 0x10000000000000000);
            }
            write_bytes(out, payload);
            proof {
                assert(out@ =~= old(out)@ + (enc_bool(true) + enc_bytes(x.0@)));
            }
        },
    }
}

fn write_row_column(out: &mut Vec<u8>, c: &Column)
    ensures
        final(out)@ == old(out)@ + enc_row_column(c@),
{
    write_opt_str(out, &c.column_string);
    write_opt_i64(out, &c.column_int);
    write_opt_u64(out, &c.column_float);
    write_opt_bool(out, &c.column_bool);
    write_opt_bytes(out, &c.column_bytes);
    proof {
        crate::codec::lemma_concat_assoc5(
            old(out)@,
            enc_opt_str(c@.column_string),
            enc_opt_i64(c@.column_int),
            enc_opt_u64(c@.column_float),
            enc_opt_bool(c@.column_bool),
            enc_opt_bytes(c@.column_bytes),
        );
    }
}

fn read_row_column(b: &[u8], i: usize) -> (r: Option<(Column, usize)>)
    ensures
        match r {
            Some((c, j)) => dec_row_column(b@, i as int) == Some((c@, j as int)),
            None => dec_row_column(b@, i as int) is None,
        },
{
    let (column_string, i1) = match read_bool(b, i) {
        Some((true, j)) => match read_str(b, j) {
            Some((s, k)) => (Some(ColumnString(s)), k),
            None => {
                return None;
            },
        },
        Some((false, j)) => (None, j),
        None => {
            return None;
        },
    };
    let (column_int, i2) = match read_bool(b, i1) {
        Some((true, j)) => match read_i64(b, j) {
            Some((x, k)) => (Some(ColumnInt(x)), k),
            None => {
                return None;
            },
        },
        Some((false, j)) => (None, j),
        None => {
            return None;
        },
    };
    let (column_float, i3) = match read_bool(b, i2) {
        Some((true, j)) => match read_u64(b, j) {
            Some((x, k)) => (Some(ColumnFloat(x)), k),
            None => {
                return None;
            },
        },
        Some((false, j)) => (None, j),
        None => {
            return None;
        },
    };
    let (column_bool, i4) = match read_bool(b, i3) {
        Some((true, j)) => match read_bool(b, j) {
            Some((x, k)) => (Some(ColumnBool(x)), k),
            None => {
                return None;
            },
        },
        Some((false, j)) => (None, j),
        None => {
            return None;
        },
    };
    let (column_bytes, i5) = match read_bool(b, i4) {
        Some((true, j)) => match read_bytes(b, j) {
            Some((x, k)) => (Some(ColumnBytes(x)), k),
            None => {
                return None;
            },
        },
        Some((false, j)) => (None, j),
        None => {
            return None;
        },
    };
    Some((Column { column_string, column_int, column_float, column_bool, column_bytes }, i5))
}

impl Row {
    /// Serializes the row payload: the slot count, then each slot.
    pub fn to_bytes(&self) -> (r: Result<Vec<u8>, SqlLayerError>)
        ensures
            r matches Ok(v) && v@ == enc_row(self@),
    {
        let mut out: Vec<u8> = Vec::new();
        let n = self.columns.len();
        write_u64(&mut out, n as u64);
        let ghost prefix = out@;
        let mut i: usize = 0;
        while i < n
            invariant
                0 <= i <= n,
                n == self.columns.len(),
                prefix == enc_u64(n as u64),
                self@.columns == self.columns.deep_view(),
                out@ == prefix + enc_row_columns(self@.columns.take(i as int)),
            decreases n - i,
        {
            match &self.columns[i] {
                None => write_bool(&mut out, false),
                Some(c) => {
                    write_bool(&mut out, true);
                    write_row_column(&mut out, c);
                },
            }
            proof {
                assert(self@.columns.take(i + 1) =~= self@.columns.take(i as int).push(
                    self@.columns[i as int],
                ));
                lemma_enc_row_columns_push(self@.columns.take(i as int), self@.columns[i as int]);
                assert(out@ =~= prefix + enc_row_columns(self@.columns.take(i + 1)));
            }
            i = i + 1;
        }
        proof {
            assert(self@.columns.take(n as int) =~= self@.columns);
        }
        Ok(out)
    }

    /// Deserializes a row payload, failing on any input that is not exactly
    /// one encoded row.
    pub fn from_bytes(bytes: &[u8]) -> (r: Result<Self, SqlLayerError>)
        ensures
            match dec_row(bytes@, 0) {
                Some((rv, n)) => if n == bytes@.len() {
                    r matches Ok(row) && row@ == rv
                } else {
                    r == Err::<Self, SqlLayerError>(SqlLayerError::SerializationFailure)
                },
                None => r == Err::<Self, SqlLayerError>(SqlLayerError::SerializationFailure),
            },
    {
        let (n, start) = match read_u64(bytes, 0) {
            Some((n, j)) => (n, j),
            None => {
                return Err(SqlLayerError::SerializationFailure);
            },
        };
        let mut columns: Vec<Option<Column>> = Vec::new();
        let mut done: u64 = 0;
        let mut cur: usize = start;
        proof {
            match dec_row_columns(bytes@, start as int, n as nat) {
                Some((cs, k)) => {
                    assert(columns.deep_view() + cs =~= cs);
                },
                None => {},
            }
        }
        while done < n
            invariant
                done <= n,
                dec_u64(bytes@, 0) == Some((n, start as int)),
                dec_row_columns(bytes@, start as int, n as nat) == (match dec_row_columns(
                    bytes@,
                    cur as int,
                    (n - done) as nat,
                ) {
                    Some((cs, k)) => Some((columns.deep_view() + cs, k)),
                    None => None::<(Seq<Option<RowColumnView>>, int)>,
                }),
            decreases n - done,
        {
            let ghost prev = columns.deep_view();
            match read_bool(bytes, cur) {
                Some((true, j)) => match read_row_column(bytes, j) {
                    Some((c, k)) => {
                        let ghost cv = c@;
                        columns.push(Some(c));
                        proof {
                            assert(columns.deep_view() =~= prev.push(Some(cv)));
                            match dec_row_columns(bytes@, k as int, ((n - done) - 1) as nat) {
                                Some((cs2, k2)) => {
                                    assert(prev + (seq![Some(cv)] + cs2) =~= prev.push(Some(cv))
                                        + cs2);
                                },
                                None => {},
                            }
                        }
                        cur = k;
                    },
                    None => {
                        return Err(SqlLayerError::SerializationFailure);
                    },
                },
                Some((false, j)) => {
                    columns.push(None);
                    proof {
                        assert(columns.deep_view() =~= prev.push(None));
                        match dec_row_columns(bytes@, j as int, ((n - done) - 1) as nat) {
                            Some((cs2, k2)) => {
                                assert(prev + (seq![None] + cs2) =~= prev.push(None) + cs2);
                            },
                            None => {},
                        }
                    }
                    cur = j;
                },
                None => {
                    return Err(SqlLayerError::SerializationFailure);
                },
            }
            done = done + 1;
        }
        if cur == bytes.len() {
            proof {
                match dec_row_columns(bytes@, start as int, n as nat) {
                    Some((cs, k)) => {
                        assert(columns.deep_view() + Seq::<Option<RowColumnView>>::empty()
                            =~= columns.deep_view());
                    },
                    None => {},
                }
            }
            Ok(Self { columns })
        } else {
            Err(SqlLayerError::SerializationFailure)
        }
    }
}

} // verus!
