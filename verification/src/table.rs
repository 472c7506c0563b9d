use vstd::prelude::*;
use vstd::utf8::encode_utf8;

use crate::codec::{dec_str, dec_u64, enc_str, enc_u64, fits_u64, lemma_concat_assoc2,
    lemma_concat_assoc6, lemma_dec_enc_str, lemma_dec_enc_u64, lemma_enc_u64_len,
    lemma_subrange_split, read_str, read_u64, write_str, write_u64};
use crate::errors::SqlLayerError;
use crate::index::{Index, IndexView};

verus! {

/// The typed description of one column of a table.
#[derive(Debug, Clone, Copy, PartialEq, Eq, Structural)]
pub enum FieldType {
    String,
    Int,
    Float,
    Bool,
    Bytes,
}

/// One field of a table schema: a name, unique within the table, and a type.
pub struct FieldView {
    pub name: Seq<char>,
    pub field_type: FieldType,
}

/// One field of a table schema.
#[derive(Debug, Clone, PartialEq)]
pub struct Field {
    pub name: String,
    pub field_type: FieldType,
}

impl View for Field {
    type V = FieldView;

    open spec fn view(&self) -> FieldView {
        FieldView { name: self.name@, field_type: self.field_type }
    }
}

impl DeepView for Field {
    type V = FieldView;

    open spec fn deep_view(&self) -> FieldView {
        self.view()
    }
}

impl Field {
    pub fn new(name: String, field_type: FieldType) -> (r: Self)
        ensures
            r@.name == name@,
            r@.field_type == field_type,
    {
        Self { name, field_type }
    }
}

/// A table schema: the authoritative typed description used to validate
/// inserts and to lay out index keys.
pub struct TableView {
    pub name: Seq<char>,
    pub fields: Seq<FieldView>,
    pub primary_key: Seq<Seq<char>>,
    pub indexes: Seq<IndexView>,
}

impl TableView {
    /// The schema invariants: a non-empty primary key, unique field names,
    /// and every primary-key or index field name present among the fields.
    pub open spec fn wf(self) -> bool {
        &&& self.primary_key.len() > 0
        &&& forall|i: int, j: int|
            0 <= i < j < self.fields.len() ==> self.fields[i].name != self.fields[j].name
        &&& forall|i: int|
            0 <= i < self.primary_key.len() ==> field_pos_spec(
                self.fields,
                self.primary_key[i],
            ) is Some
        &&& forall|i: int, j: int|
            0 <= i < self.indexes.len() && 0 <= j < self.indexes[i].fields.len()
                ==> field_pos_spec(self.fields, self.indexes[i].fields[j]) is Some
    }
}

/// The position of the first field with the given name, if any.
pub open spec fn field_pos_spec(fields: Seq<FieldView>, name: Seq<char>) -> Option<int>
    decreases fields.len(),
{
    if fields.len() == 0 {
        None
    } else if fields[0].name == name {
        Some(0int)
    } else {
        match field_pos_spec(fields.drop_first(), name) {
            Some(i) => Some(i + 1),
            None => None,
        }
    }
}

/// What [`field_pos_spec`] returns: the position of the first field named
/// `name`, or `None` when no field carries that name.
pub proof fn lemma_field_pos_spec(fields: Seq<FieldView>, name: Seq<char>)
    ensures
        match field_pos_spec(fields, name) {
            Some(i) => 0 <= i < fields.len() && fields[i].name == name && forall|j: int|
                0 <= j < i ==> fields[j].name != name,
            None => forall|j: int| 0 <= j < fields.len() ==> fields[j].name != name,
        },
    decreases fields.len(),
{
    if fields.len() > 0 && fields[0].name != name {
        lemma_field_pos_spec(fields.drop_first(), name);
        assert(forall|j: int|
            0 < j < fields.len() ==> fields[j] == fields.drop_first()[j - 1]);
    }
}

/// A table schema.
#[derive(Debug, Clone, PartialEq)]
pub struct Table {
    pub name: String,
    pub fields: Vec<Field>,
    pub primary_key: Vec<String>,
    pub indexes: Vec<Index>,
}

impl View for Table {
    type V = TableView;

    open spec fn view(&self) -> TableView {
        TableView {
            name: self.name@,
            fields: self.fields.deep_view(),
            primary_key: self.primary_key.deep_view(),
            indexes: self.indexes.deep_view(),
        }
    }
}

impl DeepView for Table {
    type V = TableView;

    open spec fn deep_view(&self) -> TableView {
        self.view()
    }
}

impl Table {
    pub fn new(name: String, primary_key: Vec<String>) -> (r: Self)
        ensures
            r@.name == name@,
            r@.fields == Seq::<FieldView>::empty(),
            r@.primary_key == primary_key.deep_view(),
            r@.indexes == Seq::<IndexView>::empty(),
    {
        let r = Self { name, fields: Vec::new(), primary_key, indexes: Vec::new() };
        proof {
            assert(r@.fields =~= Seq::<FieldView>::empty());
            assert(r@.indexes =~= Seq::<IndexView>::empty());
        }
        r
    }

    pub fn add_field(&mut self, field: Field)
        ensures
            final(self)@.name == old(self)@.name,
            final(self)@.fields == old(self)@.fields.push(field@),
            final(self)@.primary_key == old(self)@.primary_key,
            final(self)@.indexes == old(self)@.indexes,
    {
        let ghost prev = self@.fields;
        self.fields.push(field);
        proof {
            assert(self@.fields =~= prev.push(self.fields@.last()@));
        }
    }

    pub fn add_index(&mut self, index: &Index)
        ensures
            final(self)@.name == old(self)@.name,
            final(self)@.fields == old(self)@.fields,
            final(self)@.primary_key == old(self)@.primary_key,
            final(self)@.indexes == old(self)@.indexes.push(index@),
    {
        let ghost prev = self@.indexes;
        let c = index.clone();
        self.indexes.push(c);
        proof {
            assert(self@.indexes =~= prev.push(index@));
        }
    }

    /// The position of the first field named `field_name`, if any.
    pub fn get_field_pos(&self, field_name: &String) -> (r: Option<usize>)
        ensures
            match r {
                Some(i) => field_pos_spec(self@.fields, field_name@) == Some(i as int),
                None => field_pos_spec(self@.fields, field_name@) is None,
            },
    {
        let mut i: usize = 0;
        while i < self.fields.len()
            invariant
                0 <= i <= self.fields.len(),
                self.fields.deep_view() == self@.fields,
                forall|j: int| 0 <= j < i ==> self@.fields[j].name != field_name@,
            decreases self.fields.len() - i,
        {
            if self.fields[i].name.eq(field_name) {
                proof {
                    lemma_field_pos_spec(self@.fields, field_name@);
                    assert(self@.fields[i as int].name == field_name@);
                    match field_pos_spec(self@.fields, field_name@) {
                        Some(k) => {
                            if k < i as int {
                                assert(self@.fields[k].name != field_name@);
                            }
                            if k > i as int {
                                assert(self@.fields[i as int].name != field_name@);
                            }
                        },
                        None => {
                            assert(self@.fields[i as int].name != field_name@);
                        },
                    }
                }
                return Some(i);
            }
            assert(self@.fields[i as int].name != field_name@);
            i = i + 1;
        }
        proof {
            lemma_field_pos_spec(self@.fields, field_name@);
            match field_pos_spec(self@.fields, field_name@) {
                Some(k) => {
                    assert(self@.fields[k].name != field_name@);
                },
                None => {},
            }
        }
        None
    }

    /// Decides the schema invariants: a non-empty primary key, unique field
    /// names, and every primary-key and index field name present among the
    /// fields.
    pub fn is_well_formed(&self) -> (r: bool)
        ensures
            r == self@.wf(),
    {
        if self.primary_key.len() == 0 {
            return false;
        }
        let nf = self.fields.len();
        let mut i: usize = 0;
        while i < nf
            invariant
                0 <= i <= nf,
                nf == self.fields.len(),
                self.fields.deep_view() == self@.fields,
                forall|a: int, b: int|
                    0 <= a < b < self@.fields.len() && a < i ==> self@.fields[a].name
                        != self@.fields[b].name,
            decreases nf - i,
        {
            let mut j: usize = i + 1;
            while j < nf
                invariant
                    0 <= i < j <= nf,
                    nf == self.fields.len(),
                    self.fields.deep_view() == self@.fields,
                    forall|b: int| i < b < j ==> self@.fields[i as int].name != self@.fields[b].name,
                decreases nf - j,
            {
                if self.fields[i].name.eq(&self.fields[j].name) {
                    proof {
                        assert(self@.fields[i as int].name == self@.fields[j as int].name);
                        assert(!self@.wf());
                    }
                    return false;
                }
                j = j + 1;
            }
            i = i + 1;
        }
        let npk = self.primary_key.len();
        let mut k: usize = 0;
        while k < npk
            invariant
                0 <= k <= npk,
                npk == self.primary_key.len(),
                self.primary_key.deep_view() == self@.primary_key,
                self@ == self.view(),
                forall|a: int|
                    0 <= a < k ==> field_pos_spec(self@.fields, #[trigger] self@.primary_key[a]) is Some,
            decreases npk - k,
        {
            if self.get_field_pos(&self.primary_key[k]).is_none() {
                proof {
                    assert(self@.primary_key[k as int] == self.primary_key@[k as int]@);
                    assert(field_pos_spec(self@.fields, self@.primary_key[k as int]) is None);
                    assert(!self@.wf());
                }
                return false;
            }
            k = k + 1;
        }
        let ni = self.indexes.len();
        let mut ix: usize = 0;
        while ix < ni
            invariant
                0 <= ix <= ni,
                ni == self.indexes.len(),
                self.indexes.deep_view() == self@.indexes,
                self@ == self.view(),
                forall|a: int, b: int|
                    0 <= a < ix && 0 <= b < self@.indexes[a].fields.len() ==> field_pos_spec(
                        self@.fields,
                        #[trigger] self@.indexes[a].fields[b],
                    ) is Some,
            decreases ni - ix,
        {
            let names = self.indexes[ix].fields();
            let nn = names.len();
            let mut b: usize = 0;
            while b < nn
                invariant
                    0 <= b <= nn,
                    nn == names.len(),
                    names.deep_view() == self@.indexes[ix as int].fields,
                    0 <= ix < self@.indexes.len(),
                    self@ == self.view(),
                    forall|c: int|
                        0 <= c < b ==> field_pos_spec(
                            self@.fields,
                            #[trigger] self@.indexes[ix as int].fields[c],
                        ) is Some,
                decreases nn - b,
            {
                if self.get_field_pos(&names[b]).is_none() {
                    proof {
                        assert(self@.indexes[ix as int].fields[b as int] == names@[b as int]@);
                        assert(field_pos_spec(
                            self@.fields,
                            self@.indexes[ix as int].fields[b as int],
                        ) is None);
                        assert(!self@.wf());
                    }
                    return false;
                }
                b = b + 1;
            }
            ix = ix + 1;
        }
        true
    }
}

// ---------------------------------------------------------------------------
// the schema codec: the table name; the field list, each field its name and
// a one-byte type tag; the primary-key name list; and the index list, each
// index its name and its field-name list; every list a count and its items
// ---------------------------------------------------------------------------

pub open spec fn field_type_tag(t: FieldType) -> u8 {
    match t {
        FieldType::String => 1u8,
        FieldType::Int => 2u8,
        FieldType::Float => 3u8,
        FieldType::Bool => 4u8,
        FieldType::Bytes => 5u8,
    }
}

pub open spec fn enc_field_type(t: FieldType) -> Seq<u8> {
    seq![field_type_tag(t)]
}

pub open spec fn dec_field_type(b: Seq<u8>, i: int) -> Option<(FieldType, int)> {
    if 0 <= i && i < b.len() {
        if b[i] == 1 {
            Some((FieldType::String, i + 1))
        } else if b[i] == 2 {
            Some((FieldType::Int, i + 1))
        } else if b[i] == 3 {
            Some((FieldType::Float, i + 1))
        } else if b[i] == 4 {
            Some((FieldType::Bool, i + 1))
        } else if b[i] == 5 {
            Some((FieldType::Bytes, i + 1))
        } else {
            None
        }
    } else {
        None
    }
}

pub open spec fn enc_field(f: FieldView) -> Seq<u8> {
    enc_str(f.name) + enc_field_type(f.field_type)
}

pub open spec fn dec_field(b: Seq<u8>, i: int) -> Option<(FieldView, int)> {
    match dec_str(b, i) {
        Some((name, j)) => match dec_field_type(b, j) {
            Some((field_type, k)) => Some((FieldView { name, field_type }, k)),
            None => None,
        },
        None => None,
    }
}

pub open spec fn enc_field_seq(fs: Seq<FieldView>) -> Seq<u8>
    decreases fs.len(),
{
    if fs.len() == 0 {
        Seq::empty()
    } else {
        enc_field(fs[0]) + enc_field_seq(fs.drop_first())
    }
}

pub open spec fn dec_field_seq(b: Seq<u8>, i: int, n: nat) -> Option<(Seq<FieldView>, int)>
    decreases n,
{
    if n == 0 {
        Some((Seq::empty(), i))
    } else {
        match dec_field(b, i) {
            Some((f, j)) => match dec_field_seq(b, j, (n - 1) as nat) {
                Some((fs, k)) => Some((seq![f] + fs, k)),
                None => None,
            },
            None => None,
        }
    }
}

pub open spec fn enc_str_seq(ss: Seq<Seq<char>>) -> Seq<u8>
    decreases ss.len(),
{
    if ss.len() == 0 {
        Seq::empty()
    } else {
        enc_str(ss[0]) + enc_str_seq(ss.drop_first())
    }
}

pub open spec fn dec_str_seq(b: Seq<u8>, i: int, n: nat) -> Option<(Seq<Seq<char>>, int)>
    decreases n,
{
    if n == 0 {
        Some((Seq::empty(), i))
    } else {
        match dec_str(b, i) {
            Some((s, j)) => match dec_str_seq(b, j, (n - 1) as nat) {
                Some((ss, k)) => Some((seq![s] + ss, k)),
                None => None,
            },
            None => None,
        }
    }
}

/// A name list: its count, then each name.
pub open spec fn enc_strs(ss: Seq<Seq<char>>) -> Seq<u8> {
    enc_u64(ss.len() as u64) + enc_str_seq(ss)
}

pub open spec fn dec_strs(b: Seq<u8>, i: int) -> Option<(Seq<Seq<char>>, int)> {
    match dec_u64(b, i) {
        Some((n, j)) => dec_str_seq(b, j, n as nat),
        None => None,
    }
}

pub open spec fn enc_index(ix: IndexView) -> Seq<u8> {
    enc_str(ix.name) + enc_strs(ix.fields)
}

pub open spec fn dec_index(b: Seq<u8>, i: int) -> Option<(IndexView, int)> {
    match dec_str(b, i) {
        Some((name, j)) => match dec_strs(b, j) {
            Some((fields, k)) => Some((IndexView { name, fields }, k)),
            None => None,
        },
        None => None,
    }
}

pub open spec fn enc_index_seq(ixs: Seq<IndexView>) -> Seq<u8>
    decreases ixs.len(),
{
    if ixs.len() == 0 {
        Seq::empty()
    } else {
        enc_index(ixs[0]) + enc_index_seq(ixs.drop_first())
    }
}

pub open spec fn dec_index_seq(b: Seq<u8>, i: int, n: nat) -> Option<(Seq<IndexView>, int)>
    decreases n,
{
    if n == 0 {
        Some((Seq::empty(), i))
    } else {
        match dec_index(b, i) {
            Some((ix, j)) => match dec_index_seq(b, j, (n - 1) as nat) {
                Some((ixs, k)) => Some((seq![ix] + ixs, k)),
                None => None,
            },
            None => None,
        }
    }
}

/// The serialized form of a table schema.
pub open spec fn enc_table(t: TableView) -> Seq<u8> {
    enc_str(t.name) + (enc_u64(t.fields.len() as u64) + (enc_field_seq(t.fields) + (enc_strs(
        t.primary_key,
    ) + (enc_u64(t.indexes.len() as u64) + enc_index_seq(t.indexes)))))
}

pub open spec fn dec_table(b: Seq<u8>, i: int) -> Option<(TableView, int)> {
    match dec_str(b, i) {
        Some((name, i1)) => match dec_u64(b, i1) {
            Some((nf, i2)) => match dec_field_seq(b, i2, nf as nat) {
                Some((fields, i3)) => match dec_strs(b, i3) {
                    Some((primary_key, i4)) => match dec_u64(b, i4) {
                        Some((ni, i5)) => match dec_index_seq(b, i5, ni as nat) {
                            Some((indexes, i6)) => Some(
                                (TableView { name, fields, primary_key, indexes }, i6),
                            ),
                            None => None,
                        },
                        None => None,
                    },
                    None => None,
                },
                None => None,
            },
            None => None,
        },
        None => None,
    }
}

/// True when a string's UTF-8 form fits the 64-bit length field; every
/// string held in memory does.
pub open spec fn str_fits(s: Seq<char>) -> bool {
    fits_u64(encode_utf8(s).len())
}

pub open spec fn strs_fit(ss: Seq<Seq<char>>) -> bool {
    &&& fits_u64(ss.len())
    &&& forall|i: int| 0 <= i < ss.len() ==> str_fits(#[trigger] ss[i])
}

/// True when a schema's counts and strings fit the length fields.
pub open spec fn table_fits(t: TableView) -> bool {
    &&& str_fits(t.name)
    &&& fits_u64(t.fields.len())
    &&& forall|i: int| 0 <= i < t.fields.len() ==> str_fits((#[trigger] t.fields[i]).name)
    &&& strs_fit(t.primary_key)
    &&& fits_u64(t.indexes.len())
    &&& forall|i: int|
        0 <= i < t.indexes.len() ==> str_fits((#[trigger] t.indexes[i]).name) && strs_fit(
            t.indexes[i].fields,
        )
}

// ---------------------------------------------------------------------------
// decoding what was encoded
// ---------------------------------------------------------------------------

pub proof fn lemma_dec_enc_field_type(b: Seq<u8>, i: int, t: FieldType)
    requires
        0 <= i,
        i + 1 <= b.len(),
        b.subrange(i, i + 1) == enc_field_type(t),
    ensures
        dec_field_type(b, i) == Some((t, i + 1)),
{
    assert(b[i] == enc_field_type(t)[0]);
}

pub proof fn lemma_dec_enc_field(b: Seq<u8>, i: int, f: FieldView)
    requires
        0 <= i,
        str_fits(f.name),
        i + enc_field(f).len() <= b.len(),
        b.subrange(i, i + enc_field(f).len() as int) == enc_field(f),
    ensures
        dec_field(b, i) == Some((f, i + enc_field(f).len() as int)),
{
    lemma_subrange_split(b, i, enc_str(f.name), enc_field_type(f.field_type));
    lemma_dec_enc_str(b, i, f.name);
    lemma_dec_enc_field_type(b, i + enc_str(f.name).len() as int, f.field_type);
}

pub proof fn lemma_dec_enc_field_seq(b: Seq<u8>, i: int, fs: Seq<FieldView>)
    requires
        0 <= i,
        forall|k: int| 0 <= k < fs.len() ==> str_fits((#[trigger] fs[k]).name),
        i + enc_field_seq(fs).len() <= b.len(),
        b.subrange(i, i + enc_field_seq(fs).len() as int) == enc_field_seq(fs),
    ensures
        dec_field_seq(b, i, fs.len()) == Some((fs, i + enc_field_seq(fs).len() as int)),
    decreases fs.len(),
{
    if fs.len() == 0 {
        assert(fs =~= Seq::<FieldView>::empty());
    } else {
        lemma_subrange_split(b, i, enc_field(fs[0]), enc_field_seq(fs.drop_first()));
        lemma_dec_enc_field(b, i, fs[0]);
        lemma_dec_enc_field_seq(b, i + enc_field(fs[0]).len() as int, fs.drop_first());
        assert(seq![fs[0]] + fs.drop_first() =~= fs);
    }
}

pub proof fn lemma_dec_enc_str_seq(b: Seq<u8>, i: int, ss: Seq<Seq<char>>)
    requires
        0 <= i,
        forall|k: int| 0 <= k < ss.len() ==> str_fits(#[trigger] ss[k]),
        i + enc_str_seq(ss).len() <= b.len(),
        b.subrange(i, i + enc_str_seq(ss).len() as int) == enc_str_seq(ss),
    ensures
        dec_str_seq(b, i, ss.len()) == Some((ss, i + enc_str_seq(ss).len() as int)),
    decreases ss.len(),
{
    if ss.len() == 0 {
        assert(ss =~= Seq::<Seq<char>>::empty());
    } else {
        lemma_subrange_split(b, i, enc_str(ss[0]), enc_str_seq(ss.drop_first()));
        lemma_dec_enc_str(b, i, ss[0]);
        lemma_dec_enc_str_seq(b, i + enc_str(ss[0]).len() as int, ss.drop_first());
        assert(seq![ss[0]] + ss.drop_first() =~= ss);
    }
}

pub proof fn lemma_dec_enc_strs(b: Seq<u8>, i: int, ss: Seq<Seq<char>>)
    requires
        0 <= i,
        strs_fit(ss),
        i + enc_strs(ss).len() <= b.len(),
        b.subrange(i, i + enc_strs(ss).len() as int) == enc_strs(ss),
    ensures
        dec_strs(b, i) == Some((ss, i + enc_strs(ss).len() as int)),
{
    lemma_enc_u64_len(ss.len() as u64);
    lemma_subrange_split(b, i, enc_u64(ss.len() as u64), enc_str_seq(ss));
    lemma_dec_enc_u64(b, i, ss.len() as u64);
    lemma_dec_enc_str_seq(b, i + 8, ss);
}

pub proof fn lemma_dec_enc_index(b: Seq<u8>, i: int, ix: IndexView)
    requires
        0 <= i,
        str_fits(ix.name),
        strs_fit(ix.fields),
        i + enc_index(ix).len() <= b.len(),
        b.subrange(i, i + enc_index(ix).len() as int) == enc_index(ix),
    ensures
        dec_index(b, i) == Some((ix, i + enc_index(ix).len() as int)),
{
    lemma_subrange_split(b, i, enc_str(ix.name), enc_strs(ix.fields));
    lemma_dec_enc_str(b, i, ix.name);
    lemma_dec_enc_strs(b, i + enc_str(ix.name).len() as int, ix.fields);
}

pub proof fn lemma_dec_enc_index_seq(b: Seq<u8>, i: int, ixs: Seq<IndexView>)
    requires
        0 <= i,
        forall|k: int|
            0 <= k < ixs.len() ==> str_fits((#[trigger] ixs[k]).name) && strs_fit(ixs[k].fields),
        i + enc_index_seq(ixs).len() <= b.len(),
        b.subrange(i, i + enc_index_seq(ixs).len() as int) == enc_index_seq(ixs),
    ensures
        dec_index_seq(b, i, ixs.len()) == Some((ixs, i + enc_index_seq(ixs).len() as int)),
    decreases ixs.len(),
{
    if ixs.len() == 0 {
        assert(ixs =~= Seq::<IndexView>::empty());
    } else {
        lemma_subrange_split(b, i, enc_index(ixs[0]), enc_index_seq(ixs.drop_first()));
        lemma_dec_enc_index(b, i, ixs[0]);
        lemma_dec_enc_index_seq(b, i + enc_index(ixs[0]).len() as int, ixs.drop_first());
        assert(seq![ixs[0]] + ixs.drop_first() =~= ixs);
    }
}

/// The schema codec round-trips: decoding an encoded schema yields the
/// schema back, for every valid table value.
pub proof fn lemma_table_round_trip(t: TableView)
    requires
        table_fits(t),
    ensures
        dec_table(enc_table(t), 0) == Some((t, enc_table(t).len() as int)),
{
    let b = enc_table(t);
    let e1 = enc_str(t.name);
    let e2 = enc_u64(t.fields.len() as u64);
    let e3 = enc_field_seq(t.fields);
    let e4 = enc_strs(t.primary_key);
    let e5 = enc_u64(t.indexes.len() as u64);
    let e6 = enc_index_seq(t.indexes);
    lemma_enc_u64_len(t.fields.len() as u64);
    lemma_enc_u64_len(t.indexes.len() as u64);
    assert(b.subrange(0, b.len() as int) =~= b);
    lemma_subrange_split(b, 0, e1, e2 + (e3 + (e4 + (e5 + e6))));
    let i1 = e1.len() as int;
    lemma_subrange_split(b, i1, e2, e3 + (e4 + (e5 + e6)));
    let i2 = i1 + e2.len() as int;
    lemma_subrange_split(b, i2, e3, e4 + (e5 + e6));
    let i3 = i2 + e3.len() as int;
    lemma_subrange_split(b, i3, e4, e5 + e6);
    let i4 = i3 + e4.len() as int;
    lemma_subrange_split(b, i4, e5, e6);
    let i5 = i4 + e5.len() as int;
    lemma_dec_enc_str(b, 0, t.name);
    lemma_dec_enc_u64(b, i1, t.fields.len() as u64);
    lemma_dec_enc_field_seq(b, i2, t.fields);
    lemma_dec_enc_strs(b, i3, t.primary_key);
    lemma_dec_enc_u64(b, i4, t.indexes.len() as u64);
    lemma_dec_enc_index_seq(b, i5, t.indexes);
}

// ---------------------------------------------------------------------------
// appending an item appends its encoding
// ---------------------------------------------------------------------------

pub proof fn lemma_enc_field_seq_push(fs: Seq<FieldView>, f: FieldView)
    ensures
        enc_field_seq(fs.push(f)) == enc_field_seq(fs) + enc_field(f),
    decreases fs.len(),
{
    if fs.len() == 0 {
        assert(fs.push(f)[0] == f);
        assert(fs.push(f).drop_first() =~= Seq::<FieldView>::empty());
        assert(enc_field_seq(fs) + enc_field(f) =~= enc_field(f));
        assert(enc_field(f) + enc_field_seq(Seq::empty()) =~= enc_field(f));
    } else {
        assert(fs.push(f).drop_first() =~= fs.drop_first().push(f));
        assert(fs.push(f)[0] == fs[0]);
        lemma_enc_field_seq_push(fs.drop_first(), f);
        assert(enc_field(fs[0]) + (enc_field_seq(fs.drop_first()) + enc_field(f)) =~= (enc_field(
            fs[0],
        ) + enc_field_seq(fs.drop_first())) + enc_field(f));
    }
}

pub proof fn lemma_enc_str_seq_push(ss: Seq<Seq<char>>, s: Seq<char>)
    ensures
        enc_str_seq(ss.push(s)) == enc_str_seq(ss) + enc_str(s),
    decreases ss.len(),
{
    if ss.len() == 0 {
        assert(ss.push(s)[0] == s);
        assert(ss.push(s).drop_first() =~= Seq::<Seq<char>>::empty());
        assert(enc_str_seq(ss) + enc_str(s) =~= enc_str(s));
        assert(enc_str(s) + enc_str_seq(Seq::empty()) =~= enc_str(s));
    } else {
        assert(ss.push(s).drop_first() =~= ss.drop_first().push(s));
        assert(ss.push(s)[0] == ss[0]);
        lemma_enc_str_seq_push(ss.drop_first(), s);
        assert(enc_str(ss[0]) + (enc_str_seq(ss.drop_first()) + enc_str(s)) =~= (enc_str(ss[0])
            + enc_str_seq(ss.drop_first())) + enc_str(s));
    }
}

pub proof fn lemma_enc_index_seq_push(ixs: Seq<IndexView>, ix: IndexView)
    ensures
        enc_index_seq(ixs.push(ix)) == enc_index_seq(ixs) + enc_index(ix),
    decreases ixs.len(),
{
    if ixs.len() == 0 {
        assert(ixs.push(ix)[0] == ix);
        assert(ixs.push(ix).drop_first() =~= Seq::<IndexView>::empty());
        assert(enc_index_seq(ixs) + enc_index(ix) =~= enc_index(ix));
        assert(enc_index(ix) + enc_index_seq(Seq::empty()) =~= enc_index(ix));
    } else {
        assert(ixs.push(ix).drop_first() =~= ixs.drop_first().push(ix));
        assert(ixs.push(ix)[0] == ixs[0]);
        lemma_enc_index_seq_push(ixs.drop_first(), ix);
        assert(enc_index(ixs[0]) + (enc_index_seq(ixs.drop_first()) + enc_index(ix)) =~= (
        enc_index(ixs[0]) + enc_index_seq(ixs.drop_first())) + enc_index(ix));
    }
}

// ---------------------------------------------------------------------------
// executable codec
// ---------------------------------------------------------------------------

fn write_field(out: &mut Vec<u8>, f: &Field)
    ensures
        final(out)@ == old(out)@ + enc_field(f@),
{
    write_str(out, f.name.as_str());
    let tag: u8 = match f.field_type {
        FieldType::String => 1,
        FieldType::Int => 2,
        FieldType::Float => 3,
        FieldType::Bool => 4,
        FieldType::Bytes => 5,
    };
    let ghost o1 = out@;
    out.push(tag);
    proof {
        assert(out@ =~= o1 + enc_field_type(f@.field_type));
        lemma_concat_assoc2(old(out)@, enc_str(f@.name), enc_field_type(f@.field_type));
    }
}

fn write_field_seq(out: &mut Vec<u8>, fs: &Vec<Field>)
    ensures
        final(out)@ == old(out)@ + enc_field_seq(fs.deep_view()),
{
    let n = fs.len();
    let mut i: usize = 0;
    while i < n
        invariant
            0 <= i <= n,
            n == fs.len(),
            out@ == old(out)@ + enc_field_seq(fs.deep_view().take(i as int)),
        decreases n - i,
    {
        write_field(out, &fs[i]);
        proof {
            assert(fs.deep_view().take(i + 1) =~= fs.deep_view().take(i as int).push(
                fs.deep_view()[i as int],
            ));
            lemma_enc_field_seq_push(fs.deep_view().take(i as int), fs.deep_view()[i as int]);
            assert(out@ =~= old(out)@ + enc_field_seq(fs.deep_view().take(i + 1)));
        }
        i = i + 1;
    }
    proof {
        assert(fs.deep_view().take(n as int) =~= fs.deep_view());
    }
}

fn write_str_list(out: &mut Vec<u8>, ss: &Vec<String>)
    ensures
        final(out)@ == old(out)@ + enc_strs(ss.deep_view()),
{
    let n = ss.len();
    write_u64(out, n as u64);
    let ghost prefix = out@;
    let mut i: usize = 0;
    while i < n
        invariant
            0 <= i <= n,
            n == ss.len(),
            out@ == prefix + enc_str_seq(ss.deep_view().take(i as int)),
        decreases n - i,
    {
        write_str(out, ss[i].as_str());
        proof {
            assert(ss.deep_view().take(i + 1) =~= ss.deep_view().take(i as int).push(
                ss.deep_view()[i as int],
            ));
            lemma_enc_str_seq_push(ss.deep_view().take(i as int), ss.deep_view()[i as int]);
            assert(out@ =~= prefix + enc_str_seq(ss.deep_view().take(i + 1)));
        }
        i = i + 1;
    }
    proof {
        assert(ss.deep_view().take(n as int) =~= ss.deep_view());
        lemma_concat_assoc2(
            old(out)@,
            enc_u64(ss.deep_view().len() as u64),
            enc_str_seq(ss.deep_view()),
        );
    }
}

fn write_index(out: &mut Vec<u8>, ix: &Index)
    ensures
        final(out)@ == old(out)@ + enc_index(ix@),
{
    write_str(out, ix.name());
    write_str_list(out, ix.fields());
    proof {
        lemma_concat_assoc2(old(out)@, enc_str(ix@.name), enc_strs(ix@.fields));
    }
}

fn write_index_seq(out: &mut Vec<u8>, ixs: &Vec<Index>)
    ensures
        final(out)@ == old(out)@ + enc_index_seq(ixs.deep_view()),
{
    let n = ixs.len();
    let mut i: usize = 0;
    while i < n
        invariant
            0 <= i <= n,
            n == ixs.len(),
            out@ == old(out)@ + enc_index_seq(ixs.deep_view().take(i as int)),
        decreases n - i,
    {
        write_index(out, &ixs[i]);
        proof {
            assert(ixs.deep_view().take(i + 1) =~= ixs.deep_view().take(i as int).push(
                ixs.deep_view()[i as int],
            ));
            lemma_enc_index_seq_push(ixs.deep_view().take(i as int), ixs.deep_view()[i as int]);
            assert(out@ =~= old(out)@ + enc_index_seq(ixs.deep_view().take(i + 1)));
        }
        i = i + 1;
    }
    proof {
        assert(ixs.deep_view().take(n as int) =~= ixs.deep_view());
    }
}

fn read_field(b: &[u8], i: usize) -> (r: Option<(Field, usize)>)
    ensures
        match r {
            Some((f, j)) => dec_field(b@, i as int) == Some((f@, j as int)),
            None => dec_field(b@, i as int) is None,
        },
{
    let (name, j) = match read_str(b, i) {
        Some((name, j)) => (name, j),
        None => {
            return None;
        },
    };
    if j < b.len() {
        let tag = *vstd::slice::slice_index_get(b, j);
        let field_type = if tag == 1 {
            FieldType::String
        } else if tag == 2 {
            FieldType::Int
        } else if tag == 3 {
            FieldType::Float
        } else if tag == 4 {
            FieldType::Bool
        } else if tag == 5 {
            FieldType::Bytes
        } else {
            return None;
        };
        Some((Field { name, field_type }, j + 1))
    } else {
        None
    }
}

fn read_field_seq(b: &[u8], start: usize, n: u64) -> (r: Option<(Vec<Field>, usize)>)
    ensures
        match r {
            Some((v, j)) => dec_field_seq(b@, start as int, n as nat) == Some(
                (v.deep_view(), j as int),
            ),
            None => dec_field_seq(b@, start as int, n as nat) is None,
        },
{
    let mut acc: Vec<Field> = Vec::new();
    let mut done: u64 = 0;
    let mut cur: usize = start;
    proof {
        match dec_field_seq(b@, start as int, n as nat) {
            Some((fs, k)) => {
                assert(acc.deep_view() + fs =~= fs);
            },
            None => {},
        }
    }
    while done < n
        invariant
            done <= n,
            dec_field_seq(b@, start as int, n as nat) == (match dec_field_seq(
                b@,
                cur as int,
                (n - done) as nat,
            ) {
                Some((fs, k)) => Some((acc.deep_view() + fs, k)),
                None => None::<(Seq<FieldView>, int)>,
            }),
        decreases n - done,
    {
        let ghost prev = acc.deep_view();
        match read_field(b, cur) {
            Some((f, k)) => {
                let ghost fv = f@;
                acc.push(f);
                proof {
                    assert(acc.deep_view() =~= prev.push(fv));
                    match dec_field_seq(b@, k as int, ((n - done) - 1) as nat) {
                        Some((fs2, k2)) => {
                            assert(prev + (seq![fv] + fs2) =~= prev.push(fv) + fs2);
                        },
                        None => {},
                    }
                }
                cur = k;
            },
            None => {
                return None;
            },
        }
        done = done + 1;
    }
    proof {
        assert(acc.deep_view() + Seq::<FieldView>::empty() =~= acc.deep_view());
    }
    Some((acc, cur))
}

fn read_str_list(b: &[u8], start: usize) -> (r: Option<(Vec<String>, usize)>)
    ensures
        match r {
            Some((v, j)) => dec_strs(b@, start as int) == Some((v.deep_view(), j as int)),
            None => dec_strs(b@, start as int) is None,
        },
{
    let (n, first) = match read_u64(b, start) {
        Some((n, j)) => (n, j),
        None => {
            return None;
        },
    };
    let mut acc: Vec<String> = Vec::new();
    let mut done: u64 = 0;
    let mut cur: usize = first;
    proof {
        match dec_str_seq(b@, first as int, n as nat) {
            Some((ss, k)) => {
                assert(acc.deep_view() + ss =~= ss);
            },
            None => {},
        }
    }
    while done < n
        invariant
            done <= n,
            dec_u64(b@, start as int) == Some((n, first as int)),
            dec_str_seq(b@, first as int, n as nat) == (match dec_str_seq(
                b@,
                cur as int,
                (n - done) as nat,
            ) {
                Some((ss, k)) => Some((acc.deep_view() + ss, k)),
                None => None::<(Seq<Seq<char>>, int)>,
            }),
        decreases n - done,
    {
        let ghost prev = acc.deep_view();
        match read_str(b, cur) {
            Some((s, k)) => {
                let ghost sv = s@;
                acc.push(s);
                proof {
                    assert(acc.deep_view() =~= prev.push(sv));
                    match dec_str_seq(b@, k as int, ((n - done) - 1) as nat) {
                        Some((ss2, k2)) => {
                            assert(prev + (seq![sv] + ss2) =~= prev.push(sv) + ss2);
                        },
                        None => {},
                    }
                }
                cur = k;
            },
            None => {
                return None;
            },
        }
        done = done + 1;
    }
    proof {
        assert(acc.deep_view() + Seq::<Seq<char>>::empty() =~= acc.deep_view());
    }
    Some((acc, cur))
}

fn read_index(b: &[u8], i: usize) -> (r: Option<(Index, usize)>)
    ensures
        match r {
            Some((ix, j)) => dec_index(b@, i as int) == Some((ix@, j as int)),
            None => dec_index(b@, i as int) is None,
        },
{
    let (name, j) = match read_str(b, i) {
        Some((name, j)) => (name, j),
        None => {
            return None;
        },
    };
    let (fields, k) = match read_str_list(b, j) {
        Some((fields, k)) => (fields, k),
        None => {
            return None;
        },
    };
    Some((Index::new(name, fields), k))
}

fn read_index_seq(b: &[u8], start: usize, n: u64) -> (r: Option<(Vec<Index>, usize)>)
    ensures
        match r {
            Some((v, j)) => dec_index_seq(b@, start as int, n as nat) == Some(
                (v.deep_view(), j as int),
            ),
            None => dec_index_seq(b@, start as int, n as nat) is None,
        },
{
    let mut acc: Vec<Index> = Vec::new();
    let mut done: u64 = 0;
    let mut cur: usize = start;
    proof {
        match dec_index_seq(b@, start as int, n as nat) {
            Some((ixs, k)) => {
                assert(acc.deep_view() + ixs =~= ixs);
            },
            None => {},
        }
    }
    while done < n
        invariant
            done <= n,
            dec_index_seq(b@, start as int, n as nat) == (match dec_index_seq(
                b@,
                cur as int,
                (n - done) as nat,
            ) {
                Some((ixs, k)) => Some((acc.deep_view() + ixs, k)),
                None => None::<(Seq<IndexView>, int)>,
            }),
        decreases n - done,
    {
        let ghost prev = acc.deep_view();
        match read_index(b, cur) {
            Some((ix, k)) => {
                let ghost iv = ix@;
                acc.push(ix);
                proof {
                    assert(acc.deep_view() =~= prev.push(iv));
                    match dec_index_seq(b@, k as int, ((n - done) - 1) as nat) {
                        Some((ixs2, k2)) => {
                            assert(prev + (seq![iv] + ixs2) =~= prev.push(iv) + ixs2);
                        },
                        None => {},
                    }
                }
                cur = k;
            },
            None => {
                return None;
            },
        }
        done = done + 1;
    }
    proof {
        assert(acc.deep_view() + Seq::<IndexView>::empty() =~= acc.deep_view());
    }
    Some((acc, cur))
}

impl Table {
    /// Serializes the schema: the name, the fields, the primary-key names,
    /// and the indexes.
    pub fn to_bytes(&self) -> (r: Result<Vec<u8>, SqlLayerError>)
        ensures
            r matches Ok(v) && v@ == enc_table(self@),
    {
        let mut out: Vec<u8> = Vec::new();
        write_str(&mut out, self.name.as_str());
        write_u64(&mut out, self.fields.len() as u64);
        write_field_seq(&mut out, &self.fields);
        write_str_list(&mut out, &self.primary_key);
        write_u64(&mut out, self.indexes.len() as u64);
        write_index_seq(&mut out, &self.indexes);
        proof {
            lemma_concat_assoc6(
                Seq::<u8>::empty(),
                enc_str(self@.name),
                enc_u64(self@.fields.len() as u64),
                enc_field_seq(self@.fields),
                enc_strs(self@.primary_key),
                enc_u64(self@.indexes.len() as u64),
                enc_index_seq(self@.indexes),
            );
            assert(Seq::<u8>::empty() + enc_table(self@) =~= enc_table(self@));
        }
        Ok(out)
    }

    /// Deserializes a schema, failing on any input that is not exactly one
    /// encoded schema.
    pub fn from_bytes(bytes: &[u8]) -> (r: Result<Self, SqlLayerError>)
        ensures
            match dec_table(bytes@, 0) {
                Some((tv, n)) => if n == bytes@.len() {
                    r matches Ok(t) && t@ == tv
                } else {
                    r == Err::<Self, SqlLayerError>(SqlLayerError::SerializationFailure)
                },
                None => r == Err::<Self, SqlLayerError>(SqlLayerError::SerializationFailure),
            },
    {
        let (name, i1) = match read_str(bytes, 0) {
            Some(x) => x,
            None => {
                return Err(SqlLayerError::SerializationFailure);
            },
        };
        let (nf, i2) = match read_u64(bytes, i1) {
            Some(x) => x,
            None => {
                return Err(SqlLayerError::SerializationFailure);
            },
        };
        let (fields, i3) = match read_field_seq(bytes, i2, nf) {
            Some(x) => x,
            None => {
                return Err(SqlLayerError::SerializationFailure);
            },
        };
        let (primary_key, i4) = match read_str_list(bytes, i3) {
            Some(x) => x,
            None => {
                return Err(SqlLayerError::SerializationFailure);
            },
        };
        let (ni, i5) = match read_u64(bytes, i4) {
            Some(x) => x,
            None => {
                return Err(SqlLayerError::SerializationFailure);
            },
        };
        let (indexes, i6) = match read_index_seq(bytes, i5, ni) {
            Some(x) => x,
            None => {
                return Err(SqlLayerError::SerializationFailure);
            },
        };
        if i6 == bytes.len() {
            Ok(Self { name, fields, primary_key, indexes })
        } else {
            Err(SqlLayerError::SerializationFailure)
        }
    }
}

} // verus!
