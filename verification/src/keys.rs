//! The key-space layout: every key the layer writes is the root prefix, a
//! data-prefix tag packed as an integer element of the KV engine's ordered
//! tuple codec, the table name packed as a string element, and further
//! discriminators packed as elements. The element encodings are stated here
//! byte for byte, so that the layout's collision freedom can be proved;
//! the packing itself is done by the tuple codec.

use vstd::prelude::*;
use vstd::utf8::{decode_utf8, encode_utf8};

use crate::record::{Column, ColumnView};

verus! {

/// The data-prefix tag of table schema keys.
pub const TAG_TABLE: u64 = 1;

/// The data-prefix tag of table metadata keys.
pub const TAG_TABLE_META: u64 = 2;

/// The data-prefix tag of row payload keys.
pub const TAG_ROW: u64 = 3;

/// The data-prefix tag of primary-key index keys.
pub const TAG_PRIMARY_KEY: u64 = 4;

/// The data-prefix tag of secondary-index keys.
pub const TAG_INDEX: u64 = 5;

/// The cap this layer places on one string's or byte string's UTF-8 form in
/// a key, so that the tuple codec's own 32-bit size counter cannot overflow.
pub const MAX_KEY_PART: usize = 0x4000_0000;

// ---------------------------------------------------------------------------
// the tuple codec's element encodings, byte for byte
// ---------------------------------------------------------------------------

pub open spec fn pow256(n: nat) -> nat
    decreases n,
{
    if n == 0 {
        1
    } else {
        256 * pow256((n - 1) as nat)
    }
}

/// The number of bytes in the shortest big-endian form of `v`: zero for
/// zero, else one more than for `v / 256`.
pub open spec fn int_byte_len(v: nat) -> nat
    decreases v,
{
    if v == 0 {
        0nat
    } else {
        1 + int_byte_len(v / 256)
    }
}

/// The `n` low-order base-256 digits of `v`, most significant first.
pub open spec fn be_bytes(v: nat, n: nat) -> Seq<u8>
    decreases n,
{
    if n == 0 {
        Seq::empty()
    } else {
        be_bytes(v / 256, (n - 1) as nat) + seq![(v % 256) as u8]
    }
}

/// An unsigned integer element: code `0x14 + n`, then the `n`-byte
/// big-endian magnitude.
pub open spec fn elem_u64(v: u64) -> Seq<u8> {
    seq![(0x14 + int_byte_len(v as nat)) as u8] + be_bytes(v as nat, int_byte_len(v as nat))
}

/// A signed integer element: non-negative as an unsigned element; negative
/// with code `0x14 - n` and the low `n` bytes of `v - 1` in two's
/// complement, big endian.
pub open spec fn elem_i64(v: i64) -> Seq<u8> {
    if v >= 0 {
        seq![(0x14 + int_byte_len(v as nat)) as u8] + be_bytes(v as nat, int_byte_len(v as nat))
    } else {
        let n = int_byte_len((-(v as int)) as nat);
        seq![(0x14 - n) as u8] + be_bytes((v as int - 1 + pow256(n)) as nat, n)
    }
}

/// Byte-string content with each 0x00 byte escaped as 0x00 0xFF.
pub open spec fn escape_nil(b: Seq<u8>) -> Seq<u8>
    decreases b.len(),
{
    if b.len() == 0 {
        Seq::empty()
    } else if b[0] == 0 {
        seq![0u8, 0xffu8] + escape_nil(b.drop_first())
    } else {
        seq![b[0]] + escape_nil(b.drop_first())
    }
}

/// A string element: code 0x02, the escaped UTF-8 bytes, a 0x00 terminator.
pub open spec fn elem_str(s: Seq<char>) -> Seq<u8> {
    seq![2u8] + escape_nil(encode_utf8(s)) + seq![0u8]
}

/// A byte-string element: code 0x01, the escaped bytes, a 0x00 terminator.
pub open spec fn elem_bytes(b: Seq<u8>) -> Seq<u8> {
    seq![1u8] + escape_nil(b) + seq![0u8]
}

/// A boolean element: 0x26 for false, 0x27 for true.
pub open spec fn elem_bool(b: bool) -> Seq<u8> {
    seq![if b { 0x27u8 } else { 0x26u8 }]
}

/// A null element inside a tuple: the nested-tuple code and its terminator.
pub open spec fn elem_null() -> Seq<u8> {
    seq![5u8, 0u8]
}

/// The tuple codec's order-preserving transform of an IEEE-754 binary64 bit
/// pattern: a negative number has all bits flipped, any other has the sign
/// bit set.
pub open spec fn double_transform(bits: u64) -> u64 {
    if bits >= 0x8000000000000000 {
        (0xffffffffffffffff - bits) as u64
    } else {
        (bits + 0x8000000000000000) as u64
    }
}

/// A binary64 element: code 0x21, then the transformed bits, big endian.
pub open spec fn elem_double_bits(bits: u64) -> Seq<u8> {
    let t = double_transform(bits);
    seq![
        0x21u8,
        (t / 0x100000000000000 % 0x100) as u8,
        (t / 0x1000000000000 % 0x100) as u8,
        (t / 0x10000000000 % 0x100) as u8,
        (t / 0x100000000 % 0x100) as u8,
        (t / 0x1000000 % 0x100) as u8,
        (t / 0x10000 % 0x100) as u8,
        (t / 0x100 % 0x100) as u8,
        (t % 0x100) as u8,
    ]
}

/// The element a column value packs as inside a key tuple.
pub open spec fn column_elem(c: ColumnView) -> Seq<u8> {
    match c {
        ColumnView::String(s) => elem_str(s),
        ColumnView::Int(i) => elem_i64(i),
        ColumnView::Float(bits) => elem_double_bits(bits),
        ColumnView::Bool(b) => elem_bool(b),
        ColumnView::Bytes(v) => elem_bytes(v),
        ColumnView::Null => elem_null(),
    }
}

/// The packing of an ordered column tuple: the elements, one after another.
pub open spec fn columns_elems(cs: Seq<ColumnView>) -> Seq<u8>
    decreases cs.len(),
{
    if cs.len() == 0 {
        Seq::empty()
    } else {
        column_elem(cs[0]) + columns_elems(cs.drop_first())
    }
}

// ---------------------------------------------------------------------------
// the keys of the five regions
// ---------------------------------------------------------------------------

pub open spec fn table_key_spec(root: Seq<u8>, name: Seq<char>) -> Seq<u8> {
    root + elem_u64(TAG_TABLE) + elem_str(name)
}

pub open spec fn table_meta_key_spec(root: Seq<u8>, name: Seq<char>) -> Seq<u8> {
    root + elem_u64(TAG_TABLE_META) + elem_str(name)
}

pub open spec fn row_key_spec(root: Seq<u8>, name: Seq<char>, row_id: i64) -> Seq<u8> {
    root + elem_u64(TAG_ROW) + elem_str(name) + elem_i64(row_id)
}

pub open spec fn pk_key_spec(root: Seq<u8>, name: Seq<char>, pk: Seq<ColumnView>) -> Seq<u8> {
    root + elem_u64(TAG_PRIMARY_KEY) + elem_str(name) + columns_elems(pk)
}

pub open spec fn index_key_spec(root: Seq<u8>, name: Seq<char>, cols: Seq<ColumnView>) -> Seq<u8> {
    root + elem_u64(TAG_INDEX) + elem_str(name) + columns_elems(cols)
}

/// True when a column value may stand in a key tuple without overflowing
/// the tuple codec's size counter.
pub open spec fn column_packable(c: ColumnView) -> bool {
    match c {
        ColumnView::String(s) => encode_utf8(s).len() < MAX_KEY_PART as nat,
        ColumnView::Bytes(v) => v.len() < MAX_KEY_PART as nat,
        _ => true,
    }
}

pub open spec fn name_packable(s: Seq<char>) -> bool {
    encode_utf8(s).len() < MAX_KEY_PART as nat
}

// ---------------------------------------------------------------------------
// trusted packing: the calls into the tuple codec
// ---------------------------------------------------------------------------

/// Relies on `foundationdb_tuple::pack` for `u64`: the code byte
/// `0x14 + n`, then the `n`-byte big-endian magnitude.
#[verifier::external_body]
fn pack_u64_elem(v: u64) -> (r: Vec<u8>)
    ensures
        r@ == elem_u64(v),
{
    foundationdb_tuple::pack(&v)
}

/// Relies on `foundationdb_tuple::pack` for `i64`: a non-negative value as
/// a `u64`; a negative one with code `0x14 - n` and the low `n` bytes of
/// `v - 1` in two's complement.
#[verifier::external_body]
fn pack_i64_elem(v: i64) -> (r: Vec<u8>)
    ensures
        r@ == elem_i64(v),
{
    foundationdb_tuple::pack(&v)
}

/// Relies on `foundationdb_tuple::pack` for `&str`: code 0x02, the UTF-8
/// bytes with each 0x00 escaped as 0x00 0xFF, a 0x00 terminator. The bound
/// keeps the codec's 32-bit size counter from overflowing, on which it
/// panics.
#[verifier::external_body]
fn pack_str_elem(s: &String) -> (r: Vec<u8>)
    requires
        encode_utf8(s@).len() < MAX_KEY_PART as nat,
    ensures
        r@ == elem_str(s@),
{
    foundationdb_tuple::pack(&s.as_str())
}

/// Relies on `foundationdb_tuple::pack` for `Vec<u8>`: code 0x01, the
/// bytes with each 0x00 escaped as 0x00 0xFF, a 0x00 terminator. The bound
/// keeps the codec's 32-bit size counter from overflowing, on which it
/// panics.
#[verifier::external_body]
fn pack_bytes_elem(v: &Vec<u8>) -> (r: Vec<u8>)
    requires
        v@.len() < MAX_KEY_PART as nat,
    ensures
        r@ == elem_bytes(v@),
{
    foundationdb_tuple::pack(v)
}

/// Relies on `foundationdb_tuple::unpack` for `i64`: on the exact element
/// encoding of a value it returns that value; on any other input it returns
/// whatever the codec decodes, or nothing.
#[verifier::external_body]
pub(crate) fn unpack_i64_elem(b: &[u8]) -> (r: Option<i64>)
    ensures
        forall|v: i64| b@ == elem_i64(v) ==> r == Some(v),
{
    foundationdb_tuple::unpack::<i64>(b).ok()
}

/// The boolean element, written out by this layer itself: the tuple
/// codec's one constant byte per value, 0x26 for false and 0x27 for true.
fn pack_bool_elem(v: bool) -> (r: Vec<u8>)
    ensures
        r@ == elem_bool(v),
{
    let mut r: Vec<u8> = Vec::new();
    if v {
        r.push(0x27);
    } else {
        r.push(0x26);
    }
    proof {
        assert(r@ =~= elem_bool(v));
    }
    r
}

/// The binary64 element from the bit pattern, written out by this layer
/// itself: byte for byte the tuple codec's double element, so packed keys
/// interoperate, while the layer's logic stays on plain values.
pub fn pack_double_bits_elem(bits: u64) -> (r: Vec<u8>)
    ensures
        r@ == elem_double_bits(bits),
{
    let t: u64 = if bits >= 0x8000000000000000 {
        0xffffffffffffffff - bits
    } else {
        bits + 0x8000000000000000
    };
    let mut r: Vec<u8> = Vec::new();
    r.push(0x21);
    r.push((t / 0x100000000000000 % 0x100) as u8);
    r.push((t / 0x1000000000000 % 0x100) as u8);
    r.push((t / 0x10000000000 % 0x100) as u8);
    r.push((t / 0x100000000 % 0x100) as u8);
    r.push((t / 0x1000000 % 0x100) as u8);
    r.push((t / 0x10000 % 0x100) as u8);
    r.push((t / 0x100 % 0x100) as u8);
    r.push((t % 0x100) as u8);
    proof {
        assert(r@ =~= elem_double_bits(bits));
    }
    r
}

/// The null element inside a key tuple, written out by this layer itself:
/// the two constant bytes of an empty nested tuple.
pub fn pack_null_elem() -> (r: Vec<u8>)
    ensures
        r@ == elem_null(),
{
    let mut r: Vec<u8> = Vec::new();
    r.push(5);
    r.push(0);
    proof {
        assert(r@ =~= elem_null());
    }
    r
}

/// One column value as a key tuple element.
pub fn pack_column_elem(c: &Column) -> (r: Vec<u8>)
    requires
        column_packable(c@),
    ensures
        r@ == column_elem(c@),
{
    match c {
        Column::String(s) => pack_str_elem(s),
        Column::Int(i) => pack_i64_elem(*i),
        Column::Float(bits) => pack_double_bits_elem(*bits),
        Column::Bool(b) => pack_bool_elem(*b),
        Column::Bytes(v) => pack_bytes_elem(v),
        Column::Null => pack_null_elem(),
    }
}

/// A byte-for-byte copy of a key prefix.
fn clone_bytes(v: &Vec<u8>) -> (r: Vec<u8>)
    ensures
        r@ == v@,
{
    let r = v.clone();
    proof {
        assert forall|i: int| 0 <= i < r@.len() implies r@[i] == v@[i] by {
            assert(vstd::pervasive::cloned::<u8>(v@[i], r@[i]));
        }
        assert(r@ =~= v@);
    }
    r
}

/// The shared shape of every key: the root prefix, the tag element, the
/// table name element.
fn prefixed_key(root: &Vec<u8>, tag: u64, name: &String) -> (r: Vec<u8>)
    requires
        name_packable(name@),
    ensures
        r@ == root@ + elem_u64(tag) + elem_str(name@),
{
    let mut r = clone_bytes(root);
    let mut t = pack_u64_elem(tag);
    r.append(&mut t);
    let mut s = pack_str_elem(name);
    r.append(&mut s);
    r
}

/// The key a table's schema is stored under.
pub fn table_key(root: &Vec<u8>, name: &String) -> (r: Vec<u8>)
    requires
        name_packable(name@),
    ensures
        r@ == table_key_spec(root@, name@),
{
    prefixed_key(root, TAG_TABLE, name)
}

/// The key a table's metadata is stored under.
pub fn table_meta_key(root: &Vec<u8>, name: &String) -> (r: Vec<u8>)
    requires
        name_packable(name@),
    ensures
        r@ == table_meta_key_spec(root@, name@),
{
    prefixed_key(root, TAG_TABLE_META, name)
}

/// The key a row payload is stored under.
pub fn row_key(root: &Vec<u8>, name: &String, row_id: i64) -> (r: Vec<u8>)
    requires
        name_packable(name@),
    ensures
        r@ == row_key_spec(root@, name@, row_id),
{
    let mut r = prefixed_key(root, TAG_ROW, name);
    let mut id = pack_i64_elem(row_id);
    r.append(&mut id);
    r
}

/// The packed form of an ordered column tuple.
pub fn pack_columns(cols: &Vec<Column>) -> (r: Vec<u8>)
    requires
        forall|i: int| 0 <= i < cols@.len() ==> column_packable((#[trigger] cols@[i])@),
    ensures
        r@ == columns_elems(cols.deep_view()),
{
    let mut r: Vec<u8> = Vec::new();
    let n = cols.len();
    let mut i: usize = 0;
    while i < n
        invariant
            0 <= i <= n,
            n == cols.len(),
            forall|k: int| 0 <= k < cols@.len() ==> column_packable((#[trigger] cols@[k])@),
            r@ == columns_elems(cols.deep_view().take(i as int)),
        decreases n - i,
    {
        let mut e = pack_column_elem(&cols[i]);
        r.append(&mut e);
        proof {
            assert(cols.deep_view().take(i + 1) =~= cols.deep_view().take(i as int).push(
                cols.deep_view()[i as int],
            ));
            lemma_columns_elems_push(cols.deep_view().take(i as int), cols.deep_view()[i as int]);
        }
        i = i + 1;
    }
    proof {
        assert(cols.deep_view().take(n as int) =~= cols.deep_view());
    }
    r
}

/// The key a record's primary-key index entry is stored under.
pub fn pk_key(root: &Vec<u8>, name: &String, pk: &Vec<Column>) -> (r: Vec<u8>)
    requires
        name_packable(name@),
        forall|i: int| 0 <= i < pk@.len() ==> column_packable((#[trigger] pk@[i])@),
    ensures
        r@ == pk_key_spec(root@, name@, pk.deep_view()),
{
    let mut r = prefixed_key(root, TAG_PRIMARY_KEY, name);
    let mut cols = pack_columns(pk);
    r.append(&mut cols);
    r
}

/// The key a record's entry in one secondary index is stored under.
pub fn index_key(root: &Vec<u8>, name: &String, cols: &Vec<Column>) -> (r: Vec<u8>)
    requires
        name_packable(name@),
        forall|i: int| 0 <= i < cols@.len() ==> column_packable((#[trigger] cols@[i])@),
    ensures
        r@ == index_key_spec(root@, name@, cols.deep_view()),
{
    let mut r = prefixed_key(root, TAG_INDEX, name);
    let mut packed = pack_columns(cols);
    r.append(&mut packed);
    r
}

/// The packed row-id value stored under primary-key and index entries.
pub fn row_id_value(row_id: i64) -> (r: Vec<u8>)
    ensures
        r@ == elem_i64(row_id),
{
    pack_i64_elem(row_id)
}

// ---------------------------------------------------------------------------
// why the layout cannot collide
// ---------------------------------------------------------------------------

pub proof fn lemma_pow256_pos(n: nat)
    ensures
        pow256(n) >= 1,
    decreases n,
{
    if n > 0 {
        lemma_pow256_pos((n - 1) as nat);
    }
}

/// A value is below the power its byte length names.
pub proof fn lemma_ibl_bound(v: nat)
    ensures
        v < pow256(int_byte_len(v)),
    decreases v,
{
    if v == 0 {
    } else {
        lemma_ibl_bound(v / 256);
        let k = int_byte_len(v / 256);
        assert(v < 256 * pow256(k)) by (nonlinear_arith)
            requires
                v / 256 < pow256(k),
                pow256(k) >= 1,
                v >= 0,
        {
        }
        assert(pow256(k + 1) == 256 * pow256(k));
    }
}

/// A value below a power has a byte length at most that power's index.
pub proof fn lemma_ibl_le(v: nat, n: nat)
    requires
        v < pow256(n),
    ensures
        int_byte_len(v) <= n,
    decreases n,
{
    if v == 0 {
    } else {
        if n == 0 {
            assert(pow256(0nat) == 1);
        } else {
            assert(v / 256 < pow256((n - 1) as nat)) by (nonlinear_arith)
                requires
                    v < pow256(n),
                    pow256(n) == 256 * pow256((n - 1) as nat),
                    v >= 1,
            {
            }
            lemma_ibl_le(v / 256, (n - 1) as nat);
        }
    }
}

pub proof fn lemma_be_bytes_len(v: nat, n: nat)
    ensures
        be_bytes(v, n).len() == n,
    decreases n,
{
    if n > 0 {
        lemma_be_bytes_len(v / 256, (n - 1) as nat);
    }
}

/// Big-endian bytes of fixed width are injective on values of that width.
pub proof fn lemma_be_bytes_inj(v1: nat, v2: nat, n: nat)
    requires
        v1 < pow256(n),
        v2 < pow256(n),
        be_bytes(v1, n) == be_bytes(v2, n),
    ensures
        v1 == v2,
    decreases n,
{
    if n == 0 {
        assert(pow256(0nat) == 1);
    } else {
        let m = (n - 1) as nat;
        lemma_be_bytes_len(v1 / 256, m);
        lemma_be_bytes_len(v2 / 256, m);
        let s1 = be_bytes(v1, n);
        let s2 = be_bytes(v2, n);
        assert(s1[n - 1] == (v1 % 256) as u8);
        assert(s2[n - 1] == (v2 % 256) as u8);
        assert(v1 % 256 == v2 % 256);
        assert(be_bytes(v1 / 256, m) =~= s1.subrange(0, m as int));
        assert(be_bytes(v2 / 256, m) =~= s2.subrange(0, m as int));
        assert(v1 / 256 < pow256(m)) by (nonlinear_arith)
            requires
                v1 < pow256(n),
                pow256(n) == 256 * pow256(m),
        {
        }
        assert(v2 / 256 < pow256(m)) by (nonlinear_arith)
            requires
                v2 < pow256(n),
                pow256(n) == 256 * pow256(m),
        {
        }
        lemma_be_bytes_inj(v1 / 256, v2 / 256, m);
        vstd::arithmetic::div_mod::lemma_fundamental_div_mod(v1 as int, 256);
        vstd::arithmetic::div_mod::lemma_fundamental_div_mod(v2 as int, 256);
    }
}

/// The signed element encoding is injective: distinct row ids pack to
/// distinct values, so distinct row ids occupy distinct row keys.
pub proof fn lemma_elem_i64_inj(a: i64, b: i64)
    requires
        elem_i64(a) == elem_i64(b),
    ensures
        a == b,
{
    assert(pow256(0nat) == 1);
    assert(pow256(1nat) == 0x100);
    assert(pow256(2nat) == 0x10000);
    assert(pow256(3nat) == 0x1000000);
    assert(pow256(4nat) == 0x100000000);
    assert(pow256(5nat) == 0x10000000000);
    assert(pow256(6nat) == 0x1000000000000);
    assert(pow256(7nat) == 0x100000000000000);
    assert(pow256(8nat) == 0x10000000000000000);
    if a >= 0 && b >= 0 {
        let na = int_byte_len(a as nat);
        let nb = int_byte_len(b as nat);
        lemma_ibl_le(a as nat, 8);
        lemma_ibl_le(b as nat, 8);
        lemma_be_bytes_len(a as nat, na);
        lemma_be_bytes_len(b as nat, nb);
        assert(elem_i64(a)[0] == (0x14 + na) as u8);
        assert(elem_i64(b)[0] == (0x14 + nb) as u8);
        assert(na == nb);
        assert(be_bytes(a as nat, na) =~= elem_i64(a).subrange(1, 1 + na as int));
        assert(be_bytes(b as nat, nb) =~= elem_i64(b).subrange(1, 1 + nb as int));
        lemma_ibl_bound(a as nat);
        lemma_ibl_bound(b as nat);
        lemma_be_bytes_inj(a as nat, b as nat, na);
    } else if a < 0 && b < 0 {
        let ma = (-(a as int)) as nat;
        let mb = (-(b as int)) as nat;
        let na = int_byte_len(ma);
        let nb = int_byte_len(mb);
        lemma_ibl_le(ma, 8);
        lemma_ibl_le(mb, 8);
        assert(na >= 1);
        assert(nb >= 1);
        lemma_be_bytes_len((a as int - 1 + pow256(na)) as nat, na);
        lemma_be_bytes_len((b as int - 1 + pow256(nb)) as nat, nb);
        assert(elem_i64(a)[0] == (0x14 - na) as u8);
        assert(elem_i64(b)[0] == (0x14 - nb) as u8);
        assert(na == nb);
        assert(be_bytes((a as int - 1 + pow256(na)) as nat, na) =~= elem_i64(a).subrange(
            1,
            1 + na as int,
        ));
        assert(be_bytes((b as int - 1 + pow256(nb)) as nat, nb) =~= elem_i64(b).subrange(
            1,
            1 + nb as int,
        ));
        lemma_ibl_bound(ma);
        lemma_ibl_bound(mb);
        lemma_pow256_pos(na);
        lemma_be_bytes_inj((a as int - 1 + pow256(na)) as nat, (b as int - 1 + pow256(nb)) as nat, na);
    } else {
        let pos = if a >= 0 { a } else { b };
        let neg = if a >= 0 { b } else { a };
        let np = int_byte_len(pos as nat);
        let mn = (-(neg as int)) as nat;
        let nn = int_byte_len(mn);
        lemma_ibl_le(pos as nat, 8);
        lemma_ibl_le(mn, 8);
        assert(nn >= 1);
        assert(elem_i64(pos)[0] == (0x14 + np) as u8);
        assert(elem_i64(neg)[0] == (0x14 - nn) as u8);
        assert(false);
    }
}

/// A small tag's integer element is its two concrete bytes.
pub proof fn lemma_elem_u64_small(t: u64)
    requires
        1 <= t <= 255,
    ensures
        elem_u64(t) == seq![0x15u8, t as u8],
{
    assert((t as nat) / 256 == 0);
    assert(int_byte_len(0nat) == 0);
    assert(int_byte_len(t as nat) == 1);
    assert(be_bytes((t as nat) / 256, 0nat) =~= Seq::<u8>::empty());
    assert(be_bytes(t as nat, 1) =~= seq![(t as nat % 256) as u8]);
    assert(t as nat % 256 == t as nat);
    assert(elem_u64(t) =~= seq![0x15u8, t as u8]);
}

/// Keys under distinct data-prefix tags are distinct, whatever follows the
/// tag: the byte after the root decides.
pub proof fn lemma_prefixed_keys_distinct(
    root: Seq<u8>,
    t1: u64,
    t2: u64,
    r1: Seq<u8>,
    r2: Seq<u8>,
)
    requires
        1 <= t1 <= 255,
        1 <= t2 <= 255,
        t1 != t2,
    ensures
        root + elem_u64(t1) + r1 != root + elem_u64(t2) + r2,
{
    lemma_elem_u64_small(t1);
    lemma_elem_u64_small(t2);
    let k1 = root + elem_u64(t1) + r1;
    let k2 = root + elem_u64(t2) + r2;
    assert(k1[root.len() as int + 1] == t1 as u8);
    assert(k2[root.len() as int + 1] == t2 as u8);
    assert(t1 as u8 != t2 as u8);
}

/// The escaped, terminated content of a byte-string or string element is
/// self-delimiting: two such elements followed by suffixes that do not
/// start with the escape byte agree only if contents and suffixes agree.
pub proof fn lemma_escape_prefix_free(a: Seq<u8>, b: Seq<u8>, x: Seq<u8>, y: Seq<u8>)
    requires
        x.len() == 0 || x[0] != 0xff,
        y.len() == 0 || y[0] != 0xff,
        escape_nil(a) + seq![0u8] + x == escape_nil(b) + seq![0u8] + y,
    ensures
        a == b,
        x == y,
    decreases a.len() + b.len(),
{
    let l = escape_nil(a) + seq![0u8] + x;
    let r = escape_nil(b) + seq![0u8] + y;
    if a.len() == 0 && b.len() == 0 {
        assert(escape_nil(a) =~= Seq::<u8>::empty());
        assert(escape_nil(b) =~= Seq::<u8>::empty());
        assert(x =~= l.subrange(1, l.len() as int));
        assert(y =~= r.subrange(1, r.len() as int));
        assert(a =~= b);
    } else if a.len() == 0 {
        assert(escape_nil(a) =~= Seq::<u8>::empty());
        assert(l[0] == 0u8);
        if b[0] == 0 {
            assert(escape_nil(b) =~= seq![0u8, 0xffu8] + escape_nil(b.drop_first()));
            assert(r.len() >= 3);
            assert(l.len() == 1 + x.len());
            assert(x.len() >= 2);
            assert(l[1] == x[0]);
            assert(r[1] == 0xffu8);
            assert(false);
        } else {
            assert(escape_nil(b) =~= seq![b[0]] + escape_nil(b.drop_first()));
            assert(r[0] == b[0]);
            assert(false);
        }
    } else if b.len() == 0 {
        assert(escape_nil(b) =~= Seq::<u8>::empty());
        assert(r[0] == 0u8);
        if a[0] == 0 {
            assert(escape_nil(a) =~= seq![0u8, 0xffu8] + escape_nil(a.drop_first()));
            assert(l.len() >= 3);
            assert(r.len() == 1 + y.len());
            assert(y.len() >= 2);
            assert(r[1] == y[0]);
            assert(l[1] == 0xffu8);
            assert(false);
        } else {
            assert(escape_nil(a) =~= seq![a[0]] + escape_nil(a.drop_first()));
            assert(l[0] == a[0]);
            assert(false);
        }
    } else if a[0] == 0 && b[0] == 0 {
        let la = escape_nil(a.drop_first()) + seq![0u8] + x;
        let lb = escape_nil(b.drop_first()) + seq![0u8] + y;
        assert(escape_nil(a) =~= seq![0u8, 0xffu8] + escape_nil(a.drop_first()));
        assert(escape_nil(b) =~= seq![0u8, 0xffu8] + escape_nil(b.drop_first()));
        assert(l =~= seq![0u8, 0xffu8] + la);
        assert(r =~= seq![0u8, 0xffu8] + lb);
        assert(la =~= l.subrange(2, l.len() as int));
        assert(lb =~= r.subrange(2, r.len() as int));
        lemma_escape_prefix_free(a.drop_first(), b.drop_first(), x, y);
        assert(a =~= seq![a[0]] + a.drop_first());
        assert(b =~= seq![b[0]] + b.drop_first());
    } else if a[0] != 0 && b[0] != 0 {
        let la = escape_nil(a.drop_first()) + seq![0u8] + x;
        let lb = escape_nil(b.drop_first()) + seq![0u8] + y;
        assert(escape_nil(a) =~= seq![a[0]] + escape_nil(a.drop_first()));
        assert(escape_nil(b) =~= seq![b[0]] + escape_nil(b.drop_first()));
        assert(l =~= seq![a[0]] + la);
        assert(r =~= seq![b[0]] + lb);
        assert(a[0] == l[0] && b[0] == r[0]);
        assert(la =~= l.subrange(1, l.len() as int));
        assert(lb =~= r.subrange(1, r.len() as int));
        lemma_escape_prefix_free(a.drop_first(), b.drop_first(), x, y);
        assert(a =~= seq![a[0]] + a.drop_first());
        assert(b =~= seq![b[0]] + b.drop_first());
    } else if a[0] == 0 {
        assert(escape_nil(a) =~= seq![0u8, 0xffu8] + escape_nil(a.drop_first()));
        assert(escape_nil(b) =~= seq![b[0]] + escape_nil(b.drop_first()));
        assert(l[0] == 0u8);
        assert(r[0] == b[0]);
        assert(false);
    } else {
        assert(escape_nil(a) =~= seq![a[0]] + escape_nil(a.drop_first()));
        assert(escape_nil(b) =~= seq![0u8, 0xffu8] + escape_nil(b.drop_first()));
        assert(l[0] == a[0]);
        assert(r[0] == 0u8);
        assert(false);
    }
}

/// A string element is self-delimiting, and distinct strings pack to
/// elements no common continuation can reconcile.
pub proof fn lemma_elem_str_prefix_free(s1: Seq<char>, s2: Seq<char>, x: Seq<u8>, y: Seq<u8>)
    requires
        x.len() == 0 || x[0] != 0xff,
        y.len() == 0 || y[0] != 0xff,
        elem_str(s1) + x == elem_str(s2) + y,
    ensures
        s1 == s2,
        x == y,
{
    let l = elem_str(s1) + x;
    let r = elem_str(s2) + y;
    assert(l =~= seq![2u8] + (escape_nil(encode_utf8(s1)) + seq![0u8] + x));
    assert(r =~= seq![2u8] + (escape_nil(encode_utf8(s2)) + seq![0u8] + y));
    assert(escape_nil(encode_utf8(s1)) + seq![0u8] + x =~= l.subrange(1, l.len() as int));
    assert(escape_nil(encode_utf8(s2)) + seq![0u8] + y =~= r.subrange(1, r.len() as int));
    lemma_escape_prefix_free(encode_utf8(s1), encode_utf8(s2), x, y);
    vstd::utf8::encode_utf8_decode_utf8(s1);
    vstd::utf8::encode_utf8_decode_utf8(s2);
}

/// Key-space disjointness: keys built for two distinct table names never
/// coincide, under equal or different data-prefix tags, whatever
/// discriminators follow the names, as long as each discriminator is empty
/// or starts below the escape byte — true of everything the layer appends,
/// whose first byte is an element code.
pub proof fn lemma_keyspace_disjoint(
    root: Seq<u8>,
    ta: u64,
    tb: u64,
    a: Seq<char>,
    b: Seq<char>,
    ra: Seq<u8>,
    rb: Seq<u8>,
)
    requires
        1 <= ta <= 255,
        1 <= tb <= 255,
        a != b,
        ra.len() == 0 || ra[0] != 0xff,
        rb.len() == 0 || rb[0] != 0xff,
    ensures
        root + elem_u64(ta) + elem_str(a) + ra != root + elem_u64(tb) + elem_str(b) + rb,
{
    let ka = root + elem_u64(ta) + elem_str(a) + ra;
    let kb = root + elem_u64(tb) + elem_str(b) + rb;
    if ta != tb {
        assert(ka =~= root + elem_u64(ta) + (elem_str(a) + ra));
        assert(kb =~= root + elem_u64(tb) + (elem_str(b) + rb));
        lemma_prefixed_keys_distinct(root, ta, tb, elem_str(a) + ra, elem_str(b) + rb);
    } else {
        lemma_elem_u64_small(ta);
        if ka == kb {
            let p = root + elem_u64(ta);
            assert(p.len() == root.len() + 2);
            assert(ka =~= p + (elem_str(a) + ra));
            assert(kb =~= p + (elem_str(b) + rb));
            assert(elem_str(a) + ra =~= ka.subrange(p.len() as int, ka.len() as int));
            assert(elem_str(b) + rb =~= kb.subrange(p.len() as int, kb.len() as int));
            lemma_elem_str_prefix_free(a, b, ra, rb);
            assert(false);
        }
    }
}

/// A byte-string element is self-delimiting, and distinct byte strings pack
/// to elements no common continuation can reconcile.
pub proof fn lemma_elem_bytes_prefix_free(b1: Seq<u8>, b2: Seq<u8>, x: Seq<u8>, y: Seq<u8>)
    requires
        x.len() == 0 || x[0] != 0xff,
        y.len() == 0 || y[0] != 0xff,
        elem_bytes(b1) + x == elem_bytes(b2) + y,
    ensures
        b1 == b2,
        x == y,
{
    let l = elem_bytes(b1) + x;
    let r = elem_bytes(b2) + y;
    assert(l =~= seq![1u8] + (escape_nil(b1) + seq![0u8] + x));
    assert(r =~= seq![1u8] + (escape_nil(b2) + seq![0u8] + y));
    assert(escape_nil(b1) + seq![0u8] + x =~= l.subrange(1, l.len() as int));
    assert(escape_nil(b2) + seq![0u8] + y =~= r.subrange(1, r.len() as int));
    lemma_escape_prefix_free(b1, b2, x, y);
}

/// Equal code bytes give signed integer elements of equal length.
proof fn lemma_elem_i64_len_from_code(a: i64, b: i64)
    requires
        elem_i64(a)[0] == elem_i64(b)[0],
    ensures
        elem_i64(a).len() == elem_i64(b).len(),
{
    assert(pow256(0nat) == 1);
    assert(pow256(1nat) == 0x100);
    assert(pow256(2nat) == 0x10000);
    assert(pow256(3nat) == 0x1000000);
    assert(pow256(4nat) == 0x100000000);
    assert(pow256(5nat) == 0x10000000000);
    assert(pow256(6nat) == 0x1000000000000);
    assert(pow256(7nat) == 0x100000000000000);
    assert(pow256(8nat) == 0x10000000000000000);
    let na = if a >= 0 {
        int_byte_len(a as nat)
    } else {
        int_byte_len((-(a as int)) as nat)
    };
    let nb = if b >= 0 {
        int_byte_len(b as nat)
    } else {
        int_byte_len((-(b as int)) as nat)
    };
    if a >= 0 {
        lemma_ibl_le(a as nat, 8);
        lemma_be_bytes_len(a as nat, na);
    } else {
        lemma_ibl_le((-(a as int)) as nat, 8);
        lemma_pow256_pos(na);
        lemma_be_bytes_len((a as int - 1 + pow256(na)) as nat, na);
    }
    if b >= 0 {
        lemma_ibl_le(b as nat, 8);
        lemma_be_bytes_len(b as nat, nb);
    } else {
        lemma_ibl_le((-(b as int)) as nat, 8);
        lemma_pow256_pos(nb);
        lemma_be_bytes_len((b as int - 1 + pow256(nb)) as nat, nb);
    }
    if a >= 0 && b >= 0 {
        assert((0x14 + na) as u8 == (0x14 + nb) as u8);
        assert(na == nb);
    } else if a < 0 && b < 0 {
        assert(na >= 1 && nb >= 1);
        assert((0x14 - na) as u8 == (0x14 - nb) as u8);
        assert(na == nb);
    } else {
        let np = if a >= 0 {
            na
        } else {
            nb
        };
        let nn = if a >= 0 {
            nb
        } else {
            na
        };
        assert(nn >= 1);
        assert((0x14 + np) as u8 != (0x14 - nn) as u8);
        assert(false);
    }
}

/// A signed integer element is self-delimiting: its code byte names its
/// length, so no common continuation reconciles two distinct values.
pub proof fn lemma_elem_i64_prefix_free(a: i64, b: i64, x: Seq<u8>, y: Seq<u8>)
    requires
        elem_i64(a) + x == elem_i64(b) + y,
    ensures
        a == b,
        x == y,
{
    let l = elem_i64(a) + x;
    let r = elem_i64(b) + y;
    assert(elem_i64(a)[0] == l[0]);
    assert(elem_i64(b)[0] == r[0]);
    lemma_elem_i64_len_from_code(a, b);
    let n = elem_i64(a).len() as int;
    assert(elem_i64(a) =~= l.subrange(0, n));
    assert(elem_i64(b) =~= r.subrange(0, n));
    lemma_elem_i64_inj(a, b);
    assert(x =~= l.subrange(n, l.len() as int));
    assert(y =~= r.subrange(n, r.len() as int));
}

/// The order-preserving transform of the binary64 element is injective.
proof fn lemma_double_transform_inj(b1: u64, b2: u64)
    requires
        double_transform(b1) == double_transform(b2),
    ensures
        b1 == b2,
{
}

/// A 64-bit value is determined by its eight base-256 digits.
proof fn lemma_u64_digits_inj(t1: u64, t2: u64)
    requires
        t1 / 0x100000000000000 % 0x100 == t2 / 0x100000000000000 % 0x100,
        t1 / 0x1000000000000 % 0x100 == t2 / 0x1000000000000 % 0x100,
        t1 / 0x10000000000 % 0x100 == t2 / 0x10000000000 % 0x100,
        t1 / 0x100000000 % 0x100 == t2 / 0x100000000 % 0x100,
        t1 / 0x1000000 % 0x100 == t2 / 0x1000000 % 0x100,
        t1 / 0x10000 % 0x100 == t2 / 0x10000 % 0x100,
        t1 / 0x100 % 0x100 == t2 / 0x100 % 0x100,
        t1 % 0x100 == t2 % 0x100,
    ensures
        t1 == t2,
{
    assert(t1 == t2) by (bit_vector)
        requires
            t1 / 0x100000000000000 % 0x100 == t2 / 0x100000000000000 % 0x100,
            t1 / 0x1000000000000 % 0x100 == t2 / 0x1000000000000 % 0x100,
            t1 / 0x10000000000 % 0x100 == t2 / 0x10000000000 % 0x100,
            t1 / 0x100000000 % 0x100 == t2 / 0x100000000 % 0x100,
            t1 / 0x1000000 % 0x100 == t2 / 0x1000000 % 0x100,
            t1 / 0x10000 % 0x100 == t2 / 0x10000 % 0x100,
            t1 / 0x100 % 0x100 == t2 / 0x100 % 0x100,
            t1 % 0x100 == t2 % 0x100,
    {
    }
}

/// The eight big-endian digit bytes of the transformed bits determine them.
proof fn lemma_elem_double_bits_inj(b1: u64, b2: u64)
    requires
        elem_double_bits(b1) == elem_double_bits(b2),
    ensures
        b1 == b2,
{
    let t1 = double_transform(b1);
    let t2 = double_transform(b2);
    assert(elem_double_bits(b1)[1] == elem_double_bits(b2)[1]);
    assert(elem_double_bits(b1)[2] == elem_double_bits(b2)[2]);
    assert(elem_double_bits(b1)[3] == elem_double_bits(b2)[3]);
    assert(elem_double_bits(b1)[4] == elem_double_bits(b2)[4]);
    assert(elem_double_bits(b1)[5] == elem_double_bits(b2)[5]);
    assert(elem_double_bits(b1)[6] == elem_double_bits(b2)[6]);
    assert(elem_double_bits(b1)[7] == elem_double_bits(b2)[7]);
    assert(elem_double_bits(b1)[8] == elem_double_bits(b2)[8]);
    lemma_u64_digits_inj(t1, t2);
    lemma_double_transform_inj(b1, b2);
}

/// A binary64 element has a fixed width, so no common continuation
/// reconciles two distinct bit patterns.
pub proof fn lemma_elem_double_prefix_free(b1: u64, b2: u64, x: Seq<u8>, y: Seq<u8>)
    requires
        elem_double_bits(b1) + x == elem_double_bits(b2) + y,
    ensures
        b1 == b2,
        x == y,
{
    let l = elem_double_bits(b1) + x;
    let r = elem_double_bits(b2) + y;
    assert(elem_double_bits(b1) =~= l.subrange(0, 9));
    assert(elem_double_bits(b2) =~= r.subrange(0, 9));
    lemma_elem_double_bits_inj(b1, b2);
    assert(x =~= l.subrange(9, l.len() as int));
    assert(y =~= r.subrange(9, r.len() as int));
}

/// The code byte of a column element names its variant: the six variants
/// use pairwise disjoint code ranges.
proof fn lemma_column_elem_code(c: ColumnView)
    ensures
        column_elem(c).len() > 0,
        c is String <==> column_elem(c)[0] == 2,
        c is Bytes <==> column_elem(c)[0] == 1,
        c is Null <==> column_elem(c)[0] == 5,
        c is Float <==> column_elem(c)[0] == 0x21,
        c is Bool <==> (column_elem(c)[0] == 0x26 || column_elem(c)[0] == 0x27),
        c is Int <==> 0x0c <= column_elem(c)[0] <= 0x1c,
{
    match c {
        ColumnView::Int(i) => {
            lemma_elem_i64_first(i);
        },
        _ => {},
    }
}

/// A column element is self-delimiting: no common continuation that does
/// not start with the escape byte reconciles two distinct column values.
pub proof fn lemma_column_elem_prefix_free(c1: ColumnView, c2: ColumnView, x: Seq<u8>, y: Seq<u8>)
    requires
        x.len() == 0 || x[0] != 0xff,
        y.len() == 0 || y[0] != 0xff,
        column_elem(c1) + x == column_elem(c2) + y,
    ensures
        c1 == c2,
        x == y,
{
    let l = column_elem(c1) + x;
    let r = column_elem(c2) + y;
    lemma_column_elem_code(c1);
    lemma_column_elem_code(c2);
    assert(column_elem(c1)[0] == l[0]);
    assert(column_elem(c2)[0] == r[0]);
    match (c1, c2) {
        (ColumnView::String(s1), ColumnView::String(s2)) => {
            lemma_elem_str_prefix_free(s1, s2, x, y);
        },
        (ColumnView::Bytes(b1), ColumnView::Bytes(b2)) => {
            lemma_elem_bytes_prefix_free(b1, b2, x, y);
        },
        (ColumnView::Int(a), ColumnView::Int(b)) => {
            lemma_elem_i64_prefix_free(a, b, x, y);
        },
        (ColumnView::Float(b1), ColumnView::Float(b2)) => {
            lemma_elem_double_prefix_free(b1, b2, x, y);
        },
        (ColumnView::Bool(b1), ColumnView::Bool(b2)) => {
            assert(b1 == b2);
            assert(x =~= l.subrange(1, l.len() as int));
            assert(y =~= r.subrange(1, r.len() as int));
        },
        (ColumnView::Null, ColumnView::Null) => {
            assert(x =~= l.subrange(2, l.len() as int));
            assert(y =~= r.subrange(2, r.len() as int));
        },
        _ => {
            assert(false);
        },
    }
}

/// Packed column tuples are injective: distinct ordered column tuples pack
/// to distinct byte strings.
pub proof fn lemma_columns_elems_inj(cs1: Seq<ColumnView>, cs2: Seq<ColumnView>)
    requires
        columns_elems(cs1) == columns_elems(cs2),
    ensures
        cs1 == cs2,
    decreases cs1.len() + cs2.len(),
{
    if cs1.len() == 0 && cs2.len() == 0 {
        assert(cs1 =~= cs2);
    } else if cs1.len() == 0 {
        lemma_column_elem_code(cs2[0]);
        assert(columns_elems(cs2).len() >= column_elem(cs2[0]).len());
        assert(false);
    } else if cs2.len() == 0 {
        lemma_column_elem_code(cs1[0]);
        assert(columns_elems(cs1).len() >= column_elem(cs1[0]).len());
        assert(false);
    } else {
        lemma_columns_elems_first(cs1.drop_first());
        lemma_columns_elems_first(cs2.drop_first());
        lemma_column_elem_prefix_free(
            cs1[0],
            cs2[0],
            columns_elems(cs1.drop_first()),
            columns_elems(cs2.drop_first()),
        );
        lemma_columns_elems_inj(cs1.drop_first(), cs2.drop_first());
        assert(cs1 =~= seq![cs1[0]] + cs1.drop_first());
        assert(cs2 =~= seq![cs2[0]] + cs2.drop_first());
    }
}

/// The collision invariant inside one table: distinct row ids occupy
/// distinct row keys, and distinct primary-key tuples occupy distinct
/// primary-key entries; the same holds for secondary-index tuples.
pub proof fn lemma_collision_free(
    root: Seq<u8>,
    name: Seq<char>,
    id1: i64,
    id2: i64,
    pk1: Seq<ColumnView>,
    pk2: Seq<ColumnView>,
    ix1: Seq<ColumnView>,
    ix2: Seq<ColumnView>,
)
    ensures
        id1 != id2 ==> row_key_spec(root, name, id1) != row_key_spec(root, name, id2),
        pk1 != pk2 ==> pk_key_spec(root, name, pk1) != pk_key_spec(root, name, pk2),
        ix1 != ix2 ==> index_key_spec(root, name, ix1) != index_key_spec(root, name, ix2),
{
    let pr = root + elem_u64(TAG_ROW) + elem_str(name);
    if id1 != id2 && row_key_spec(root, name, id1) == row_key_spec(root, name, id2) {
        let k1 = row_key_spec(root, name, id1);
        let k2 = row_key_spec(root, name, id2);
        assert(elem_i64(id1) =~= k1.subrange(pr.len() as int, k1.len() as int));
        assert(elem_i64(id2) =~= k2.subrange(pr.len() as int, k2.len() as int));
        lemma_elem_i64_inj(id1, id2);
        assert(false);
    }
    let pp = root + elem_u64(TAG_PRIMARY_KEY) + elem_str(name);
    if pk1 != pk2 && pk_key_spec(root, name, pk1) == pk_key_spec(root, name, pk2) {
        let k1 = pk_key_spec(root, name, pk1);
        let k2 = pk_key_spec(root, name, pk2);
        assert(columns_elems(pk1) =~= k1.subrange(pp.len() as int, k1.len() as int));
        assert(columns_elems(pk2) =~= k2.subrange(pp.len() as int, k2.len() as int));
        lemma_columns_elems_inj(pk1, pk2);
        assert(false);
    }
    let pi = root + elem_u64(TAG_INDEX) + elem_str(name);
    if ix1 != ix2 && index_key_spec(root, name, ix1) == index_key_spec(root, name, ix2) {
        let k1 = index_key_spec(root, name, ix1);
        let k2 = index_key_spec(root, name, ix2);
        assert(columns_elems(ix1) =~= k1.subrange(pi.len() as int, k1.len() as int));
        assert(columns_elems(ix2) =~= k2.subrange(pi.len() as int, k2.len() as int));
        lemma_columns_elems_inj(ix1, ix2);
        assert(false);
    }
}

/// Every column element starts with an element code, never the escape
/// byte; so does a packed column tuple, unless it is empty.
pub proof fn lemma_columns_elems_first(cs: Seq<ColumnView>)
    ensures
        columns_elems(cs).len() == 0 || columns_elems(cs)[0] != 0xff,
{
    if cs.len() > 0 {
        lemma_column_elem_first(cs[0]);
        assert(columns_elems(cs)[0] == column_elem(cs[0])[0]);
    }
}

/// A column element is never empty and never starts with the escape byte.
pub proof fn lemma_column_elem_first(c: ColumnView)
    ensures
        column_elem(c).len() > 0,
        column_elem(c)[0] != 0xff,
{
    match c {
        ColumnView::String(_) => {},
        ColumnView::Int(i) => {
            lemma_elem_i64_first(i);
        },
        ColumnView::Float(_) => {},
        ColumnView::Bool(_) => {},
        ColumnView::Bytes(_) => {},
        ColumnView::Null => {},
    }
}

/// A signed integer element starts with a code between 0x0C and 0x1C.
pub proof fn lemma_elem_i64_first(v: i64)
    ensures
        elem_i64(v).len() > 0,
        0x0c <= elem_i64(v)[0] <= 0x1c,
{
    assert(pow256(0nat) == 1);
    assert(pow256(1nat) == 0x100);
    assert(pow256(2nat) == 0x10000);
    assert(pow256(3nat) == 0x1000000);
    assert(pow256(4nat) == 0x100000000);
    assert(pow256(5nat) == 0x10000000000);
    assert(pow256(6nat) == 0x1000000000000);
    assert(pow256(7nat) == 0x100000000000000);
    assert(pow256(8nat) == 0x10000000000000000);
    if v >= 0 {
        lemma_ibl_le(v as nat, 8);
    } else {
        lemma_ibl_le((-(v as int)) as nat, 8);
        assert(int_byte_len((-(v as int)) as nat) >= 1);
    }
}

/// Key-space disjointness over the five regions themselves: for two
/// distinct table names, no key of one table's region equals the same
/// region's key for the other; regions under different tags differ already
/// by [`lemma_prefixed_keys_distinct`], whatever the names.
pub proof fn lemma_tables_share_no_key(
    root: Seq<u8>,
    a: Seq<char>,
    b: Seq<char>,
    ida: i64,
    idb: i64,
    pka: Seq<ColumnView>,
    pkb: Seq<ColumnView>,
    ixa: Seq<ColumnView>,
    ixb: Seq<ColumnView>,
)
    requires
        a != b,
    ensures
        table_key_spec(root, a) != table_key_spec(root, b),
        table_meta_key_spec(root, a) != table_meta_key_spec(root, b),
        row_key_spec(root, a, ida) != row_key_spec(root, b, idb),
        pk_key_spec(root, a, pka) != pk_key_spec(root, b, pkb),
        index_key_spec(root, a, ixa) != index_key_spec(root, b, ixb),
{
    let empty = Seq::<u8>::empty();
    assert(table_key_spec(root, a) =~= root + elem_u64(TAG_TABLE) + elem_str(a) + empty);
    assert(table_key_spec(root, b) =~= root + elem_u64(TAG_TABLE) + elem_str(b) + empty);
    lemma_keyspace_disjoint(root, TAG_TABLE, TAG_TABLE, a, b, empty, empty);
    assert(table_meta_key_spec(root, a) =~= root + elem_u64(TAG_TABLE_META) + elem_str(a) + empty);
    assert(table_meta_key_spec(root, b) =~= root + elem_u64(TAG_TABLE_META) + elem_str(b) + empty);
    lemma_keyspace_disjoint(root, TAG_TABLE_META, TAG_TABLE_META, a, b, empty, empty);
    lemma_elem_i64_first(ida);
    lemma_elem_i64_first(idb);
    lemma_keyspace_disjoint(root, TAG_ROW, TAG_ROW, a, b, elem_i64(ida), elem_i64(idb));
    lemma_columns_elems_first(pka);
    lemma_columns_elems_first(pkb);
    lemma_keyspace_disjoint(
        root,
        TAG_PRIMARY_KEY,
        TAG_PRIMARY_KEY,
        a,
        b,
        columns_elems(pka),
        columns_elems(pkb),
    );
    lemma_columns_elems_first(ixa);
    lemma_columns_elems_first(ixb);
    lemma_keyspace_disjoint(root, TAG_INDEX, TAG_INDEX, a, b, columns_elems(ixa), columns_elems(ixb));
}

/// Appending a column appends its element.
pub proof fn lemma_columns_elems_push(cs: Seq<ColumnView>, c: ColumnView)
    ensures
        columns_elems(cs.push(c)) == columns_elems(cs) + column_elem(c),
    decreases cs.len(),
{
    if cs.len() == 0 {
        assert(cs.push(c)[0] == c);
        assert(cs.push(c).drop_first() =~= Seq::<ColumnView>::empty());
        assert(columns_elems(cs) + column_elem(c) =~= column_elem(c));
        assert(column_elem(c) + columns_elems(Seq::empty()) =~= column_elem(c));
    } else {
        assert(cs.push(c).drop_first() =~= cs.drop_first().push(c));
        assert(cs.push(c)[0] == cs[0]);
        lemma_columns_elems_push(cs.drop_first(), c);
        assert(column_elem(cs[0]) + (columns_elems(cs.drop_first()) + column_elem(c)) =~= (
        column_elem(cs[0]) + columns_elems(cs.drop_first())) + column_elem(c));
    }
}

} // verus!
