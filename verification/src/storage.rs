//! The computing parts of the KV facade: the scan page cap and the page
//! chaining of `full_scan`, with the ordering facts that make chained pages
//! free of duplicates. The facade's reads and writes themselves are I/O and
//! live outside the library, in the shell that drives the KV engine.

use vstd::prelude::*;

verus! {

/// The hard cap on the number of items one bounded `scan` returns.
pub const MAX_SCAN_SIZE: usize = 20;

/// Strict lexicographic order on byte strings, the order in which the KV
/// engine returns keys: a proper prefix comes first, otherwise the first
/// differing byte decides.
pub open spec fn lex_lt(a: Seq<u8>, b: Seq<u8>) -> bool
    decreases a.len(),
{
    if b.len() == 0 {
        false
    } else if a.len() == 0 {
        true
    } else if a[0] < b[0] {
        true
    } else if a[0] > b[0] {
        false
    } else {
        lex_lt(a.drop_first(), b.drop_first())
    }
}

pub open spec fn lex_le(a: Seq<u8>, b: Seq<u8>) -> bool {
    a == b || lex_lt(a, b)
}

/// The start key of the page after one whose last key was `last_key`: the
/// last key extended by a single 0xFF byte.
pub open spec fn next_full_scan_start_spec(last_key: Seq<u8>) -> Seq<u8> {
    last_key + seq![0xffu8]
}

pub fn next_full_scan_start(last_key: &Vec<u8>) -> (r: Vec<u8>)
    ensures
        r@ == next_full_scan_start_spec(last_key@),
{
    let mut r = last_key.clone();
    r.push(0xff);
    proof {
        assert(r@ =~= next_full_scan_start_spec(last_key@));
    }
    r
}

/// A key strictly precedes itself extended by any byte.
pub proof fn lemma_lex_lt_extend(a: Seq<u8>, b: u8)
    ensures
        lex_lt(a, a + seq![b]),
    decreases a.len(),
{
    if a.len() > 0 {
        lemma_lex_lt_extend(a.drop_first(), b);
        assert((a + seq![b]).drop_first() =~= a.drop_first() + seq![b]);
    }
}

pub proof fn lemma_lex_lt_trans(a: Seq<u8>, b: Seq<u8>, c: Seq<u8>)
    requires
        lex_lt(a, b),
        lex_lt(b, c),
    ensures
        lex_lt(a, c),
    decreases a.len(),
{
    if a.len() > 0 && b.len() > 0 && c.len() > 0 {
        if a[0] == b[0] && b[0] == c[0] {
            lemma_lex_lt_trans(a.drop_first(), b.drop_first(), c.drop_first());
        }
    }
}

/// Why chained pages never repeat a key: every key at or past the next
/// page's start strictly exceeds the previous page's last key. Together with
/// the engine returning each page in ascending order, the pages of a full
/// scan concatenate into one strictly ascending, duplicate-free sequence.
pub proof fn lemma_full_scan_progress(last_key: Seq<u8>, k: Seq<u8>)
    requires
        lex_le(next_full_scan_start_spec(last_key), k),
    ensures
        lex_lt(last_key, k),
{
    lemma_lex_lt_extend(last_key, 0xff);
    if next_full_scan_start_spec(last_key) == k {
    } else {
        lemma_lex_lt_trans(last_key, next_full_scan_start_spec(last_key), k);
    }
}

} // verus!
