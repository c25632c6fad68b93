//! The canonical checksum string and its CRC32 verification.
//!
//! The canonical string concatenates, for the top 10 asks in ascending
//! price order and then the top 10 bids in descending price order, the
//! fixed-precision rendering of price followed by quantity. A side with
//! fewer than 10 levels contributes only what exists.

use vstd::prelude::*;
use crate::decimal::{Decimal, spec_format_fixed, format_fixed};
use crate::orderbook::{Orderbook, min_len};

verus! {

/// The canonical characters one level contributes: price then quantity.
pub open spec fn level_chars(level: (Decimal, Decimal), pp: nat, qp: nat) -> Seq<char> {
    spec_format_fixed(level.0, pp) + spec_format_fixed(level.1, qp)
}

/// The canonical characters of a list of levels, in order.
pub open spec fn levels_chars(levels: Seq<(Decimal, Decimal)>, pp: nat, qp: nat) -> Seq<char>
    decreases levels.len(),
{
    if levels.len() == 0 {
        Seq::empty()
    } else {
        levels_chars(levels.drop_last(), pp, qp) + level_chars(levels.last(), pp, qp)
    }
}

/// The top (at most) 10 asks, ascending by price.
pub open spec fn checksum_asks(book: Orderbook) -> Seq<(Decimal, Decimal)> {
    book.asks@.take(min_len(book.asks@.len(), 10) as int)
}

/// The top (at most) 10 bids, descending by price.
pub open spec fn checksum_bids(book: Orderbook) -> Seq<(Decimal, Decimal)> {
    Seq::new(
        min_len(book.bids@.len(), 10),
        |k: int| book.bids@[book.bids@.len() - 1 - k],
    )
}

/// The canonical checksum string of a book under the given precisions.
pub open spec fn spec_checksum_chars(book: Orderbook, pp: nat, qp: nat) -> Seq<char> {
    levels_chars(checksum_asks(book), pp, qp) + levels_chars(checksum_bids(book), pp, qp)
}

/// Appends the canonical rendering of the given levels to `out`.
fn append_levels(
    out: &mut String,
    levels: &Vec<(Decimal, Decimal)>,
    price_precision: u32,
    qty_precision: u32,
)
    requires
        crate::orderbook::levels_wf(levels@),
        price_precision <= 19,
        qty_precision <= 19,
    ensures
        final(out)@ == old(out)@ + levels_chars(levels@, price_precision as nat, qty_precision as nat),
{
    let ghost base = out@;
    let mut i: usize = 0;
    while i < levels.len()
        invariant
            crate::orderbook::levels_wf(levels@),
            price_precision <= 19,
            qty_precision <= 19,
            i <= levels@.len(),
            out@ == base + levels_chars(levels@.take(i as int), price_precision as nat, qty_precision as nat),
        decreases levels@.len() - i,
    {
        proof {
            assert(levels@.take(i + 1).drop_last() =~= levels@.take(i as int));
            assert(levels@.take(i + 1).last() == levels@[i as int]);
        }
        let p = format_fixed(&levels[i].0, price_precision);
        let q = format_fixed(&levels[i].1, qty_precision);
        out.append(p.as_str());
        out.append(q.as_str());
        proof {
            assert(out@ =~= base + levels_chars(
                levels@.take(i + 1), price_precision as nat, qty_precision as nat));
        }
        i = i + 1;
    }
    proof {
        assert(levels@.take(levels@.len() as int) =~= levels@);
    }
}

/// Builds the canonical checksum string: top 10 asks ascending, then top
/// 10 bids descending, each level as formatted price followed by quantity.
pub fn build_checksum_string(
    orderbook: &Orderbook,
    price_precision: u32,
    qty_precision: u32,
) -> (r: String)
    requires
        orderbook.wf(),
        price_precision <= 19,
        qty_precision <= 19,
    ensures
        r@ == spec_checksum_chars(*orderbook, price_precision as nat, qty_precision as nat),
{
    let asks = orderbook.asks_vec(Some(10));
    let bids = orderbook.bids_vec(Some(10));
    proof {
        assert(asks@ == checksum_asks(*orderbook));
        assert(bids@ =~= checksum_bids(*orderbook));
    }
    let mut out = String::new();
    append_levels(&mut out, &asks, price_precision, qty_precision);
    append_levels(&mut out, &bids, price_precision, qty_precision);
    proof {
        assert(out@ =~= spec_checksum_chars(
            *orderbook, price_precision as nat, qty_precision as nat));
    }
    out
}

/// What crc32fast computes over the UTF-8 bytes of a string: the IEEE
/// CRC32 is a pure function of the characters.
pub uninterp spec fn crc32_of(s: Seq<char>) -> u32;

/// Computes the IEEE CRC32 (polynomial 0xEDB88320, standard preset and
/// final complement) over the UTF-8 bytes of a string.
///
/// Relies on crc32fast::hash: one CRC32 pass over the bytes. Its state
/// starts at zero and is complemented before and after folding, so the
/// hash of empty input is zero.
#[verifier::external_body]
pub fn compute_crc32(s: &str) -> (r: u32)
    ensures
        r == crc32_of(s@),
        s@.len() == 0 ==> r == 0,
{
    crc32fast::hash(s.as_bytes())
}

/// Verifies the book against an expected checksum: builds the canonical
/// string, computes its CRC32, and compares. The result is a pure
/// function of the book contents, the precisions and the expected value.
pub fn verify_checksum(
    orderbook: &Orderbook,
    expected_checksum: u32,
    price_precision: u32,
    qty_precision: u32,
) -> (r: bool)
    requires
        orderbook.wf(),
        price_precision <= 19,
        qty_precision <= 19,
    ensures
        r == (expected_checksum == crc32_of(spec_checksum_chars(
            *orderbook, price_precision as nat, qty_precision as nat))),
{
    let s = build_checksum_string(orderbook, price_precision, qty_precision);
    let computed = compute_crc32(s.as_str());
    computed == expected_checksum
}

/// Law: the verifier is a pure function of the book contents and the
/// precisions — two books with the same levels verify identically.
pub proof fn lemma_verifier_pure(a: Orderbook, b: Orderbook, pp: nat, qp: nat)
    requires
        a.asks@ == b.asks@,
        a.bids@ == b.bids@,
    ensures
        spec_checksum_chars(a, pp, qp) == spec_checksum_chars(b, pp, qp),
{
    assert(checksum_asks(a) == checksum_asks(b));
    assert(checksum_bids(a) =~= checksum_bids(b));
}

/// Law: an empty book has an empty canonical string.
pub proof fn lemma_empty_book_checksum(book: Orderbook, pp: nat, qp: nat)
    requires
        book.asks@.len() == 0,
        book.bids@.len() == 0,
    ensures
        spec_checksum_chars(book, pp, qp) == Seq::<char>::empty(),
{
    assert(checksum_asks(book) =~= Seq::<(Decimal, Decimal)>::empty());
    assert(checksum_bids(book) =~= Seq::<(Decimal, Decimal)>::empty());
    assert(spec_checksum_chars(book, pp, qp) =~= Seq::<char>::empty());
}

} // verus!
