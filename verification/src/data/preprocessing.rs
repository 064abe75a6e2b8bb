//! One-hot encoding of URLs.
//!
//! Each URL is cut (or padded) to `FIXED_URL_LEN` byte positions. Every
//! position becomes a row of `CHARSET_WORD_LEN` cells: the cell at the
//! byte's index in `CHARSET` is `1`, all others are `0`. A byte outside the
//! character set, and every position past the end of the URL, gives a row of
//! zeros.

use vstd::prelude::*;
use vstd::utf8::encode_utf8;

use crate::data::dataset::RawItem;
use crate::data::source::RawRecord;

verus! {

/// Turns a raw record into a model-ready item.
pub trait Preprocessing<Item> {
    fn encode_url(record: &RawRecord) -> Item;
}

/// The one-hot encoding strategy.
pub struct OHEStrategy {}

impl OHEStrategy {
    /// The characters that the encoding knows, in the order of their cells:
    /// `abcdefghijklmnopqrstuvwxyzABCDEFGHIJKLMNOPQRSTUVWXYZ0123456789-._~:/?#[]@!$&'()*+,;=`
    pub const CHARSET: [u8; 84] = [
        97, 98, 99, 100, 101, 102, 103, 104, 105, 106, 107, 108, 109,
        110, 111, 112, 113, 114, 115, 116, 117, 118, 119, 120, 121, 122,
        65, 66, 67, 68, 69, 70, 71, 72, 73, 74, 75, 76, 77,
        78, 79, 80, 81, 82, 83, 84, 85, 86, 87, 88, 89, 90,
        48, 49, 50, 51, 52, 53, 54, 55, 56, 57,
        45, 46, 95, 126, 58, 47, 63, 35, 91, 93, 64, 33, 36, 38, 39, 40, 41, 42, 43, 44, 59, 61,
    ];

    pub const CHARSET_LEN: usize = 84;

    /// One cell per character of the set, and one for the null byte.
    pub const CHARSET_WORD_LEN: usize = OHEStrategy::CHARSET_LEN + 1;

    pub const FIXED_URL_LEN: usize = 99;

    pub const ENCODED_URL_LEN: usize = OHEStrategy::FIXED_URL_LEN * OHEStrategy::CHARSET_WORD_LEN;

    /// The marker, in the look-up table, of a byte outside the character set.
    pub const NOT_IN_CHARSET: u8 = 255;
}

/// The character set as a sequence of bytes.
pub open spec fn charset() -> Seq<u8> {
    OHEStrategy::CHARSET@
}

/// The byte belongs to the character set.
pub open spec fn in_charset(b: u8) -> bool {
    charset().contains(b)
}

/// The index of a byte in the character set, or `255` for a byte outside it.
pub open spec fn char_index(b: u8) -> u8 {
    if in_charset(b) {
        charset().index_of(b) as u8
    } else {
        255
    }
}

/// The number of URL positions that the encoding looks at.
pub open spec fn encoded_positions(url: Seq<u8>) -> int {
    if url.len() < 99 {
        url.len() as int
    } else {
        99
    }
}

/// Cell `k` of the encoding of `url`, looking only at the positions below
/// `upto`: row `k / 85`, column `k % 85`.
pub open spec fn encoded_cell_upto(url: Seq<u8>, upto: int, k: int) -> u8 {
    let pos = k / 85;
    if pos < upto && pos < url.len() && char_index(url[pos]) as int == k % 85 {
        1
    } else {
        0
    }
}

/// The one-hot encoding of the URL bytes `url`.
pub open spec fn encoded_url(url: Seq<u8>) -> Seq<u8> {
    Seq::new(8415, |k: int| encoded_cell_upto(url, 99, k))
}

/// The flag that the model reads for a label.
pub open spec fn label_flag(label: bool) -> u8 {
    if label {
        1
    } else {
        0
    }
}

/// No byte occurs twice in the character set.
pub proof fn lemma_charset_distinct()
    ensures
        charset().len() == 84,
        forall|i: int, j: int| 0 <= i < j < 84 ==> charset()[i] != charset()[j],
{
}

/// The index is unique: a byte of the set sits only at `char_index`.
proof fn lemma_char_index_at(i: int)
    requires
        0 <= i < 84,
    ensures
        in_charset(charset()[i]),
        char_index(charset()[i]) as int == i,
{
    lemma_charset_distinct();
    let b = charset()[i];
    assert(charset().contains(b));
    let j = charset().index_of(b);
    assert(0 <= j < 84 && charset()[j] == b);
}

/// A row and a column name exactly one cell, and back.
proof fn lemma_cell_position(k: int, pos: int, col: int)
    requires
        0 <= k,
        0 <= pos,
        0 <= col < 85,
    ensures
        (k == pos * 85 + col) <==> (k / 85 == pos && k % 85 == col),
{
    assert(k == (k / 85) * 85 + k % 85) by (nonlinear_arith)
        requires 0 <= k;
    assert(0 <= k % 85 < 85) by (nonlinear_arith)
        requires 0 <= k;
}

impl OHEStrategy {
    /// Builds the table that maps each byte to its index in `CHARSET`, and
    /// each byte outside the set to `NOT_IN_CHARSET` (`255`).
    pub fn look_up_table() -> (table: [u8; 256])
        ensures
            forall|b: u8| #[trigger] table@[b as int] == char_index(b),
    {
        let mut table = [255u8; 256];
        let mut i: usize = 0;
        while i < OHEStrategy::CHARSET_LEN
            invariant
                0 <= i <= 84,
                forall|b: u8|
                    if (exists|j: int| 0 <= j < i && charset()[j] == b) {
                        #[trigger] table@[b as int] < i && charset()[table@[b as int] as int] == b
                    } else {
                        table@[b as int] == 255
                    },
            decreases 84 - i,
        {
            let c = OHEStrategy::CHARSET[i];
            table[c as usize] = i as u8;
            proof {
                assert forall|b: u8|
                    if (exists|j: int| 0 <= j < i + 1 && charset()[j] == b) {
                        #[trigger] table@[b as int] < i + 1 && charset()[table@[b as int] as int] == b
                    } else {
                        table@[b as int] == 255
                    } by {
                    if b != c {
                        if exists|j: int| 0 <= j < i + 1 && charset()[j] == b {
                            let j = choose|j: int| 0 <= j < i + 1 && charset()[j] == b;
                            assert(j != i);
                        }
                    }
                }
            }
            i += 1;
        }
        proof {
            lemma_charset_distinct();
            assert forall|b: u8| #[trigger] table@[b as int] == char_index(b) by {
                if exists|j: int| 0 <= j < 84 && charset()[j] == b {
                    let t = table@[b as int] as int;
                    lemma_char_index_at(t);
                } else {
                    assert(!in_charset(b));
                }
            }
        }
        table
    }

    /// Encodes the bytes of a URL (see the module documentation).
    fn encode_bytes(url_bytes: &[u8]) -> (encoded: Vec<u8>)
        ensures
            encoded@ == encoded_url(url_bytes@),
    {
        let table = OHEStrategy::look_up_table();
        let mut encoded: Vec<u8> = vec![0u8; 8415];
        let url_len = if url_bytes.len() < OHEStrategy::FIXED_URL_LEN {
            url_bytes.len()
        } else {
            OHEStrategy::FIXED_URL_LEN
        };
        let mut j: usize = 0;
        while j < url_len
            invariant
                url_len == encoded_positions(url_bytes@),
                0 <= j <= url_len,
                encoded@.len() == 8415,
                forall|b: u8| #[trigger] table@[b as int] == char_index(b),
                forall|k: int|
                    0 <= k < 8415 ==> #[trigger] encoded@[k] == encoded_cell_upto(url_bytes@, j as int, k),
            decreases url_len - j,
        {
            let idx = table[url_bytes[j] as usize];
            let ghost before = encoded@;
            if idx != OHEStrategy::NOT_IN_CHARSET {
                assert(in_charset(url_bytes@[j as int]));
                assert(idx < 84) by {
                    let b = url_bytes@[j as int];
                    assert(charset().contains(b));
                    let w = charset().index_of(b);
                    assert(0 <= w < 84);
                }
                let p = j * OHEStrategy::CHARSET_WORD_LEN + idx as usize;
                encoded[p] = 1;
                assert forall|k: int|
                    0 <= k < 8415 implies #[trigger] encoded@[k] == encoded_cell_upto(url_bytes@, j + 1, k) by {
                    lemma_cell_position(k, j as int, idx as int);
                }
            } else {
                assert forall|k: int|
                    0 <= k < 8415 implies #[trigger] encoded@[k] == encoded_cell_upto(url_bytes@, j + 1, k) by {
                    assert(k == (k / 85) * 85 + k % 85 && 0 <= k % 85 < 85) by (nonlinear_arith)
                        requires 0 <= k;
                }
            }
            j += 1;
        }
        assert forall|k: int| 0 <= k < 8415 implies #[trigger] encoded@[k] == encoded_url(url_bytes@)[k] by {
        }
        assert(encoded@ =~= encoded_url(url_bytes@));
        encoded
    }
}

impl Preprocessing<RawItem> for OHEStrategy {
    /// Encodes the record's URL one-hot over its UTF-8 bytes, and its label
    /// as `1` (malicious) or `0` (benign).
    fn encode_url(record: &RawRecord) -> (item: RawItem)
        ensures
            item.url@ == encoded_url(encode_utf8(record.url@)),
            item.is_malicious == label_flag(record.label),
            item.is_malicious == (if record.label { 1u8 } else { 0u8 }),
            item.url@.len() == 8415,
    {
        let url_bytes = record.url.as_str().as_bytes();
        let encoded = OHEStrategy::encode_bytes(url_bytes);
        RawItem { is_malicious: if record.label { 1 } else { 0 }, url: encoded }
    }
}

/// The row of `CHARSET_WORD_LEN` cells with a single `1` at column `col`.
pub open spec fn one_hot_row(col: int) -> Seq<u8> {
    Seq::new(85, |k: int| if k == col { 1u8 } else { 0u8 })
}

/// The row of `CHARSET_WORD_LEN` zero cells.
pub open spec fn zero_row() -> Seq<u8> {
    Seq::new(85, |k: int| 0u8)
}

/// Row `pos` of an encoding.
pub open spec fn encoded_row(encoded: Seq<u8>, pos: int) -> Seq<u8> {
    encoded.subrange(pos * 85, pos * 85 + 85)
}

/// What the encoding keeps of position `pos` of a URL: the byte, when the
/// position is among the first `FIXED_URL_LEN` ones of the URL and the byte
/// belongs to the character set; nothing otherwise.
pub open spec fn visible_byte(url: Seq<u8>, pos: int) -> Option<u8> {
    if 0 <= pos < 99 && pos < url.len() && in_charset(url[pos]) {
        Some(url[pos])
    } else {
        None
    }
}

/// The number of cells equal to `1`.
pub open spec fn count_ones(s: Seq<u8>) -> nat
    decreases s.len(),
{
    if s.len() == 0 {
        0
    } else {
        count_ones(s.drop_last()) + if s.last() == 1 { 1nat } else { 0nat }
    }
}

/// The number of positions below `n` whose byte the encoding keeps.
pub open spec fn visible_count(url: Seq<u8>, n: int) -> nat
    decreases n,
{
    if n <= 0 {
        0
    } else {
        visible_count(url, n - 1) + if visible_byte(url, n - 1) is Some { 1nat } else { 0nat }
    }
}

/// The look-up table inverts the character set: each character maps to its
/// own index, every index found maps back to the byte, and exactly the bytes
/// outside the set map to `255`.
pub proof fn lemma_char_index_inverts_charset()
    ensures
        forall|i: int| 0 <= i < 84 ==> #[trigger] char_index(charset()[i]) as int == i,
        forall|b: u8|
            #[trigger] char_index(b) != 255 ==> char_index(b) < 84 && charset()[char_index(b) as int] == b,
        forall|b: u8| #[trigger] char_index(b) == 255 <==> !in_charset(b),
{
    assert forall|i: int| 0 <= i < 84 implies #[trigger] char_index(charset()[i]) as int == i by {
        lemma_char_index_at(i);
    }
    assert forall|b: u8| #[trigger] char_index(b) != 255 implies char_index(b) < 84 && charset()[char_index(b) as int] == b by {
        let j = charset().index_of(b);
        assert(0 <= j < 84 && charset()[j] == b);
    }
    assert forall|b: u8| #[trigger] char_index(b) == 255 <==> !in_charset(b) by {
        if in_charset(b) {
            let j = charset().index_of(b);
            assert(0 <= j < 84 && charset()[j] == b);
        }
    }
}

/// A cell is `1` exactly when its row keeps a byte whose index is the
/// cell's column.
proof fn lemma_cell_from_visible(url: Seq<u8>, k: int)
    requires
        0 <= k < 8415,
    ensures
        encoded_url(url)[k] == match visible_byte(url, k / 85) {
            Some(b) => if char_index(b) as int == k % 85 { 1u8 } else { 0u8 },
            None => 0u8,
        },
        0 <= k / 85 < 99,
        0 <= k % 85 < 85,
{
    assert(0 <= k / 85 < 99 && 0 <= k % 85 < 85) by (nonlinear_arith)
        requires 0 <= k < 8415;
    lemma_char_index_inverts_charset();
}

/// Every encoding is `FIXED_URL_LEN` rows of `CHARSET_WORD_LEN` cells. Row
/// `pos` is a single `1` at the index of the byte at `pos` when the encoding
/// keeps that byte, and all zeros otherwise (a byte outside the character
/// set, or a position past the end of the URL).
pub proof fn lemma_encoded_rows(url: Seq<u8>, pos: int)
    requires
        0 <= pos < 99,
    ensures
        encoded_url(url).len() == 8415,
        encoded_row(encoded_url(url), pos) == match visible_byte(url, pos) {
            Some(b) => one_hot_row(char_index(b) as int),
            None => zero_row(),
        },
        count_ones(encoded_row(encoded_url(url), pos)) == if visible_byte(url, pos) is Some { 1nat } else { 0nat },
{
    let row = encoded_row(encoded_url(url), pos);
    let expected = match visible_byte(url, pos) {
        Some(b) => one_hot_row(char_index(b) as int),
        None => zero_row(),
    };
    lemma_char_index_inverts_charset();
    assert forall|c: int| 0 <= c < 85 implies #[trigger] row[c] == expected[c] by {
        let k = pos * 85 + c;
        lemma_cell_position(k, pos, c);
        lemma_cell_from_visible(url, k);
    }
    assert(row =~= expected);
    if let Some(b) = visible_byte(url, pos) {
        let c = char_index(b) as int;
        assert(c < 84);
        lemma_count_single_one(85, c);
        assert(one_hot_row(c) =~= Seq::new(85nat, |k: int| if k == c { 1u8 } else { 0u8 }));
    } else {
        lemma_count_single_one(85, 85);
        assert(zero_row() =~= Seq::new(85, |k: int| if k == 85 { 1u8 } else { 0u8 }));
    }
}

/// A row of `n` cells with a `1` at `col` only holds one `1` when `col` is
/// inside the row.
proof fn lemma_count_single_one(n: int, col: int)
    requires
        0 <= n,
        0 <= col,
    ensures
        count_ones(Seq::new(n as nat, |k: int| if k == col { 1u8 } else { 0u8 })) == if col < n { 1nat } else { 0nat },
    decreases n,
{
    let s = Seq::new(n as nat, |k: int| if k == col { 1u8 } else { 0u8 });
    if n > 0 {
        lemma_count_single_one(n - 1, col);
        assert(s.drop_last() =~= Seq::new((n - 1) as nat, |k: int| if k == col { 1u8 } else { 0u8 }));
    }
}

/// Counting ones is additive over concatenation.
proof fn lemma_count_ones_concat(a: Seq<u8>, b: Seq<u8>)
    ensures
        count_ones(a + b) == count_ones(a) + count_ones(b),
    decreases b.len(),
{
    if b.len() > 0 {
        lemma_count_ones_concat(a, b.drop_last());
        assert((a + b).drop_last() =~= a + b.drop_last());
    } else {
        assert(a + b =~= a);
    }
}

/// The encoding holds one `1` for every byte that it keeps: one per
/// position among the first `FIXED_URL_LEN` whose byte is in the character
/// set, and nothing else.
pub proof fn lemma_encoded_count_ones(url: Seq<u8>)
    ensures
        count_ones(encoded_url(url)) == visible_count(url, 99),
{
    lemma_encoded_prefix_count_ones(url, 99);
    assert(encoded_url(url).take(8415) =~= encoded_url(url));
}

/// The first `p` rows of an encoding hold one `1` per byte kept among the
/// first `p` positions.
proof fn lemma_encoded_prefix_count_ones(url: Seq<u8>, p: int)
    requires
        0 <= p <= 99,
    ensures
        count_ones(encoded_url(url).take(p * 85)) == visible_count(url, p),
    decreases p,
{
    let e = encoded_url(url);
    if p == 0 {
        assert(e.take(0) =~= Seq::<u8>::empty());
    } else {
        lemma_encoded_prefix_count_ones(url, p - 1);
        lemma_encoded_rows(url, p - 1);
        assert(e.take(p * 85) =~= e.take((p - 1) * 85) + encoded_row(e, p - 1));
        lemma_count_ones_concat(e.take((p - 1) * 85), encoded_row(e, p - 1));
    }
}

/// Two URLs have the same encoding exactly when the encoding keeps the same
/// bytes of both at every position: what it loses are the positions past
/// `FIXED_URL_LEN` and the bytes outside the character set, and nothing
/// more.
pub proof fn lemma_encoding_equal_iff_same_visible(u1: Seq<u8>, u2: Seq<u8>)
    ensures
        encoded_url(u1) == encoded_url(u2) <==> forall|pos: int|
            0 <= pos < 99 ==> #[trigger] visible_byte(u1, pos) == visible_byte(u2, pos),
{
    lemma_char_index_inverts_charset();
    if forall|pos: int| 0 <= pos < 99 ==> #[trigger] visible_byte(u1, pos) == visible_byte(u2, pos) {
        assert forall|k: int| 0 <= k < 8415 implies encoded_url(u1)[k] == encoded_url(u2)[k] by {
            lemma_cell_from_visible(u1, k);
            lemma_cell_from_visible(u2, k);
        }
        assert(encoded_url(u1) =~= encoded_url(u2));
    }
    if encoded_url(u1) == encoded_url(u2) {
        assert forall|pos: int| 0 <= pos < 99 implies #[trigger] visible_byte(u1, pos) == visible_byte(u2, pos) by {
            lemma_encoded_rows(u1, pos);
            lemma_encoded_rows(u2, pos);
            let r1 = encoded_row(encoded_url(u1), pos);
            let r2 = encoded_row(encoded_url(u2), pos);
            assert(r1 == r2);
            if let Some(b1) = visible_byte(u1, pos) {
                let c1 = char_index(b1) as int;
                assert(r1[c1] == 1);
                if let Some(b2) = visible_byte(u2, pos) {
                    let c2 = char_index(b2) as int;
                    assert(r2[c1] == 1);
                    assert(c1 == c2);
                } else {
                    assert(r2[c1] == 0);
                }
            } else if let Some(b2) = visible_byte(u2, pos) {
                let c2 = char_index(b2) as int;
                assert(r2[c2] == 1);
                assert(r1[c2] == 0);
            }
        }
    }
}

/// A cell of the encoding is `1` exactly when its row is a position among
/// the first `FIXED_URL_LEN` of the URL and the byte there is the character
/// of `CHARSET` that the cell's column stands for; the null column is
/// never set.
pub proof fn lemma_encoded_cell_matches_charset(url: Seq<u8>, k: int)
    requires
        0 <= k < 8415,
    ensures
        encoded_url(url).len() == 8415,
        encoded_url(url)[k] == 1 <==> (k / 85 < url.len() && k % 85 < 84 && OHEStrategy::CHARSET@[k % 85] == url[k / 85]),
        encoded_url(url)[k] == 0 || encoded_url(url)[k] == 1,
        k / 85 < 99,
{
    lemma_cell_from_visible(url, k);
    lemma_char_index_inverts_charset();
    let pos = k / 85;
    let col = k % 85;
    if pos < url.len() && col < 84 && OHEStrategy::CHARSET@[col] == url[pos] {
        assert(charset()[col] == url[pos]);
        assert(char_index(charset()[col]) as int == col);
        assert(in_charset(url[pos]));
    }
}

/// Every cell of an encoding is `0` or `1`.
pub proof fn lemma_encoding_is_binary(url: Seq<u8>)
    ensures
        forall|k: int| 0 <= k < 8415 ==> #[trigger] encoded_url(url)[k] == 0 || encoded_url(url)[k] == 1,
{
}

/// Only the first `FIXED_URL_LEN` bytes of a URL count: a longer URL has the
/// encoding of its prefix of that length.
pub proof fn lemma_encoding_truncates(url: Seq<u8>)
    requires
        url.len() > 99,
    ensures
        encoded_url(url) == encoded_url(url.take(99)),
{
    lemma_encoding_equal_iff_same_visible(url, url.take(99));
    assert forall|pos: int| 0 <= pos < 99 implies #[trigger] visible_byte(url, pos) == visible_byte(url.take(99), pos) by {
    }
}

} // verus!
