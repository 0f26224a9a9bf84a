//! What the views compute from the bytes: where a byte sits in the hex grid,
//! the numbers the info view reads at the cursor, and which bits differ
//! between two compared bytes.
use vstd::prelude::*;
use crate::config::Endian;
use crate::script::{be_value, le_value, radix_pow, lemma_radix_pow_grows, lemma_radix_pow_mono, lemma_radix_pow_eight};

verus! {

/// The row of a byte and its column among the grid's characters: two per
/// byte, with one more gap after the eighth.
pub open spec fn cell_of(x: int) -> (int, int) {
    let col = x % 16;
    (x / 16, col * 2 + if col < 8 { 0int } else { 1int })
}

pub fn convert(x: usize) -> (r: (usize, usize))
    ensures
        (r.0 as int, r.1 as int) == cell_of(x as int),
{
    let col = x / 16;
    let row = x % 16;
    let row = row * 2 + if row < 8 { 0 } else { 1 };
    (col, row)
}

/// `length` bytes of `data` from `offset`, zero past its end.
pub open spec fn padded(data: Seq<u8>, offset: int, length: int) -> Seq<u8> {
    Seq::new(length as nat, |i: int| if offset + i < data.len() { data[offset + i] } else { 0u8 })
}

pub fn slice(data: &[u8], offset: usize, length: usize) -> (r: Vec<u8>)
    ensures
        r@ == padded(data@, offset as int, length as int),
{
    let mut v: Vec<u8> = Vec::new();
    let mut i: usize = 0;
    while i < length
        invariant
            i <= length,
            v@ == padded(data@, offset as int, length as int).subrange(0, i as int),
        decreases length - i,
    {
        let value = if offset < data.len() && i < data.len() - offset { data[offset + i] } else { 0 };
        v.push(value);
        assert(padded(data@, offset as int, length as int).subrange(0, i + 1) =~= padded(
            data@,
            offset as int,
            length as int,
        ).subrange(0, i as int).push(value));
        i = i + 1;
    }
    assert(padded(data@, offset as int, length as int).subrange(0, length as int) =~= padded(
        data@,
        offset as int,
        length as int,
    ));
    v
}

/// The unsigned number of `width` bytes read from the start of `data` (zero
/// past its end) in the given byte order.
pub open spec fn number_at(data: Seq<u8>, width: int, endian: Endian) -> nat {
    match endian {
        Endian::Big => be_value(padded(data, 0, width)),
        Endian::Little => le_value(padded(data, 0, width)),
    }
}

pub fn read_number(data: &[u8], width: usize, endian: Endian) -> (r: u64)
    requires
        width <= 8,
    ensures
        r == number_at(data@, width as int, endian),
{
    let bytes = slice(data, 0, width);
    let mut acc: u64 = 0;
    match endian {
        Endian::Big => {
            let mut i: usize = 0;
            while i < width
                invariant
                    i <= width <= 8,
                    bytes@.len() == width,
                    acc == be_value(bytes@.subrange(0, i as int)),
                    acc < radix_pow(i as nat),
                decreases width - i,
            {
                proof {
                    lemma_radix_pow_grows(i as nat);
                    lemma_radix_pow_mono((i + 1) as nat, 8);
                    lemma_radix_pow_eight();
                    let b = bytes@.subrange(0, i + 1);
                    assert(b.drop_last() == bytes@.subrange(0, i as int));
                    assert(acc * 256 + 255 < radix_pow((i + 1) as nat)) by (nonlinear_arith)
                        requires acc < radix_pow(i as nat), radix_pow((i + 1) as nat) == 256 * radix_pow(i as nat);
                }
                acc = acc * 256 + bytes[i] as u64;
                i = i + 1;
            }
            assert(bytes@.subrange(0, width as int) == bytes@);
        },
        Endian::Little => {
            let mut i: usize = width;
            while i > 0
                invariant
                    i <= width <= 8,
                    bytes@.len() == width,
                    acc == le_value(bytes@.subrange(i as int, width as int)),
                    acc < radix_pow((width - i) as nat),
                decreases i,
            {
                let ghost k = (width - i) as nat;
                proof {
                    lemma_radix_pow_grows(k);
                    lemma_radix_pow_mono(k + 1, 8);
                    lemma_radix_pow_eight();
                    let b = bytes@.subrange(i - 1, width as int);
                    assert(b.subrange(1, b.len() as int) == bytes@.subrange(i as int, width as int));
                    assert(acc * 256 + 255 < radix_pow(k + 1)) by (nonlinear_arith)
                        requires acc < radix_pow(k), radix_pow(k + 1) == 256 * radix_pow(k);
                }
                acc = acc * 256 + bytes[i - 1] as u64;
                i = i - 1;
            }
            assert(bytes@.subrange(0, width as int) == bytes@);
        },
    }
    acc
}

/// For each bit of two bytes, most significant first: the new value of a bit
/// that differs, nothing for a bit that is the same.
pub open spec fn bit_change(old: u8, new: u8, k: int) -> Option<bool> {
    let shift = (7 - k) as u8;
    if ((old ^ new) >> shift) & 1u8 == 1u8 {
        Some((new >> shift) & 1u8 == 1u8)
    } else {
        None
    }
}

pub fn bit_changes(old: u8, new: u8) -> (r: Vec<Option<bool>>)
    ensures
        r@.len() == 8,
        forall|k: int| 0 <= k < 8 ==> #[trigger] r@[k] == bit_change(old, new, k),
{
    let d = old ^ new;
    let mut r: Vec<Option<bool>> = Vec::new();
    let mut k: u8 = 0;
    while k < 8
        invariant
            k <= 8,
            d == old ^ new,
            r@.len() == k,
            forall|j: int| 0 <= j < k ==> #[trigger] r@[j] == bit_change(old, new, j),
        decreases 8 - k,
    {
        let shift = 7 - k;
        if (d >> shift) & 1 == 1 {
            r.push(Some((new >> shift) & 1 == 1));
        } else {
            r.push(None);
        }
        k = k + 1;
    }
    r
}

} // verus!
