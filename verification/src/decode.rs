//! Byte-level decoding of scalar values: bounds checking, byte assembly in
//! either byte order, and two's-complement reinterpretation for the signed
//! types.

use vstd::prelude::*;
use crate::types::{DataType, DecodedValue, Endianness};

verus! {

/// `256^w`, the number of values representable in `w` bytes.
pub open spec fn pow256(w: nat) -> nat
    decreases w,
{
    if w == 0 {
        1
    } else {
        256 * pow256((w - 1) as nat)
    }
}

/// The value of a byte string read least-significant byte first.
pub open spec fn le_val(bs: Seq<u8>) -> nat
    decreases bs.len(),
{
    if bs.len() == 0 {
        0
    } else {
        (bs[0] + 256 * le_val(bs.drop_first())) as nat
    }
}

/// The value of a byte string under the given byte order: little-endian
/// reads the least-significant byte first, big-endian the most-significant.
pub open spec fn assembled(bs: Seq<u8>, e: Endianness) -> nat {
    match e {
        Endianness::Little => le_val(bs),
        Endianness::Big => le_val(bs.reverse()),
    }
}

/// Two's-complement reinterpretation of a `w`-byte unsigned value.
pub open spec fn to_signed(n: nat, w: nat) -> int {
    if n < pow256(w) / 2 {
        n as int
    } else {
        n - pow256(w)
    }
}

/// The decoded interpretation of the `width` bytes `bs` under byte order `e`.
pub open spec fn decode_model(t: DataType, bs: Seq<u8>, e: Endianness) -> DecodedValue {
    let n = assembled(bs, e);
    match t {
        DataType::U8 => DecodedValue::Unsigned(n as u64),
        DataType::U16 => DecodedValue::Unsigned(n as u64),
        DataType::U32 => DecodedValue::Unsigned(n as u64),
        DataType::U64 => DecodedValue::Unsigned(n as u64),
        DataType::I8 => DecodedValue::Signed(to_signed(n, 1) as i64),
        DataType::I16 => DecodedValue::Signed(to_signed(n, 2) as i64),
        DataType::I32 => DecodedValue::Signed(to_signed(n, 4) as i64),
        DataType::I64 => DecodedValue::Signed(to_signed(n, 8) as i64),
        DataType::F32 => DecodedValue::Float32Bits(n as u32),
        DataType::F64 => DecodedValue::Float64Bits(n as u64),
    }
}

/// Numeric values of the powers of 256 needed for the widths in the catalog.
pub proof fn lemma_pow256_widths()
    ensures
        pow256(1) == 0x100,
        pow256(2) == 0x10000,
        pow256(4) == 0x1_0000_0000,
        pow256(8) == 0x1_0000_0000_0000_0000,
{
    assert(pow256(0) == 1);
    assert(pow256(1) == 0x100);
    assert(pow256(2) == 0x10000);
    assert(pow256(3) == 0x100_0000);
    assert(pow256(4) == 0x1_0000_0000);
    assert(pow256(5) == 0x100_0000_0000);
    assert(pow256(6) == 0x1_0000_0000_0000);
    assert(pow256(7) == 0x100_0000_0000_0000);
    assert(pow256(8) == 0x1_0000_0000_0000_0000);
}

/// A byte string's value is below `256^len`.
pub proof fn lemma_le_val_bound(bs: Seq<u8>)
    ensures
        le_val(bs) < pow256(bs.len()),
    decreases bs.len(),
{
    if bs.len() == 0 {
    } else {
        lemma_le_val_bound(bs.drop_first());
        assert(le_val(bs) == bs[0] + 256 * le_val(bs.drop_first()));
        assert(256 * le_val(bs.drop_first()) <= 256 * (pow256(bs.drop_first().len()) - 1))
            by (nonlinear_arith)
            requires
                le_val(bs.drop_first()) <= pow256(bs.drop_first().len()) - 1,
        ;
    }
}

/// Assembles the `w` bytes at `offset` least-significant byte first.
fn assemble_le(data: &[u8], offset: usize, w: usize) -> (r: u64)
    requires
        w <= 8,
        offset + w <= data@.len(),
    ensures
        r == le_val(data@.subrange(offset as int, offset + w)),
{
    proof {
        lemma_pow256_widths();
    }
    let dlen = data.len();
    let mut acc: u64 = 0;
    let mut k: usize = w;
    while k > 0
        invariant
            k <= w <= 8,
            offset + w <= data@.len(),
            data@.len() == dlen,
            acc == le_val(data@.subrange(offset + k, offset + w)),
            acc < pow256((w - k) as nat),
            pow256(8) == 0x1_0000_0000_0000_0000,
        decreases k,
    {
        let b = data[offset + k - 1];
        proof {
            let tail = data@.subrange(offset + k, offset + w);
            let whole = data@.subrange(offset + k - 1, offset + w);
            assert(whole.drop_first() =~= tail);
            assert(whole[0] == data@[offset + k - 1]);
            let j = (w - k) as nat;
            assert(pow256(j + 1) == 256 * pow256(j));
            assert(acc * 256 + b < 256 * pow256(j)) by (nonlinear_arith)
                requires
                    acc < pow256(j),
                    b < 256,
            ;
            assert(pow256(j + 1) <= pow256(8)) by {
                lemma_pow256_le(j + 1, 8);
            }
        }
        acc = acc * 256 + (b as u64);
        k = k - 1;
    }
    proof {
        assert(data@.subrange(offset as int, offset + w) =~= data@.subrange(
            offset + k,
            offset + w,
        ));
    }
    acc
}

/// `256^a <= 256^b` when `a <= b`.
pub proof fn lemma_pow256_le(a: nat, b: nat)
    requires
        a <= b,
    ensures
        pow256(a) <= pow256(b),
    decreases b,
{
    if a < b {
        lemma_pow256_le(a, (b - 1) as nat);
        assert(pow256(b) == 256 * pow256((b - 1) as nat));
        assert(pow256((b - 1) as nat) <= 256 * pow256((b - 1) as nat)) by (nonlinear_arith)
            requires
                pow256((b - 1) as nat) >= 0,
        ;
    }
}

/// Assembles the `w` bytes at `offset` most-significant byte first.
fn assemble_be(data: &[u8], offset: usize, w: usize) -> (r: u64)
    requires
        w <= 8,
        offset + w <= data@.len(),
    ensures
        r == le_val(data@.subrange(offset as int, offset + w).reverse()),
{
    proof {
        lemma_pow256_widths();
    }
    let dlen = data.len();
    let mut acc: u64 = 0;
    let mut k: usize = 0;
    while k < w
        invariant
            k <= w <= 8,
            offset + w <= data@.len(),
            data@.len() == dlen,
            acc == le_val(data@.subrange(offset as int, offset + k).reverse()),
            acc < pow256(k as nat),
            pow256(8) == 0x1_0000_0000_0000_0000,
        decreases w - k,
    {
        let b = data[offset + k];
        proof {
            let pre = data@.subrange(offset as int, offset + k);
            let ext = data@.subrange(offset as int, offset + k + 1);
            assert(ext.reverse().len() == k + 1);
            assert(ext.reverse()[0] == ext[k as int]);
            assert(ext[k as int] == data@[offset + k]);
            assert(ext.reverse().drop_first() =~= pre.reverse());
            assert(le_val(ext.reverse()) == data@[offset + k] + 256 * le_val(pre.reverse()));
            assert(pow256(k as nat + 1) == 256 * pow256(k as nat));
            assert(acc * 256 + b < 256 * pow256(k as nat)) by (nonlinear_arith)
                requires
                    acc < pow256(k as nat),
                    b < 256,
            ;
            assert(pow256(k as nat + 1) <= pow256(8)) by {
                lemma_pow256_le(k as nat + 1, 8);
            }
        }
        acc = acc * 256 + (b as u64);
        k = k + 1;
    }
    acc
}

/// Reinterprets a `w`-byte unsigned value as a two's-complement signed one.
fn reinterpret_signed(n: u64, w: usize) -> (r: i64)
    requires
        w == 1 || w == 2 || w == 4 || w == 8,
        n < pow256(w as nat),
    ensures
        r == to_signed(n as nat, w as nat),
{
    proof {
        lemma_pow256_widths();
    }
    if w == 1 {
        if n < 0x80 {
            n as i64
        } else {
            (n as i64) - 0x100
        }
    } else if w == 2 {
        if n < 0x8000 {
            n as i64
        } else {
            (n as i64) - 0x10000
        }
    } else if w == 4 {
        if n < 0x8000_0000 {
            n as i64
        } else {
            (n as i64) - 0x1_0000_0000
        }
    } else {
        if n < 0x8000_0000_0000_0000 {
            n as i64
        } else {
            -((u64::MAX - n) as i64) - 1
        }
    }
}

impl DataType {
    /// Reads a value of this type from `data` at `offset` with the given
    /// byte order. Fails, without touching any byte, exactly when the value
    /// would extend past the end of the buffer.
    pub fn read_value(&self, data: &[u8], offset: usize, endianness: Endianness) -> (r: Option<
        DecodedValue,
    >)
        ensures
            r is Some <==> offset + self.width() <= data@.len(),
            r is Some ==> r->0 == decode_model(
                *self,
                data@.subrange(offset as int, offset + self.width()),
                endianness,
            ),
    {
        let w = self.size();
        let dlen = data.len();
        match offset.checked_add(w) {
            None => {
                return None;
            },
            Some(end) => {
                if end > dlen {
                    return None;
                }
            },
        }
        let ghost window = data@.subrange(offset as int, offset + w);
        let n = match endianness {
            Endianness::Little => assemble_le(data, offset, w),
            Endianness::Big => assemble_be(data, offset, w),
        };
        proof {
            assert(n == assembled(window, endianness));
            lemma_le_val_bound(window);
            lemma_le_val_bound(window.reverse());
            lemma_pow256_widths();
            lemma_pow256_le(w as nat, 8);
        }
        Some(
            match self {
                DataType::U8 => DecodedValue::Unsigned(n),
                DataType::U16 => DecodedValue::Unsigned(n),
                DataType::U32 => DecodedValue::Unsigned(n),
                DataType::U64 => DecodedValue::Unsigned(n),
                DataType::I8 => DecodedValue::Signed(reinterpret_signed(n, 1)),
                DataType::I16 => DecodedValue::Signed(reinterpret_signed(n, 2)),
                DataType::I32 => DecodedValue::Signed(reinterpret_signed(n, 4)),
                DataType::I64 => DecodedValue::Signed(reinterpret_signed(n, 8)),
                DataType::F32 => DecodedValue::Float32Bits(n as u32),
                DataType::F64 => DecodedValue::Float64Bits(n),
            },
        )
    }
}

/// Law: over one in-bounds byte window, decoding big-endian equals decoding
/// the byte-reversed window little-endian, and the two byte orders agree on
/// every one-byte type.
pub proof fn lemma_decode_endianness(t: DataType, bs: Seq<u8>)
    requires
        bs.len() == t.width(),
    ensures
        decode_model(t, bs, Endianness::Big) == decode_model(t, bs.reverse(), Endianness::Little),
        t.width() == 1 ==> decode_model(t, bs, Endianness::Big) == decode_model(
            t,
            bs,
            Endianness::Little,
        ),
{
    assert(assembled(bs, Endianness::Big) == assembled(bs.reverse(), Endianness::Little));
    if t.width() == 1 {
        assert(bs.reverse() =~= bs);
    }
}

} // verus!
