//! Reading a rendered target back from a buffer whose rows are padded.

use vstd::prelude::*;

verus! {

/// The number of bytes to which the rows of a copy from a texture to a
/// buffer are aligned.
pub const ROW_ALIGNMENT: u32 = 256;

/// The smallest multiple of the row alignment that is not below `bytes`.
pub open spec fn padded_len(bytes: int) -> int {
    if bytes % (ROW_ALIGNMENT as int) == 0 {
        bytes
    } else {
        bytes - bytes % (ROW_ALIGNMENT as int) + ROW_ALIGNMENT
    }
}

/// The padded length of a row lies on the alignment, holds the row, and is
/// less than one alignment longer.
pub proof fn lemma_padded_len(bytes: int)
    requires
        0 <= bytes,
    ensures
        padded_len(bytes) % (ROW_ALIGNMENT as int) == 0,
        bytes <= padded_len(bytes) < bytes + ROW_ALIGNMENT,
{
    let a = ROW_ALIGNMENT as int;
    let r = bytes % a;
    vstd::arithmetic::div_mod::lemma_fundamental_div_mod(bytes, a);
    vstd::arithmetic::div_mod::lemma_mod_bound(bytes, a);
    if r != 0 {
        let q = bytes / a;
        assert(bytes - r + a == a * (q + 1)) by (nonlinear_arith)
            requires
                bytes == a * q + r,
        ;
        vstd::arithmetic::div_mod::lemma_mod_multiples_basic(q + 1, a);
        assert(a * (q + 1) == (q + 1) * a) by (nonlinear_arith);
    }
}

/// The length in bytes of a padded row of `width` pixels of
/// `bytes_per_pixel` bytes each, or `None` where it does not fit 32 bits.
pub fn padded_bytes_per_row(width: u32, bytes_per_pixel: u32) -> (r: Option<u32>)
    ensures
        match r {
            Some(n) => n == padded_len(width * bytes_per_pixel),
            None => padded_len(width * bytes_per_pixel) > u32::MAX,
        },
{
    assert(width * bytes_per_pixel <= 0xFFFF_FFFF * 0xFFFF_FFFF) by (nonlinear_arith)
        requires
            0 <= width <= 0xFFFF_FFFF,
            0 <= bytes_per_pixel <= 0xFFFF_FFFF,
    ;
    let bytes: u64 = width as u64 * bytes_per_pixel as u64;
    let rest: u64 = bytes % (ROW_ALIGNMENT as u64);
    proof {
        vstd::arithmetic::div_mod::lemma_mod_decreases(bytes as nat, ROW_ALIGNMENT as nat);
    }
    let padded: u64 = if rest == 0 {
        bytes
    } else {
        bytes - rest + ROW_ALIGNMENT as u64
    };
    if padded > u32::MAX as u64 {
        None
    } else {
        Some(padded as u32)
    }
}

/// Whether `data` holds `rows` rows of `row` bytes each, one at every
/// `stride` bytes.
pub open spec fn holds_rows(data: Seq<u8>, row: int, stride: int, rows: int) -> bool {
    rows == 0 || (row <= stride && (rows - 1) * stride + row <= data.len())
}

/// The rows of a padded buffer without their padding: `rows` rows of `row`
/// bytes each, one after the other.
pub open spec fn unpadded(data: Seq<u8>, row: int, stride: int, rows: int) -> Seq<u8>
    decreases rows,
{
    if rows <= 0 {
        Seq::empty()
    } else {
        unpadded(data, row, stride, rows - 1) + data.subrange(
            (rows - 1) * stride,
            (rows - 1) * stride + row,
        )
    }
}

/// The rows without their padding are as long as their bytes together.
pub proof fn lemma_unpadded_len(data: Seq<u8>, row: int, stride: int, rows: int)
    requires
        0 <= row,
        0 <= stride,
        0 <= rows,
        holds_rows(data, row, stride, rows),
    ensures
        unpadded(data, row, stride, rows).len() == rows * row,
    decreases rows,
{
    if rows > 0 {
        assert(holds_rows(data, row, stride, rows - 1)) by {
            if rows > 1 {
                assert((rows - 2) * stride + row <= (rows - 1) * stride + row) by (nonlinear_arith)
                    requires
                        0 <= stride,
                ;
            }
        }
        lemma_unpadded_len(data, row, stride, rows - 1);
        assert(0 <= (rows - 1) * stride) by (nonlinear_arith)
            requires
                0 <= stride,
                1 <= rows,
        ;
        let start = (rows - 1) * stride;
        let part = data.subrange(start, start + row);
        assert(part.len() == row);
        assert(unpadded(data, row, stride, rows) == unpadded(data, row, stride, rows - 1) + part);
        assert(rows * row == (rows - 1) * row + row) by (nonlinear_arith);
    } else {
        assert(rows * row == 0) by (nonlinear_arith)
            requires
                rows == 0,
        ;
    }
}

/// Copies `rows` rows of `row` bytes each out of `data`, where a row
/// begins every `stride` bytes. `None` where `data` does not hold them.
pub fn unpad_rows(data: &[u8], row: usize, stride: usize, rows: usize) -> (r: Option<Vec<u8>>)
    ensures
        match r {
            Some(v) => holds_rows(data@, row as int, stride as int, rows as int) && v@ == unpadded(
                data@,
                row as int,
                stride as int,
                rows as int,
            ),
            None => !holds_rows(data@, row as int, stride as int, rows as int),
        },
{
    if rows == 0 {
        return Some(Vec::new());
    }
    if row > stride {
        return None;
    }
    let len: usize = data.len();
    let last: usize = match (rows - 1).checked_mul(stride) {
        Some(n) => n,
        None => {
            return None;
        },
    };
    if last > len || row > len - last {
        return None;
    }
    let mut out: Vec<u8> = Vec::new();
    let mut k: usize = 0;
    while k < rows
        invariant
            k <= rows,
            row <= stride,
            len == data@.len(),
            last == (rows - 1) * stride,
            last + row <= len,
            out@ == unpadded(data@, row as int, stride as int, k as int),
        decreases rows - k,
    {
        assert(k * stride <= (rows - 1) * stride) by (nonlinear_arith)
            requires
                k <= rows - 1,
                0 <= stride,
        ;
        let start: usize = k * stride;
        let mut c: usize = 0;
        let ghost before = out@;
        assert(before + data@.subrange(start as int, start as int) == before);
        while c < row
            invariant
                c <= row,
                len == data@.len(),
                start + row <= len,
                out@ == before + data@.subrange(start as int, start + c),
            decreases row - c,
        {
            out.push(data[start + c]);
            proof {
                assert(data@.subrange(start as int, start + c + 1) == data@.subrange(
                    start as int,
                    start + c,
                ).push(data@[start + c]));
            }
            c = c + 1;
        }
        k = k + 1;
    }
    Some(out)
}

} // verus!
