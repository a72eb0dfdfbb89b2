//! Rows of pixels: cutting a rectangle out of a buffer whose rows are padded,
//! and laying tight rows into one.

use vstd::prelude::*;

verus! {

/// `n` rows of `row_bytes` bytes, the first at offset `at` and each next one
/// `stride` bytes further, one behind the other.
pub open spec fn packed_rows(
    src: Seq<u8>,
    at: int,
    stride: int,
    row_bytes: int,
    n: int,
) -> Seq<u8>
    decreases n,
{
    if n <= 0 {
        Seq::empty()
    } else {
        packed_rows(src, at, stride, row_bytes, n - 1) + src.subrange(
            at + (n - 1) * stride,
            at + (n - 1) * stride + row_bytes,
        )
    }
}

/// Whether `n` such rows lie within a buffer of `len` bytes.
pub open spec fn rows_fit(len: int, at: int, stride: int, row_bytes: int, n: int) -> bool {
    n <= 0 || at + (n - 1) * stride + row_bytes <= len
}

/// A row that is not the last ends no later than the last.
proof fn lemma_row_fits(len: int, at: int, stride: int, row_bytes: int, n: int, row: int)
    requires
        rows_fit(len, at, stride, row_bytes, n),
        0 <= row < n,
        0 <= stride,
    ensures
        0 <= row * stride,
        at + row * stride + row_bytes <= len,
{
    assert(0 <= row * stride <= (n - 1) * stride) by (nonlinear_arith)
        requires
            0 <= row < n,
            0 <= stride,
    ;
}

/// How many bytes packed rows take.
pub proof fn lemma_packed_len(src: Seq<u8>, at: int, stride: int, row_bytes: int, n: int)
    requires
        0 <= at,
        0 <= stride,
        0 <= row_bytes,
        0 <= n,
        rows_fit(src.len() as int, at, stride, row_bytes, n),
    ensures
        packed_rows(src, at, stride, row_bytes, n).len() == row_bytes * n,
    decreases n,
{
    if n > 0 {
        lemma_row_fits(src.len() as int, at, stride, row_bytes, n, n - 1);
        if n > 1 {
            lemma_row_fits(src.len() as int, at, stride, row_bytes, n, n - 2);
        }
        lemma_packed_len(src, at, stride, row_bytes, n - 1);
        assert(row_bytes * (n - 1) + row_bytes == row_bytes * n) by (nonlinear_arith);
    } else {
        assert(row_bytes * n == 0) by (nonlinear_arith)
            requires
                n == 0,
        ;
    }
}

/// Copies `rows` rows out of `src` into a tightly packed buffer.
pub fn copy_rows(src: &[u8], at: usize, stride: usize, row_bytes: usize, rows: usize) -> (out: Vec<
    u8,
>)
    requires
        rows_fit(src@.len() as int, at as int, stride as int, row_bytes as int, rows as int),
    ensures
        out@ == packed_rows(src@, at as int, stride as int, row_bytes as int, rows as int),
{
    let len: usize = src.len();
    let mut out: Vec<u8> = Vec::new();
    let mut row: usize = 0;
    let mut off: usize = at;
    assert(0 * stride == 0) by (nonlinear_arith);
    while row < rows
        invariant
            row <= rows,
            len == src@.len(),
            rows_fit(len as int, at as int, stride as int, row_bytes as int, rows as int),
            row < rows ==> off == at + row * stride,
            out@ == packed_rows(src@, at as int, stride as int, row_bytes as int, row as int),
        decreases rows - row,
    {
        proof {
            lemma_row_fits(
                len as int,
                at as int,
                stride as int,
                row_bytes as int,
                rows as int,
                row as int,
            );
        }
        let mut i: usize = 0;
        let ghost before = out@;
        while i < row_bytes
            invariant
                i <= row_bytes,
                len == src@.len(),
                off + row_bytes <= len,
                out@ == before + src@.subrange(off as int, off + i),
            decreases row_bytes - i,
        {
            out.push(src[off + i]);
            i = i + 1;
            assert(out@ =~= before + src@.subrange(off as int, off + i));
        }
        if row + 1 < rows {
            proof {
                lemma_row_fits(
                    len as int,
                    at as int,
                    stride as int,
                    row_bytes as int,
                    rows as int,
                    row + 1,
                );
                assert((row + 1) * stride == row * stride + stride) by (nonlinear_arith);
            }
            off = off + stride;
        }
        row = row + 1;
    }
    out
}

/// A buffer after the first rows of another were laid into it, each at its own
/// stride; every other byte is as it was.
pub open spec fn blitted(
    dst: Seq<u8>,
    dst_stride: int,
    src: Seq<u8>,
    src_stride: int,
    row_bytes: int,
    rows: int,
) -> Seq<u8>
    decreases rows,
{
    if rows <= 0 {
        dst
    } else {
        let before = blitted(dst, dst_stride, src, src_stride, row_bytes, rows - 1);
        let at = (rows - 1) * dst_stride;
        before.subrange(0, at) + src.subrange(
            (rows - 1) * src_stride,
            (rows - 1) * src_stride + row_bytes,
        ) + before.subrange(at + row_bytes, before.len() as int)
    }
}

/// Laying rows into a buffer keeps its length.
pub proof fn lemma_blitted_len(
    dst: Seq<u8>,
    dst_stride: int,
    src: Seq<u8>,
    src_stride: int,
    row_bytes: int,
    rows: int,
)
    requires
        0 <= dst_stride,
        0 <= src_stride,
        0 <= row_bytes,
        0 <= rows,
        rows_fit(dst.len() as int, 0, dst_stride, row_bytes, rows),
        rows_fit(src.len() as int, 0, src_stride, row_bytes, rows),
    ensures
        blitted(dst, dst_stride, src, src_stride, row_bytes, rows).len() == dst.len(),
    decreases rows,
{
    if rows > 0 {
        lemma_row_fits(dst.len() as int, 0, dst_stride, row_bytes, rows, rows - 1);
        lemma_row_fits(src.len() as int, 0, src_stride, row_bytes, rows, rows - 1);
        if rows > 1 {
            lemma_row_fits(dst.len() as int, 0, dst_stride, row_bytes, rows, rows - 2);
            lemma_row_fits(src.len() as int, 0, src_stride, row_bytes, rows, rows - 2);
        }
        lemma_blitted_len(dst, dst_stride, src, src_stride, row_bytes, rows - 1);
    }
}

/// Copies rows of `src` into `dst`, whose rows may be padded differently.
pub fn blit_rows(
    dst: &mut Vec<u8>,
    dst_stride: usize,
    src: &[u8],
    src_stride: usize,
    row_bytes: usize,
    rows: usize,
)
    requires
        rows_fit(old(dst)@.len() as int, 0, dst_stride as int, row_bytes as int, rows as int),
        rows_fit(src@.len() as int, 0, src_stride as int, row_bytes as int, rows as int),
    ensures
        final(dst)@ == blitted(
            old(dst)@,
            dst_stride as int,
            src@,
            src_stride as int,
            row_bytes as int,
            rows as int,
        ),
{
    let ghost start = dst@;
    let dlen: usize = dst.len();
    let slen: usize = src.len();
    let mut row: usize = 0;
    let mut d: usize = 0;
    let mut s: usize = 0;
    assert(0 * dst_stride == 0 && 0 * src_stride == 0) by (nonlinear_arith);
    while row < rows
        invariant
            row <= rows,
            dlen == start.len(),
            slen == src@.len(),
            dst@.len() == dlen,
            rows_fit(dlen as int, 0, dst_stride as int, row_bytes as int, rows as int),
            rows_fit(slen as int, 0, src_stride as int, row_bytes as int, rows as int),
            row < rows ==> d == row * dst_stride && s == row * src_stride,
            dst@ == blitted(
                start,
                dst_stride as int,
                src@,
                src_stride as int,
                row_bytes as int,
                row as int,
            ),
        decreases rows - row,
    {
        proof {
            lemma_row_fits(
                dlen as int,
                0,
                dst_stride as int,
                row_bytes as int,
                rows as int,
                row as int,
            );
            lemma_row_fits(
                slen as int,
                0,
                src_stride as int,
                row_bytes as int,
                rows as int,
                row as int,
            );
        }
        let ghost before = dst@;
        let mut i: usize = 0;
        while i < row_bytes
            invariant
                i <= row_bytes,
                dlen == before.len(),
                slen == src@.len(),
                d + row_bytes <= dlen,
                s + row_bytes <= slen,
                dst@ == before.subrange(0, d as int) + src@.subrange(s as int, s + i)
                    + before.subrange(d + i, dlen as int),
            decreases row_bytes - i,
        {
            dst[d + i] = src[s + i];
            i = i + 1;
            assert(dst@ =~= before.subrange(0, d as int) + src@.subrange(s as int, s + i)
                + before.subrange(d + i, dlen as int));
        }
        assert(dst@ =~= blitted(
            start,
            dst_stride as int,
            src@,
            src_stride as int,
            row_bytes as int,
            row + 1,
        ));
        if row + 1 < rows {
            proof {
                lemma_row_fits(
                    dlen as int,
                    0,
                    dst_stride as int,
                    row_bytes as int,
                    rows as int,
                    row + 1,
                );
                lemma_row_fits(
                    slen as int,
                    0,
                    src_stride as int,
                    row_bytes as int,
                    rows as int,
                    row + 1,
                );
                assert((row + 1) * dst_stride == row * dst_stride + dst_stride)
                    by (nonlinear_arith);
                assert((row + 1) * src_stride == row * src_stride + src_stride)
                    by (nonlinear_arith);
            }
            d = d + dst_stride;
            s = s + src_stride;
        }
        row = row + 1;
    }
}

/// A row that was laid into a buffer can be read back from it.
proof fn lemma_blitted_row(
    dst: Seq<u8>,
    dst_stride: int,
    src: Seq<u8>,
    src_stride: int,
    row_bytes: int,
    rows: int,
    row: int,
)
    requires
        0 <= row_bytes <= dst_stride,
        0 <= src_stride,
        0 <= row < rows,
        rows_fit(dst.len() as int, 0, dst_stride, row_bytes, rows),
        rows_fit(src.len() as int, 0, src_stride, row_bytes, rows),
    ensures
        blitted(dst, dst_stride, src, src_stride, row_bytes, rows).subrange(
            row * dst_stride,
            row * dst_stride + row_bytes,
        ) == src.subrange(row * src_stride, row * src_stride + row_bytes),
    decreases rows,
{
    let (d, s) = (dst.len() as int, src.len() as int);
    lemma_row_fits(d, 0, dst_stride, row_bytes, rows, rows - 1);
    lemma_row_fits(s, 0, src_stride, row_bytes, rows, rows - 1);
    lemma_row_fits(d, 0, dst_stride, row_bytes, rows, row);
    lemma_row_fits(s, 0, src_stride, row_bytes, rows, row);
    if rows > 1 {
        lemma_row_fits(d, 0, dst_stride, row_bytes, rows, rows - 2);
        lemma_row_fits(s, 0, src_stride, row_bytes, rows, rows - 2);
    }
    lemma_blitted_len(dst, dst_stride, src, src_stride, row_bytes, rows - 1);
    let before = blitted(dst, dst_stride, src, src_stride, row_bytes, rows - 1);
    let after = blitted(dst, dst_stride, src, src_stride, row_bytes, rows);
    let at = (rows - 1) * dst_stride;
    if row < rows - 1 {
        lemma_blitted_row(dst, dst_stride, src, src_stride, row_bytes, rows - 1, row);
        assert(row * dst_stride + dst_stride <= at) by (nonlinear_arith)
            requires
                0 <= row < rows - 1,
                0 <= dst_stride,
                at == (rows - 1) * dst_stride,
        ;
        assert(after.subrange(row * dst_stride, row * dst_stride + row_bytes) =~= before.subrange(
            row * dst_stride,
            row * dst_stride + row_bytes,
        ));
    } else {
        assert(after.subrange(at, at + row_bytes) =~= src.subrange(
            row * src_stride,
            row * src_stride + row_bytes,
        ));
    }
}

proof fn lemma_same_rows(
    a: Seq<u8>,
    a_stride: int,
    b: Seq<u8>,
    b_stride: int,
    row_bytes: int,
    rows: int,
)
    requires
        forall|row: int|
            0 <= row < rows ==> #[trigger] a.subrange(row * a_stride, row * a_stride + row_bytes)
                == b.subrange(row * b_stride, row * b_stride + row_bytes),
    ensures
        packed_rows(a, 0, a_stride, row_bytes, rows) == packed_rows(
            b,
            0,
            b_stride,
            row_bytes,
            rows,
        ),
    decreases rows,
{
    if rows > 0 {
        lemma_same_rows(a, a_stride, b, b_stride, row_bytes, rows - 1);
        assert(a.subrange((rows - 1) * a_stride, (rows - 1) * a_stride + row_bytes) == b.subrange(
            (rows - 1) * b_stride,
            (rows - 1) * b_stride + row_bytes,
        ));
    }
}

/// A picture keeps its pixels on the way into a buffer with rows of another length:
/// read back, it is the picture that was laid in.
pub proof fn law_rows_survive_padding(
    dst: Seq<u8>,
    dst_stride: int,
    src: Seq<u8>,
    src_stride: int,
    row_bytes: int,
    rows: int,
)
    requires
        0 <= row_bytes <= dst_stride,
        0 <= src_stride,
        0 <= rows,
        rows_fit(dst.len() as int, 0, dst_stride, row_bytes, rows),
        rows_fit(src.len() as int, 0, src_stride, row_bytes, rows),
    ensures
        packed_rows(
            blitted(dst, dst_stride, src, src_stride, row_bytes, rows),
            0,
            dst_stride,
            row_bytes,
            rows,
        ) == packed_rows(src, 0, src_stride, row_bytes, rows),
{
    let out = blitted(dst, dst_stride, src, src_stride, row_bytes, rows);
    assert forall|row: int| 0 <= row < rows implies #[trigger] out.subrange(
        row * dst_stride,
        row * dst_stride + row_bytes,
    ) == src.subrange(row * src_stride, row * src_stride + row_bytes) by {
        lemma_blitted_row(dst, dst_stride, src, src_stride, row_bytes, rows, row);
    }
    lemma_same_rows(out, dst_stride, src, src_stride, row_bytes, rows);
}

/// Every byte of packed rows is the byte of its row and column, read at the stride.
pub proof fn law_packed_bytes(
    src: Seq<u8>,
    at: int,
    stride: int,
    row_bytes: int,
    n: int,
    row: int,
    col: int,
)
    requires
        0 <= at,
        0 <= stride,
        0 <= row < n,
        0 <= col < row_bytes,
        rows_fit(src.len() as int, at, stride, row_bytes, n),
    ensures
        packed_rows(src, at, stride, row_bytes, n).len() == row_bytes * n,
        0 <= row * row_bytes + col < row_bytes * n,
        packed_rows(src, at, stride, row_bytes, n)[row * row_bytes + col] == src[at + row * stride
            + col],
    decreases n,
{
    lemma_packed_len(src, at, stride, row_bytes, n);
    lemma_row_fits(src.len() as int, at, stride, row_bytes, n, row);
    lemma_row_fits(src.len() as int, at, stride, row_bytes, n, n - 1);
    if n > 1 {
        lemma_row_fits(src.len() as int, at, stride, row_bytes, n, n - 2);
    }
    assert(row_bytes * (n - 1) + row_bytes == row_bytes * n) by (nonlinear_arith);
    assert(row_bytes * row == row * row_bytes) by (nonlinear_arith);
    assert(0 <= row * row_bytes) by (nonlinear_arith)
        requires
            0 <= row,
            0 < row_bytes,
    ;
    lemma_packed_len(src, at, stride, row_bytes, n - 1);
    if row < n - 1 {
        assert(row * row_bytes + row_bytes <= row_bytes * (n - 1)) by (nonlinear_arith)
            requires
                row < n - 1,
                0 < row_bytes,
        ;
        law_packed_bytes(src, at, stride, row_bytes, n - 1, row, col);
    }
}

/// Laying rows into a buffer leaves every byte between and behind them as it was.
pub proof fn law_padding_is_untouched(
    dst: Seq<u8>,
    dst_stride: int,
    src: Seq<u8>,
    src_stride: int,
    row_bytes: int,
    rows: int,
    i: int,
)
    requires
        0 <= row_bytes,
        0 <= dst_stride,
        0 <= src_stride,
        0 <= rows,
        0 <= i < dst.len(),
        rows_fit(dst.len() as int, 0, dst_stride, row_bytes, rows),
        rows_fit(src.len() as int, 0, src_stride, row_bytes, rows),
        forall|row: int|
            0 <= row < rows ==> !(#[trigger] (row * dst_stride) <= i < row * dst_stride + row_bytes),
    ensures
        blitted(dst, dst_stride, src, src_stride, row_bytes, rows).len() == dst.len(),
        blitted(dst, dst_stride, src, src_stride, row_bytes, rows)[i] == dst[i],
    decreases rows,
{
    lemma_blitted_len(dst, dst_stride, src, src_stride, row_bytes, rows);
    if rows > 0 {
        let (d, s) = (dst.len() as int, src.len() as int);
        lemma_row_fits(d, 0, dst_stride, row_bytes, rows, rows - 1);
        lemma_row_fits(s, 0, src_stride, row_bytes, rows, rows - 1);
        if rows > 1 {
            lemma_row_fits(d, 0, dst_stride, row_bytes, rows, rows - 2);
            lemma_row_fits(s, 0, src_stride, row_bytes, rows, rows - 2);
        }
        lemma_blitted_len(dst, dst_stride, src, src_stride, row_bytes, rows - 1);
        law_padding_is_untouched(dst, dst_stride, src, src_stride, row_bytes, rows - 1, i);
        let at = (rows - 1) * dst_stride;
        assert(!(at <= i < at + row_bytes));
    }
}

} // verus!
