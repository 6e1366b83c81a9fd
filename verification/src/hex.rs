//! The inspector formatter: fixed-width hexadecimal rows with an aligned
//! ASCII column. A pure function of the inspected bytes.

use vstd::prelude::*;
use crate::text::{ascii_to_string, chars_of, is_ascii_bytes};

verus! {

/// ASCII code of one hexadecimal digit value, lower case.
pub open spec fn hex_digit(d: u8) -> u8 {
    if d < 10 {
        (48 + d) as u8
    } else {
        (87 + d) as u8
    }
}

/// One byte's cell: two hexadecimal digits and a space.
pub open spec fn byte_hex(b: u8) -> Seq<u8> {
    seq![hex_digit(b / 16), hex_digit(b % 16), 32u8]
}

/// How a byte shows in the ASCII column: itself where graphic or the
/// space character, `.` otherwise.
pub open spec fn ascii_cell(b: u8) -> u8 {
    if (33 <= b && b <= 126) || b == 32 {
        b
    } else {
        46u8
    }
}

/// The hexadecimal cells of a row's bytes, in order.
pub open spec fn hex_cells(row: Seq<u8>) -> Seq<u8>
    decreases row.len(),
{
    if row.len() == 0 {
        Seq::empty()
    } else {
        byte_hex(row[0]) + hex_cells(row.skip(1))
    }
}

/// Blank cells padding a short trailing row, three columns per cell.
pub open spec fn pad_cells(n: int) -> Seq<u8> {
    Seq::new((3 * n) as nat, |_i: int| 32u8)
}

/// One full row: cells, padding to sixteen columns, the separator, the
/// ASCII column, and a line break.
pub open spec fn row_text(row: Seq<u8>) -> Seq<u8> {
    hex_cells(row) + pad_cells(16 - row.len()) + seq![32u8, 124u8, 32u8] + row.map(
        |_i: int, b: u8| ascii_cell(b),
    ) + seq![10u8]
}

/// The whole rendering: sixteen bytes a row, a short final row padded.
pub open spec fn hex_text(data: Seq<u8>) -> Seq<u8>
    decreases data.len(),
{
    if data.len() == 0 {
        Seq::empty()
    } else if data.len() <= 16 {
        row_text(data)
    } else {
        row_text(data.take(16)) + hex_text(data.skip(16))
    }
}

/// Appending a byte to a row appends its cell.
proof fn lemma_hex_cells_push(s: Seq<u8>, x: u8)
    ensures
        hex_cells(s.push(x)) == hex_cells(s) + byte_hex(x),
    decreases s.len(),
{
    if s.len() == 0 {
        assert(s.push(x)[0] == x);
        assert(s.push(x).skip(1) =~= Seq::<u8>::empty());
        assert(hex_cells(Seq::<u8>::empty()) == Seq::<u8>::empty());
        assert(hex_cells(s) == Seq::<u8>::empty());
        assert(hex_cells(s.push(x)) =~= hex_cells(s) + byte_hex(x));
    } else {
        assert(s.push(x).skip(1) =~= s.skip(1).push(x));
        lemma_hex_cells_push(s.skip(1), x);
        assert(byte_hex(s[0]) + (hex_cells(s.skip(1)) + byte_hex(x)) =~= (byte_hex(s[0])
            + hex_cells(s.skip(1))) + byte_hex(x));
    }
}

/// Renders the bytes as rows of sixteen hexadecimal cells, padded so the
/// ASCII column stays aligned, with printable bytes shown literally and
/// all others as `.`.
pub fn format_hex(data: &Vec<u8>) -> (r: String)
    ensures
        r@ == chars_of(hex_text(data@)),
{
    let mut out: Vec<u8> = Vec::new();
    let mut pos: usize = 0;
    proof {
        assert(data@.skip(0) =~= data@);
        assert(out@ + hex_text(data@) =~= hex_text(data@));
    }
    while pos < data.len()
        invariant
            pos <= data@.len(),
            is_ascii_bytes(out@),
            hex_text(data@) == out@ + hex_text(data@.skip(pos as int)),
        decreases data@.len() - pos,
    {
        let ghost tail = data@.skip(pos as int);
        let rowlen: usize = if data.len() - pos < 16 {
            data.len() - pos
        } else {
            16
        };
        let rowend: usize = pos + rowlen;
        let ghost row = tail.take(rowlen as int);
        proof {
            if tail.len() <= 16 {
                assert(row =~= tail);
            }
        }
        let ghost base = out@;
        // Hexadecimal cells.
        let mut src: usize = pos;
        while src < rowend
            invariant
                pos <= src <= rowend,
                rowend == pos + rowlen,
                rowend <= data@.len(),
                rowlen <= 16,
                row == data@.skip(pos as int).take(rowlen as int),
                is_ascii_bytes(out@),
                out@ == base + hex_cells(row.take(src - pos)),
            decreases rowend - src,
        {
            let b = data[src];
            let ghost j = src - pos;
            proof {
                assert(row[j as int] == data@[src as int]);
            }
            let hi = b / 16;
            let lo = b % 16;
            out.push(if hi < 10 {
                48 + hi
            } else {
                87 + hi
            });
            out.push(if lo < 10 {
                48 + lo
            } else {
                87 + lo
            });
            out.push(32);
            proof {
                lemma_hex_cells_push(row.take(j as int), row[j as int]);
                assert(row.take(j as int).push(row[j as int]) =~= row.take(j + 1));
                assert(out@ =~= base + hex_cells(row.take(j + 1)));
            }
            src = src + 1;
        }
        proof {
            assert(row.take(rowlen as int) =~= row);
        }
        // Padding for a short trailing row.
        let ghost base2 = out@;
        let mut p: usize = 0;
        while p < 3 * (16 - rowlen)
            invariant
                p <= 3 * (16 - rowlen),
                rowlen <= 16,
                is_ascii_bytes(out@),
                out@ == base2 + pad_cells(16 - rowlen as int).take(p as int),
            decreases 3 * (16 - rowlen) - p,
        {
            out.push(32);
            proof {
                assert(pad_cells(16 - rowlen as int).take(p as int).push(32u8) =~= pad_cells(
                    16 - rowlen as int,
                ).take(p + 1));
            }
            p = p + 1;
        }
        proof {
            assert(pad_cells(16 - rowlen as int).take(3 * (16 - rowlen as int)) =~= pad_cells(
                16 - rowlen as int,
            ));
        }
        // Separator.
        out.push(32);
        out.push(124);
        out.push(32);
        // ASCII column.
        let ghost base3 = out@;
        let mut src2: usize = pos;
        while src2 < rowend
            invariant
                pos <= src2 <= rowend,
                rowend == pos + rowlen,
                rowend <= data@.len(),
                rowlen <= 16,
                row == data@.skip(pos as int).take(rowlen as int),
                is_ascii_bytes(out@),
                out@ == base3 + row.map(|_i: int, b: u8| ascii_cell(b)).take(src2 - pos),
            decreases rowend - src2,
        {
            let b = data[src2];
            let ghost q = src2 - pos;
            proof {
                assert(row[q as int] == data@[src2 as int]);
            }
            if (33 <= b && b <= 126) || b == 32 {
                out.push(b);
            } else {
                out.push(46);
            }
            proof {
                assert(row.map(|_i: int, c: u8| ascii_cell(c)).take(q as int).push(
                    ascii_cell(row[q as int]),
                ) =~= row.map(|_i: int, c: u8| ascii_cell(c)).take(q + 1));
                assert(out@ =~= base3 + row.map(|_i: int, c: u8| ascii_cell(c)).take(q + 1));
            }
            src2 = src2 + 1;
        }
        proof {
            let m = row.map(|_i: int, c: u8| ascii_cell(c));
            assert(m.take(m.len() as int) =~= m);
            assert(row.map(|_i: int, b: u8| ascii_cell(b)) == m);
        }
        out.push(10);
        proof {
            assert(out@ =~= base + row_text(row));
            assert(tail.skip(rowlen as int) =~= data@.skip(pos + rowlen));
            if tail.len() <= 16 {
                assert(hex_text(tail) == row_text(row));
                assert(tail.skip(rowlen as int).len() == 0);
                assert(hex_text(data@.skip(pos + rowlen)) =~= Seq::<u8>::empty());
                assert(out@ + hex_text(data@.skip(pos + rowlen)) =~= out@);
                assert(hex_text(data@) =~= out@ + hex_text(data@.skip(pos + rowlen)));
            } else {
                assert(hex_text(tail) == row_text(row) + hex_text(tail.skip(16)));
                assert(hex_text(data@) =~= out@ + hex_text(data@.skip(pos + rowlen)));
            }
        }
        pos = pos + rowlen;
    }
    proof {
        assert(data@.skip(pos as int) =~= Seq::<u8>::empty());
        assert(out@ =~= hex_text(data@));
    }
    ascii_to_string(&out)
}

} // verus!
