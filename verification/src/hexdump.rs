//! The hex+ASCII payload dump: sixteen bytes per line, each line carrying a
//! four-digit hexadecimal offset, the bytes in two-digit hex (with an extra
//! space after the eighth byte), padding that aligns short final lines, and a
//! printable-ASCII rendering of the same bytes.
use vstd::prelude::*;

use crate::textfmt::{
    chars_to_string, hex2, hex_pad4, push_hex2, push_hex_pad4,
};

verus! {

/// The printable rendering of one byte: itself if in `0x20..=0x7e`, else `.`.
pub open spec fn ascii_char(b: u8) -> char {
    if 0x20 <= b && b < 0x7f {
        b as char
    } else {
        '.'
    }
}

/// `n` space characters.
pub open spec fn spaces(n: int) -> Seq<char>
    decreases n,
{
    if n <= 0 {
        Seq::empty()
    } else {
        spaces(n - 1).push(' ')
    }
}

/// The hex column for one dump line: every byte as two hex digits followed by
/// a space, with one extra space after the eighth byte.
pub open spec fn dump_hex_col(line: Seq<u8>) -> Seq<char>
    decreases line.len(),
{
    if line.len() == 0 {
        Seq::empty()
    } else {
        dump_hex_col(line.drop_last()) + hex2(line.last() as int) + seq![' '] + (if line.len() == 8 {
            seq![' ']
        } else {
            Seq::empty()
        })
    }
}

/// The ASCII column for one dump line.
pub open spec fn dump_ascii_col(line: Seq<u8>) -> Seq<char>
    decreases line.len(),
{
    if line.len() == 0 {
        Seq::empty()
    } else {
        dump_ascii_col(line.drop_last()).push(ascii_char(line.last()))
    }
}

/// Alignment padding after the hex column of a line of `len` bytes: it fills
/// the hex column to its full width of 49 characters (16 byte groups of 3
/// plus the extra space after the eighth byte), so the ASCII column starts
/// at the same offset on every line.
pub open spec fn dump_padding(len: int) -> Seq<char> {
    if len < 16 {
        spaces((16 - len) * 3 + (if len > 7 {
            0int
        } else {
            1int
        }))
    } else {
        Seq::empty()
    }
}

/// One dump line for the bytes of `p` starting at `offset`.
pub open spec fn spec_dump_line(p: Seq<u8>, offset: int) -> Seq<char>
    recommends
        0 <= offset < p.len(),
{
    let end = if offset + 16 <= p.len() {
        offset + 16
    } else {
        p.len() as int
    };
    let line = p.subrange(offset, end);
    hex_pad4(offset) + seq![' ', ' '] + dump_hex_col(line) + dump_padding(line.len() as int)
        + seq![' '] + dump_ascii_col(line) + seq!['\n']
}

/// The dump of `p` from `offset` on, one line per sixteen bytes.
pub open spec fn spec_dump_from(p: Seq<u8>, offset: int) -> Seq<char>
    decreases (p.len() - offset + 15) / 16,
{
    if offset < 0 || offset >= p.len() {
        Seq::empty()
    } else {
        spec_dump_line(p, offset) + spec_dump_from(p, offset + 16)
    }
}

/// The full hex+ASCII dump of a payload.
pub open spec fn spec_payload_dump(p: Seq<u8>) -> Seq<char> {
    spec_dump_from(p, 0)
}

/// Appends one dump line for `payload[offset..offset+16]` (clipped at the
/// payload's end) to `out`.
fn push_dump_line(out: &mut Vec<char>, payload: &[u8], offset: usize)
    requires
        offset < payload@.len(),
    ensures
        final(out)@ == old(out)@ + spec_dump_line(payload@, offset as int),
{
    let len = payload.len();
    let end = if len - offset > 16 {
        offset + 16
    } else {
        len
    };
    let ghost line = payload@.subrange(offset as int, end as int);
    push_hex_pad4(out, offset);
    out.push(' ');
    out.push(' ');
    let ghost base = out@;
    assert(base =~= old(out)@ + hex_pad4(offset as int) + seq![' ', ' ']);
    assert(out@ =~= base + dump_hex_col(line.subrange(0, 0)));
    let mut i: usize = offset;
    while i < end
        invariant
            offset <= i <= end <= payload@.len(),
            end - offset <= 16,
            line == payload@.subrange(offset as int, end as int),
            out@ == base + dump_hex_col(line.subrange(0, i - offset)),
        decreases end - i,
    {
        push_hex2(out, payload[i]);
        out.push(' ');
        if i - offset == 7 {
            out.push(' ');
        }
        proof {
            let k = (i - offset) as int;
            assert(line.subrange(0, k + 1).drop_last() =~= line.subrange(0, k));
            assert(line.subrange(0, k + 1).last() == payload@[i as int]);
            assert(out@ =~= base + dump_hex_col(line.subrange(0, k + 1)));
        }
        i += 1;
    }
    assert(line.subrange(0, line.len() as int) =~= line);
    let linelen = end - offset;
    if linelen < 16 {
        let pad = (16 - linelen) * 3 + (if linelen > 7 {
            0
        } else {
            1
        });
        let ghost base2 = out@;
        let mut j: usize = 0;
        while j < pad
            invariant
                j <= pad,
                out@ == base2 + spaces(j as int),
            decreases pad - j,
        {
            out.push(' ');
            j += 1;
        }
        assert(out@ =~= base + dump_hex_col(line) + dump_padding(line.len() as int));
    } else {
        assert(out@ =~= base + dump_hex_col(line) + dump_padding(line.len() as int));
    }
    out.push(' ');
    let ghost base3 = out@;
    assert(base3 =~= base + dump_hex_col(line) + dump_padding(line.len() as int) + seq![' ']);
    assert(out@ =~= base3 + dump_ascii_col(line.subrange(0, 0)));
    let mut i: usize = offset;
    while i < end
        invariant
            offset <= i <= end <= payload@.len(),
            line == payload@.subrange(offset as int, end as int),
            out@ == base3 + dump_ascii_col(line.subrange(0, i - offset)),
        decreases end - i,
    {
        let b = payload[i];
        if 0x20 <= b && b < 0x7f {
            out.push(b as char);
        } else {
            out.push('.');
        }
        proof {
            let k = (i - offset) as int;
            assert(line.subrange(0, k + 1).drop_last() =~= line.subrange(0, k));
            assert(line.subrange(0, k + 1).last() == payload@[i as int]);
            assert(out@ =~= base3 + dump_ascii_col(line.subrange(0, k + 1)));
        }
        i += 1;
    }
    out.push('\n');
    assert(out@ =~= old(out)@ + spec_dump_line(payload@, offset as int));
}

/// Builds the hex+ASCII dump of `payload`: lines of sixteen bytes, each with
/// offset, hex and ASCII columns, terminated by a line break. Deterministic
/// in the payload; a zero-length payload gives the empty string.
pub fn get_payload_data(payload: &[u8]) -> (r: String)
    ensures
        r@ == spec_payload_dump(payload@),
{
    let mut out: Vec<char> = Vec::new();
    let len = payload.len();
    let mut offset: usize = 0;
    assert(out@ + spec_dump_from(payload@, 0) =~= spec_payload_dump(payload@));
    while offset < len
        invariant
            len == payload@.len(),
            out@ + spec_dump_from(payload@, offset as int) == spec_payload_dump(payload@),
        decreases len - offset,
    {
        push_dump_line(&mut out, payload, offset);
        proof {
            assert(out@ + spec_dump_from(payload@, offset + 16) =~= spec_payload_dump(payload@));
        }
        offset = if len - offset > 16 {
            offset + 16
        } else {
            len
        };
    }
    assert(out@ =~= spec_payload_dump(payload@));
    chars_to_string(&out)
}

} // verus!
