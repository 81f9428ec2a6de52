//! Textual forms of addresses: MAC addresses as colon-separated lower-case
//! hex pairs, IPv4 as dotted decimal, IPv6 in the canonical compressed form
//! (longest run of two or more zero groups collapsed to `::`, leftmost on
//! ties, IPv4-mapped addresses as `::ffff:a.b.c.d`).
use vstd::prelude::*;

use crate::textfmt::{chars_to_string, dec_nat, hex2, hex_nat, push_dec_u64, push_hex2, push_hex_nat};

verus! {

/// `a.b.c.d` dotted decimal.
pub open spec fn spec_ipv4_str(a: int, b: int, c: int, d: int) -> Seq<char> {
    dec_nat(a) + seq!['.'] + dec_nat(b) + seq!['.'] + dec_nat(c) + seq!['.'] + dec_nat(d)
}

/// Six lower-case hex pairs joined by colons.
pub open spec fn spec_mac_str(m: Seq<u8>) -> Seq<char>
    recommends
        m.len() == 6,
{
    hex2(m[0] as int) + seq![':'] + hex2(m[1] as int) + seq![':'] + hex2(m[2] as int) + seq![':']
        + hex2(m[3] as int) + seq![':'] + hex2(m[4] as int) + seq![':'] + hex2(m[5] as int)
}

/// The 16-bit groups joined by single colons, each in unpadded lower hex.
pub open spec fn groups_join(gs: Seq<u16>) -> Seq<char>
    decreases gs.len(),
{
    if gs.len() == 0 {
        Seq::empty()
    } else if gs.len() == 1 {
        hex_nat(gs[0] as int)
    } else {
        groups_join(gs.drop_last()) + seq![':'] + hex_nat(gs.last() as int)
    }
}

/// Length of the run of zero groups starting at `i`.
pub open spec fn run_len(gs: Seq<u16>, i: int) -> int
    decreases gs.len() - i,
{
    if i < 0 || i >= gs.len() || gs[i] != 0 {
        0
    } else {
        1 + run_len(gs, i + 1)
    }
}

/// The leftmost maximal zero run in `gs[i..]`, as `(start, length)`.
pub open spec fn best_zero_run(gs: Seq<u16>, i: int) -> (int, int)
    decreases gs.len() - i,
{
    if i >= gs.len() {
        (gs.len() as int, 0)
    } else {
        let rest = best_zero_run(gs, i + 1);
        let here = run_len(gs, i);
        if here >= rest.1 {
            (i, here)
        } else {
            rest
        }
    }
}

/// `gs` is an IPv4-mapped address (`::ffff:a.b.c.d`).
pub open spec fn is_ipv4_mapped(gs: Seq<u16>) -> bool {
    gs[0] == 0 && gs[1] == 0 && gs[2] == 0 && gs[3] == 0 && gs[4] == 0 && gs[5] == 0xffff
}

/// The canonical compressed textual form of an IPv6 address given as eight
/// 16-bit groups.
pub open spec fn spec_ipv6_str(gs: Seq<u16>) -> Seq<char>
    recommends
        gs.len() == 8,
{
    if is_ipv4_mapped(gs) {
        seq![':', ':', 'f', 'f', 'f', 'f', ':'] + spec_ipv4_str(
            gs[6] as int / 256,
            gs[6] as int % 256,
            gs[7] as int / 256,
            gs[7] as int % 256,
        )
    } else {
        let best = best_zero_run(gs, 0);
        if best.1 > 1 {
            groups_join(gs.subrange(0, best.0)) + seq![':', ':'] + groups_join(
                gs.subrange(best.0 + best.1, gs.len() as int),
            )
        } else {
            groups_join(gs)
        }
    }
}

/// Appends `a.b.c.d` to `out`.
pub fn push_ipv4(out: &mut Vec<char>, a: u8, b: u8, c: u8, d: u8)
    ensures
        final(out)@ == old(out)@ + spec_ipv4_str(a as int, b as int, c as int, d as int),
{
    push_dec_u64(out, a as u64);
    out.push('.');
    push_dec_u64(out, b as u64);
    out.push('.');
    push_dec_u64(out, c as u64);
    out.push('.');
    push_dec_u64(out, d as u64);
    assert(out@ =~= old(out)@ + spec_ipv4_str(a as int, b as int, c as int, d as int));
}

/// `a.b.c.d` as a string.
pub fn ipv4_to_string(a: u8, b: u8, c: u8, d: u8) -> (r: String)
    ensures
        r@ == spec_ipv4_str(a as int, b as int, c as int, d as int),
{
    let mut out: Vec<char> = Vec::new();
    push_ipv4(&mut out, a, b, c, d);
    assert(out@ =~= spec_ipv4_str(a as int, b as int, c as int, d as int));
    chars_to_string(&out)
}

/// The colon-separated lower-hex form of a six-byte MAC address.
pub fn mac_to_string(m: &[u8]) -> (r: String)
    requires
        m@.len() == 6,
    ensures
        r@ == spec_mac_str(m@),
{
    let mut out: Vec<char> = Vec::new();
    push_hex2(&mut out, m[0]);
    out.push(':');
    push_hex2(&mut out, m[1]);
    out.push(':');
    push_hex2(&mut out, m[2]);
    out.push(':');
    push_hex2(&mut out, m[3]);
    out.push(':');
    push_hex2(&mut out, m[4]);
    out.push(':');
    push_hex2(&mut out, m[5]);
    assert(out@ =~= spec_mac_str(m@));
    chars_to_string(&out)
}

/// Appends `groups_join(gs[from..to])` to `out`.
fn push_groups_join(out: &mut Vec<char>, gs: &[u16], from: usize, to: usize)
    requires
        from <= to <= gs@.len(),
    ensures
        final(out)@ == old(out)@ + groups_join(gs@.subrange(from as int, to as int)),
{
    let mut k: usize = from;
    assert(out@ =~= old(out)@ + groups_join(gs@.subrange(from as int, from as int)));
    while k < to
        invariant
            from <= k <= to <= gs@.len(),
            out@ == old(out)@ + groups_join(gs@.subrange(from as int, k as int)),
        decreases to - k,
    {
        if k > from {
            out.push(':');
        }
        push_hex_nat_u16(out, gs[k]);
        proof {
            let sub = gs@.subrange(from as int, (k + 1) as int);
            assert(sub.drop_last() =~= gs@.subrange(from as int, k as int));
            assert(sub.last() == gs@[k as int]);
            assert(out@ =~= old(out)@ + groups_join(sub));
        }
        k += 1;
    }
    assert(out@ =~= old(out)@ + groups_join(gs@.subrange(from as int, to as int)));
}

/// Appends the unpadded lower-hex form of a 16-bit group to `out`.
fn push_hex_nat_u16(out: &mut Vec<char>, g: u16)
    ensures
        final(out)@ == old(out)@ + hex_nat(g as int),
{
    push_hex_nat(out, g as usize);
}

/// The canonical compressed textual form of an IPv6 address, given as its
/// eight 16-bit groups in order.
pub fn ipv6_to_string(gs: &[u16]) -> (r: String)
    requires
        gs@.len() == 8,
    ensures
        r@ == spec_ipv6_str(gs@),
{
    let mut out: Vec<char> = Vec::new();
    if gs[0] == 0 && gs[1] == 0 && gs[2] == 0 && gs[3] == 0 && gs[4] == 0 && gs[5] == 0xffff {
        out.push(':');
        out.push(':');
        out.push('f');
        out.push('f');
        out.push('f');
        out.push('f');
        out.push(':');
        push_ipv4(
            &mut out,
            (gs[6] / 256) as u8,
            (gs[6] % 256) as u8,
            (gs[7] / 256) as u8,
            (gs[7] % 256) as u8,
        );
        assert(out@ =~= spec_ipv6_str(gs@));
        return chars_to_string(&out);
    }
    // Run lengths of zero groups: lens[i] == run_len(gs@, i), lens[8] == 0.
    let mut lens: Vec<usize> = Vec::new();
    let mut i: usize = 0;
    while i < 9
        invariant
            i <= 9,
            lens@.len() == i,
            forall|j: int| 0 <= j < i ==> lens@[j] == 0,
        decreases 9 - i,
    {
        lens.push(0);
        i += 1;
    }
    let mut i: usize = 8;
    while i > 0
        invariant
            i <= 8,
            gs@.len() == 8,
            lens@.len() == 9,
            lens@[8] == 0,
            forall|j: int| i <= j < 8 ==> lens@[j] == run_len(gs@, j),
        decreases i,
    {
        i -= 1;
        let l = if gs[i] != 0 {
            0
        } else {
            let next = lens[i + 1];
            assert(next == run_len(gs@, i + 1));
            assert(run_len(gs@, i as int) == 1 + run_len(gs@, i + 1));
            assert(run_len(gs@, i + 1) <= 8 - (i + 1)) by {
                lemma_run_len_bound(gs@, i + 1);
            }
            next + 1
        };
        lens.set(i, l);
    }
    // Leftmost maximal run: scan from the right, preferring the left on ties.
    let mut best_start: usize = 8;
    let mut best_len: usize = 0;
    let mut i: usize = 8;
    while i > 0
        invariant
            i <= 8,
            gs@.len() == 8,
            lens@.len() == 9,
            forall|j: int| 0 <= j < 8 ==> lens@[j] == run_len(gs@, j),
            (best_start as int, best_len as int) == best_zero_run(gs@, i as int),
        decreases i,
    {
        i -= 1;
        if lens[i] >= best_len {
            best_start = i;
            best_len = lens[i];
        }
    }
    proof {
        lemma_best_zero_run_bounds(gs@, 0);
    }
    if best_len > 1 {
        push_groups_join(&mut out, gs, 0, best_start);
        out.push(':');
        out.push(':');
        push_groups_join(&mut out, gs, best_start + best_len, 8);
        assert(out@ =~= spec_ipv6_str(gs@));
    } else {
        push_groups_join(&mut out, gs, 0, 8);
        assert(gs@.subrange(0, 8) =~= gs@);
        assert(out@ =~= spec_ipv6_str(gs@));
    }
    chars_to_string(&out)
}

/// A zero run starting at `i` cannot run past the end of the sequence.
proof fn lemma_run_len_bound(gs: Seq<u16>, i: int)
    ensures
        run_len(gs, i) <= gs.len() - i || run_len(gs, i) == 0,
        run_len(gs, i) >= 0,
    decreases gs.len() - i,
{
    if i < 0 || i >= gs.len() || gs[i] != 0 {
    } else {
        lemma_run_len_bound(gs, i + 1);
    }
}

/// The best zero run of `gs[i..]` starts no earlier than `max(i, 0)` and ends
/// within the sequence.
proof fn lemma_best_zero_run_bounds(gs: Seq<u16>, i: int)
    requires
        0 <= i <= gs.len(),
    ensures
        i <= best_zero_run(gs, i).0 <= gs.len(),
        best_zero_run(gs, i).1 >= 0,
        best_zero_run(gs, i).0 + best_zero_run(gs, i).1 <= gs.len(),
    decreases gs.len() - i,
{
    if i >= gs.len() {
    } else {
        lemma_best_zero_run_bounds(gs, i + 1);
        lemma_run_len_bound(gs, i);
    }
}

} // verus!
