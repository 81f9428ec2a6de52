//! The filter query: the subsequence of a snapshot whose records match a
//! protocol criterion (`all` matches every protocol) and an address prefix
//! (the empty prefix matches every address), in their original order.
use vstd::prelude::*;

use crate::record::FormatedPacket;
use crate::textfmt::{spec_starts_with, str_eq, str_starts_with};

verus! {

/// Whether one record passes the filter: its protocol label equals the
/// criterion (unless the criterion is `all`), and the prefix is empty or
/// starts the textual source or destination address.
pub open spec fn record_matches(r: FormatedPacket, protocol: Seq<char>, prefix: Seq<char>) -> bool {
    (protocol == "all"@ || r.protocol@ == protocol) && (prefix.len() == 0 || spec_starts_with(
        r.src_ip@,
        prefix,
    ) || spec_starts_with(r.dst_ip@, prefix))
}

/// The filtered subsequence, in original order.
pub open spec fn spec_filter(
    s: Seq<FormatedPacket>,
    protocol: Seq<char>,
    prefix: Seq<char>,
) -> Seq<FormatedPacket> {
    s.filter(|r: FormatedPacket| record_matches(r, protocol, prefix))
}

/// Returns the records of `records` matching the protocol criterion and the
/// address prefix, preserving order; total over any snapshot, including the
/// empty one.
pub fn filter_records(records: &Vec<FormatedPacket>, ip: &str, protocol: &str) -> (r: Vec<
    FormatedPacket,
>)
    ensures
        r@ == spec_filter(records@, protocol@, ip@),
{
    let is_all = str_eq(protocol, "all");
    let no_prefix = ip.unicode_len() == 0;
    let mut out: Vec<FormatedPacket> = Vec::new();
    let mut i: usize = 0;
    proof {
        reveal(Seq::filter);
        assert(out@ =~= spec_filter(records@.subrange(0, 0), protocol@, ip@));
    }
    while i < records.len()
        invariant
            i <= records@.len(),
            is_all == (protocol@ == "all"@),
            no_prefix == (ip@.len() == 0),
            out@ == spec_filter(records@.subrange(0, i as int), protocol@, ip@),
        decreases records@.len() - i,
    {
        let rec = &records[i];
        let m = (is_all || str_eq(rec.protocol.as_str(), protocol)) && (no_prefix
            || str_starts_with(rec.src_ip.as_str(), ip) || str_starts_with(rec.dst_ip.as_str(), ip));
        assert(m == record_matches(records@[i as int], protocol@, ip@));
        if m {
            out.push(rec.clone());
        }
        proof {
            reveal(Seq::filter);
            let sub1 = records@.subrange(0, (i + 1) as int);
            assert(sub1.drop_last() =~= records@.subrange(0, i as int));
            assert(sub1.last() == records@[i as int]);
            assert(out@ == spec_filter(sub1, protocol@, ip@));
        }
        i += 1;
    }
    proof {
        assert(records@.subrange(0, records@.len() as int) =~= records@);
    }
    out
}

/// Filtering with the `all` criterion and the empty prefix returns the
/// snapshot unchanged, in order and content.
pub proof fn lemma_filter_all_is_identity(s: Seq<FormatedPacket>)
    ensures
        spec_filter(s, "all"@, Seq::<char>::empty()) == s,
    decreases s.len(),
{
    reveal(Seq::filter);
    if s.len() == 0 {
        assert(spec_filter(s, "all"@, Seq::<char>::empty()) =~= s);
    } else {
        lemma_filter_all_is_identity(s.drop_last());
        assert(record_matches(s.last(), "all"@, Seq::<char>::empty()));
        assert(spec_filter(s, "all"@, Seq::<char>::empty()) =~= s);
    }
}

/// The filter keeps only matching records, and keeps every matching record.
pub proof fn lemma_filter_sound_and_complete(
    s: Seq<FormatedPacket>,
    protocol: Seq<char>,
    prefix: Seq<char>,
)
    ensures
        forall|i: int|
            0 <= i < spec_filter(s, protocol, prefix).len() ==> record_matches(
                #[trigger] spec_filter(s, protocol, prefix)[i],
                protocol,
                prefix,
            ),
        forall|i: int|
            0 <= i < s.len() && record_matches(#[trigger] s[i], protocol, prefix) ==> spec_filter(
                s,
                protocol,
                prefix,
            ).contains(s[i]),
{
    let pred = |r: FormatedPacket| record_matches(r, protocol, prefix);
    assert forall|i: int| 0 <= i < spec_filter(s, protocol, prefix).len() implies record_matches(
        #[trigger] spec_filter(s, protocol, prefix)[i],
        protocol,
        prefix,
    ) by {
        s.lemma_filter_pred(pred, i);
    }
    assert forall|i: int|
        0 <= i < s.len() && record_matches(#[trigger] s[i], protocol, prefix) implies spec_filter(
        s,
        protocol,
        prefix,
    ).contains(s[i]) by {
        s.lemma_filter_contains(pred, i);
    }
}

} // verus!
