//! The anomaly screen, exact-arithmetic part: per-record feature extraction
//! (address frequencies, protocol code, session-wide packet rate, byte
//! length), per-cluster aggregation under a given 3-way labeling, and the
//! threshold rule that flags clusters resembling denial-of-service traffic.
//! The labeling itself comes from a centroid-based clustering of the same
//! features; the aggregation and the rule here are verified for every
//! possible labeling, so nothing about the clustering is assumed.
use vstd::prelude::*;

use crate::record::FormatedPacket;
use crate::textfmt::str_eq;

verus! {

/// The session-wide packet rate as an exact ratio: `packets` records over a
/// span of `span_micros` microseconds; the rate counts as zero when the span
/// is zero.
#[derive(Clone, Copy, Debug)]
pub struct Rate {
    /// Number of records in the snapshot.
    pub packets: usize,
    /// Difference between the largest and smallest capture instants.
    pub span_micros: u64,
}

/// One record's feature vector, in exact integers.
#[derive(Clone, Copy, Debug)]
pub struct FeatureRow {
    /// How many records of the snapshot share this record's source address.
    pub src_freq: usize,
    /// How many records of the snapshot share this record's destination.
    pub dst_freq: usize,
    /// 1 for TCP, 2 for UDP, 3 for ICMP, 0 otherwise.
    pub protocol_code: u8,
    /// The record's examined payload length.
    pub byte_length: usize,
}

/// One flagged cluster: its id, member count, exact feature sums and the
/// session rate. The mean statistics are the sums divided by the count; they
/// are kept as exact sums here so that the threshold rule needs no rounding.
#[derive(Clone, Copy, Debug)]
pub struct Detect {
    /// Cluster id, below 3.
    pub cluster: usize,
    /// Number of records labeled with this cluster.
    pub count: usize,
    /// Sum of the members' source-address frequencies.
    pub src_freq_sum: u128,
    /// Sum of the members' destination-address frequencies.
    pub dst_freq_sum: u128,
    /// Sum of the members' byte lengths.
    pub length_sum: u128,
    /// The session-wide rate, identical for every member.
    pub rate: Rate,
}

/// The protocol code of a label: TCP 1, UDP 2, ICMP 3, anything else 0.
pub open spec fn spec_protocol_code(p: Seq<char>) -> u8 {
    if p == "TCP"@ {
        1
    } else if p == "UDP"@ {
        2
    } else if p == "ICMP"@ {
        3
    } else {
        0
    }
}

/// The rate exceeds `k` packets per second (exactly; zero-span rates never
/// exceed anything).
pub open spec fn rate_exceeds(r: Rate, k: int) -> bool {
    r.span_micros > 0 && r.packets * 1_000_000 > k * r.span_micros
}

/// How many records of `s` have source address `a`.
pub open spec fn count_src(s: Seq<FormatedPacket>, a: Seq<char>) -> int
    decreases s.len(),
{
    if s.len() == 0 {
        0
    } else {
        count_src(s.drop_last(), a) + if s.last().src_ip@ == a {
            1int
        } else {
            0int
        }
    }
}

/// How many records of `s` have destination address `a`.
pub open spec fn count_dst(s: Seq<FormatedPacket>, a: Seq<char>) -> int
    decreases s.len(),
{
    if s.len() == 0 {
        0
    } else {
        count_dst(s.drop_last(), a) + if s.last().dst_ip@ == a {
            1int
        } else {
            0int
        }
    }
}

/// Address counts lie between 0 and the snapshot size.
pub proof fn lemma_count_bounds(s: Seq<FormatedPacket>, a: Seq<char>)
    ensures
        0 <= count_src(s, a) <= s.len(),
        0 <= count_dst(s, a) <= s.len(),
    decreases s.len(),
{
    if s.len() > 0 {
        lemma_count_bounds(s.drop_last(), a);
    }
}

/// The feature vector of record `i` of snapshot `s`.
pub open spec fn spec_feature_row(s: Seq<FormatedPacket>, i: int) -> FeatureRow
    recommends
        0 <= i < s.len(),
{
    FeatureRow {
        src_freq: count_src(s, s[i].src_ip@) as usize,
        dst_freq: count_dst(s, s[i].dst_ip@) as usize,
        protocol_code: spec_protocol_code(s[i].protocol@),
        byte_length: s[i].lenght,
    }
}

/// The feature matrix of a snapshot, row `i` for record `i`.
pub open spec fn spec_features(s: Seq<FormatedPacket>) -> Seq<FeatureRow> {
    Seq::new(s.len(), |i: int| spec_feature_row(s, i))
}

/// The largest capture instant in a non-empty snapshot.
pub open spec fn max_ts(s: Seq<FormatedPacket>) -> int
    recommends
        s.len() > 0,
    decreases s.len(),
{
    if s.len() <= 1 {
        s[0].timestamp as int
    } else {
        let m = max_ts(s.drop_last());
        if s.last().timestamp > m {
            s.last().timestamp as int
        } else {
            m
        }
    }
}

/// The smallest capture instant in a non-empty snapshot.
pub open spec fn min_ts(s: Seq<FormatedPacket>) -> int
    recommends
        s.len() > 0,
    decreases s.len(),
{
    if s.len() <= 1 {
        s[0].timestamp as int
    } else {
        let m = min_ts(s.drop_last());
        if s.last().timestamp < m {
            s.last().timestamp as int
        } else {
            m
        }
    }
}

/// The session rate of a snapshot: its record count over the span between
/// its extreme capture instants.
pub open spec fn spec_rate(s: Seq<FormatedPacket>) -> Rate {
    Rate {
        packets: s.len() as usize,
        span_micros: if s.len() == 0 {
            0u64
        } else {
            (max_ts(s) - min_ts(s)) as u64
        },
    }
}

/// Member count of cluster `c` under labeling `ls`.
pub open spec fn cluster_count(fs: Seq<FeatureRow>, ls: Seq<usize>, c: int) -> int
    recommends
        fs.len() == ls.len(),
    decreases fs.len(),
{
    if fs.len() == 0 {
        0
    } else {
        cluster_count(fs.drop_last(), ls.drop_last(), c) + if ls.last() == c {
            1int
        } else {
            0int
        }
    }
}

/// Sum of the source frequencies over cluster `c`.
pub open spec fn cluster_src_sum(fs: Seq<FeatureRow>, ls: Seq<usize>, c: int) -> int
    recommends
        fs.len() == ls.len(),
    decreases fs.len(),
{
    if fs.len() == 0 {
        0
    } else {
        cluster_src_sum(fs.drop_last(), ls.drop_last(), c) + if ls.last() == c {
            fs.last().src_freq as int
        } else {
            0int
        }
    }
}

/// Sum of the destination frequencies over cluster `c`.
pub open spec fn cluster_dst_sum(fs: Seq<FeatureRow>, ls: Seq<usize>, c: int) -> int
    recommends
        fs.len() == ls.len(),
    decreases fs.len(),
{
    if fs.len() == 0 {
        0
    } else {
        cluster_dst_sum(fs.drop_last(), ls.drop_last(), c) + if ls.last() == c {
            fs.last().dst_freq as int
        } else {
            0int
        }
    }
}

/// Sum of the byte lengths over cluster `c`.
pub open spec fn cluster_len_sum(fs: Seq<FeatureRow>, ls: Seq<usize>, c: int) -> int
    recommends
        fs.len() == ls.len(),
    decreases fs.len(),
{
    if fs.len() == 0 {
        0
    } else {
        cluster_len_sum(fs.drop_last(), ls.drop_last(), c) + if ls.last() == c {
            fs.last().byte_length as int
        } else {
            0int
        }
    }
}

/// The suspicion rule over a cluster's exact statistics: the mean rate tops
/// 100/s, or a mean address frequency tops 10, or small packets (mean length
/// under 100) arrive at a mean rate over 50/s. Since every member carries
/// the same rate, the mean rate is the session rate itself.
pub open spec fn spec_flagged(
    count: int,
    src_sum: int,
    dst_sum: int,
    len_sum: int,
    rate: Rate,
) -> bool {
    ||| rate_exceeds(rate, 100)
    ||| src_sum > 10 * count
    ||| dst_sum > 10 * count
    ||| (len_sum < 100 * count && rate_exceeds(rate, 50))
}

/// Cluster `c` is non-empty and crosses the suspicion threshold.
pub open spec fn cluster_flagged(fs: Seq<FeatureRow>, ls: Seq<usize>, rate: Rate, c: int) -> bool {
    cluster_count(fs, ls, c) > 0 && spec_flagged(
        cluster_count(fs, ls, c),
        cluster_src_sum(fs, ls, c),
        cluster_dst_sum(fs, ls, c),
        cluster_len_sum(fs, ls, c),
        rate,
    )
}

/// `d` reports cluster `c` exactly.
pub open spec fn detect_ok(
    fs: Seq<FeatureRow>,
    ls: Seq<usize>,
    rate: Rate,
    c: int,
    d: Detect,
) -> bool {
    &&& d.cluster == c
    &&& d.count == cluster_count(fs, ls, c)
    &&& d.src_freq_sum == cluster_src_sum(fs, ls, c)
    &&& d.dst_freq_sum == cluster_dst_sum(fs, ls, c)
    &&& d.length_sum == cluster_len_sum(fs, ls, c)
    &&& d.rate == rate
}

/// The reports are exactly the flagged clusters, in ascending cluster order.
pub open spec fn reports_ok(fs: Seq<FeatureRow>, ls: Seq<usize>, rate: Rate, res: Seq<Detect>) -> bool {
    &&& forall|j: int|
        0 <= j < res.len() ==> {
            &&& 0 <= (#[trigger] res[j]).cluster < 3
            &&& detect_ok(fs, ls, rate, res[j].cluster as int, res[j])
            &&& cluster_flagged(fs, ls, rate, res[j].cluster as int)
        }
    &&& forall|c: int|
        0 <= c < 3 && cluster_flagged(fs, ls, rate, c) ==> exists|j: int|
            0 <= j < res.len() && (#[trigger] res[j]).cluster == c
    &&& forall|j1: int, j2: int|
        0 <= j1 < j2 < res.len() ==> (#[trigger] res[j1]).cluster < (#[trigger] res[j2]).cluster
}

/// Protocol code used as a clustering feature: TCP is 1, UDP is 2, ICMP is
/// 3, everything else (including ICMPv6) is 0.
pub fn protocol_code(label: &str) -> (code: u8)
    ensures
        code == spec_protocol_code(label@),
{
    if str_eq(label, "TCP") {
        1
    } else if str_eq(label, "UDP") {
        2
    } else if str_eq(label, "ICMP") {
        3
    } else {
        0
    }
}

/// How many records of `packets` have source address `a`.
fn count_src_matches(packets: &Vec<FormatedPacket>, a: &str) -> (c: usize)
    ensures
        c == count_src(packets@, a@),
{
    let n = packets.len();
    let mut c: usize = 0;
    let mut j: usize = 0;
    while j < n
        invariant
            n == packets@.len(),
            j <= n,
            c <= j,
            c == count_src(packets@.subrange(0, j as int), a@),
        decreases n - j,
    {
        if str_eq(packets[j].src_ip.as_str(), a) {
            c += 1;
        }
        proof {
            let sub1 = packets@.subrange(0, (j + 1) as int);
            assert(sub1.drop_last() =~= packets@.subrange(0, j as int));
            assert(sub1.last() == packets@[j as int]);
        }
        j += 1;
    }
    proof {
        assert(packets@.subrange(0, packets@.len() as int) =~= packets@);
    }
    c
}

/// How many records of `packets` have destination address `a`.
fn count_dst_matches(packets: &Vec<FormatedPacket>, a: &str) -> (c: usize)
    ensures
        c == count_dst(packets@, a@),
{
    let n = packets.len();
    let mut c: usize = 0;
    let mut j: usize = 0;
    while j < n
        invariant
            n == packets@.len(),
            j <= n,
            c <= j,
            c == count_dst(packets@.subrange(0, j as int), a@),
        decreases n - j,
    {
        if str_eq(packets[j].dst_ip.as_str(), a) {
            c += 1;
        }
        proof {
            let sub1 = packets@.subrange(0, (j + 1) as int);
            assert(sub1.drop_last() =~= packets@.subrange(0, j as int));
            assert(sub1.last() == packets@[j as int]);
        }
        j += 1;
    }
    proof {
        assert(packets@.subrange(0, packets@.len() as int) =~= packets@);
    }
    c
}

/// Builds the feature matrix of a snapshot: for each record, how often its
/// source and destination addresses occur in the whole snapshot, its
/// protocol code and its byte length.
pub fn extract_features(packets: &Vec<FormatedPacket>) -> (r: Vec<FeatureRow>)
    ensures
        r@ == spec_features(packets@),
{
    let n = packets.len();
    let mut r: Vec<FeatureRow> = Vec::new();
    let mut i: usize = 0;
    while i < n
        invariant
            n == packets@.len(),
            i <= n,
            r@.len() == i,
            forall|k: int| 0 <= k < i ==> r@[k] == spec_feature_row(packets@, k),
        decreases n - i,
    {
        proof {
            lemma_count_bounds(packets@, packets@[i as int].src_ip@);
            lemma_count_bounds(packets@, packets@[i as int].dst_ip@);
        }
        let src_freq = count_src_matches(packets, packets[i].src_ip.as_str());
        let dst_freq = count_dst_matches(packets, packets[i].dst_ip.as_str());
        let code = protocol_code(packets[i].protocol.as_str());
        let row = FeatureRow { src_freq, dst_freq, protocol_code: code, byte_length: packets[i].lenght };
        r.push(row);
        i += 1;
    }
    assert(r@ =~= spec_features(packets@));
    r
}

/// Computes the session rate of a snapshot: the record count over the span
/// between its smallest and largest capture instants; a zero span (empty or
/// single-instant snapshots) stands for rate zero.
pub fn compute_rate(packets: &Vec<FormatedPacket>) -> (r: Rate)
    ensures
        r == spec_rate(packets@),
{
    let n = packets.len();
    if n == 0 {
        return Rate { packets: 0, span_micros: 0 };
    }
    let mut mn: u64 = packets[0].timestamp;
    let mut mx: u64 = packets[0].timestamp;
    let mut j: usize = 1;
    while j < n
        invariant
            n == packets@.len(),
            1 <= j <= n,
            mn <= mx,
            mn == min_ts(packets@.subrange(0, j as int)),
            mx == max_ts(packets@.subrange(0, j as int)),
        decreases n - j,
    {
        let t = packets[j].timestamp;
        if t < mn {
            mn = t;
        }
        if t > mx {
            mx = t;
        }
        proof {
            let sub1 = packets@.subrange(0, (j + 1) as int);
            assert(sub1.drop_last() =~= packets@.subrange(0, j as int));
            assert(sub1.last() == packets@[j as int]);
        }
        j += 1;
    }
    proof {
        assert(packets@.subrange(0, packets@.len() as int) =~= packets@);
    }
    Rate { packets: n, span_micros: mx - mn }
}

/// The exact comparison `rate > k` packets per second.
pub fn rate_gt(rate: Rate, k: u64) -> (b: bool)
    ensures
        b == rate_exceeds(rate, k as int),
{
    proof {
        assert((k as int) * (rate.span_micros as int) <= 0xffff_ffff_ffff_ffff
            * 0xffff_ffff_ffff_ffff) by (nonlinear_arith)
            requires
                0 <= k as int <= 0xffff_ffff_ffff_ffff,
                0 <= rate.span_micros as int <= 0xffff_ffff_ffff_ffff,
        ;
    }
    rate.span_micros > 0 && (rate.packets as u128) * 1_000_000 > (k as u128) * (rate.span_micros
        as u128)
}

/// A step bound for the running cluster sums: one more member keeps the sum
/// under `(j + 1)` times the largest element, which stays within `u128`.
proof fn lemma_sum_step(s: int, f: int, j: int)
    requires
        0 <= s,
        0 <= f <= 0xffff_ffff_ffff_ffff,
        0 <= j <= 0xffff_ffff_ffff_fffe,
        s <= j * 0xffff_ffff_ffff_ffff,
    ensures
        s + f <= (j + 1) * 0xffff_ffff_ffff_ffff,
        s + f <= 0xffff_ffff_ffff_ffff * 0xffff_ffff_ffff_ffff,
{
    assert((j + 1) * 0xffff_ffff_ffff_ffff <= 0xffff_ffff_ffff_ffff * 0xffff_ffff_ffff_ffff)
        by (nonlinear_arith)
        requires
            0 <= j + 1 <= 0xffff_ffff_ffff_ffff,
    ;
}

/// Count and feature sums of cluster `c` under the labeling.
fn cluster_stats(features: &Vec<FeatureRow>, labels: &Vec<usize>, c: usize) -> (r: (
    usize,
    u128,
    u128,
    u128,
))
    requires
        labels@.len() == features@.len(),
    ensures
        r.0 == cluster_count(features@, labels@, c as int),
        r.1 == cluster_src_sum(features@, labels@, c as int),
        r.2 == cluster_dst_sum(features@, labels@, c as int),
        r.3 == cluster_len_sum(features@, labels@, c as int),
{
    let n = features.len();
    let mut count: usize = 0;
    let mut s1: u128 = 0;
    let mut s2: u128 = 0;
    let mut s3: u128 = 0;
    let mut j: usize = 0;
    while j < n
        invariant
            n == features@.len(),
            labels@.len() == features@.len(),
            j <= n,
            count <= j,
            s1 <= j * 0xffff_ffff_ffff_ffff,
            s2 <= j * 0xffff_ffff_ffff_ffff,
            s3 <= j * 0xffff_ffff_ffff_ffff,
            count == cluster_count(
                features@.subrange(0, j as int),
                labels@.subrange(0, j as int),
                c as int,
            ),
            s1 == cluster_src_sum(
                features@.subrange(0, j as int),
                labels@.subrange(0, j as int),
                c as int,
            ),
            s2 == cluster_dst_sum(
                features@.subrange(0, j as int),
                labels@.subrange(0, j as int),
                c as int,
            ),
            s3 == cluster_len_sum(
                features@.subrange(0, j as int),
                labels@.subrange(0, j as int),
                c as int,
            ),
        decreases n - j,
    {
        if labels[j] == c {
            let f = &features[j];
            proof {
                lemma_sum_step(s1 as int, f.src_freq as int, j as int);
                lemma_sum_step(s2 as int, f.dst_freq as int, j as int);
                lemma_sum_step(s3 as int, f.byte_length as int, j as int);
            }
            count += 1;
            s1 = s1 + f.src_freq as u128;
            s2 = s2 + f.dst_freq as u128;
            s3 = s3 + f.byte_length as u128;
        }
        proof {
            let fsub1 = features@.subrange(0, (j + 1) as int);
            let lsub1 = labels@.subrange(0, (j + 1) as int);
            assert(fsub1.drop_last() =~= features@.subrange(0, j as int));
            assert(lsub1.drop_last() =~= labels@.subrange(0, j as int));
            assert(fsub1.last() == features@[j as int]);
            assert(lsub1.last() == labels@[j as int]);
        }
        j += 1;
    }
    proof {
        assert(features@.subrange(0, features@.len() as int) =~= features@);
        assert(labels@.subrange(0, labels@.len() as int) =~= labels@);
    }
    (count, s1, s2, s3)
}

/// Applies the threshold rule to every cluster of a 3-way labeling of the
/// feature rows and returns one report per flagged non-empty cluster, in
/// ascending cluster order. Verified for every labeling with labels below 3.
pub fn analyze_clusters(features: &Vec<FeatureRow>, labels: &Vec<usize>, rate: Rate) -> (res: Vec<
    Detect,
>)
    requires
        labels@.len() == features@.len(),
    ensures
        reports_ok(features@, labels@, rate, res@),
{
    let mut res: Vec<Detect> = Vec::new();
    let mut c: usize = 0;
    while c < 3
        invariant
            c <= 3,
            labels@.len() == features@.len(),
            forall|j: int|
                0 <= j < res@.len() ==> {
                    &&& 0 <= (#[trigger] res@[j]).cluster < c
                    &&& detect_ok(features@, labels@, rate, res@[j].cluster as int, res@[j])
                    &&& cluster_flagged(features@, labels@, rate, res@[j].cluster as int)
                },
            forall|cc: int|
                0 <= cc < c && cluster_flagged(features@, labels@, rate, cc) ==> exists|j: int|
                    0 <= j < res@.len() && (#[trigger] res@[j]).cluster == cc,
            forall|j1: int, j2: int|
                0 <= j1 < j2 < res@.len() ==> (#[trigger] res@[j1]).cluster < (
                #[trigger] res@[j2]).cluster,
        decreases 3 - c,
    {
        let (count, s1, s2, s3) = cluster_stats(features, labels, c);
        if count > 0 {
            let flag = rate_gt(rate, 100) || s1 > 10 * (count as u128) || s2 > 10 * (count as u128)
                || (s3 < 100 * (count as u128) && rate_gt(rate, 50));
            assert(flag == spec_flagged(count as int, s1 as int, s2 as int, s3 as int, rate));
            if flag {
                let ghost prev = res@;
                res.push(
                    Detect {
                        cluster: c,
                        count,
                        src_freq_sum: s1,
                        dst_freq_sum: s2,
                        length_sum: s3,
                        rate,
                    },
                );
                proof {
                    assert forall|cc: int|
                        0 <= cc < c + 1 && cluster_flagged(
                            features@,
                            labels@,
                            rate,
                            cc,
                        ) implies exists|j: int|
                        0 <= j < res@.len() && (#[trigger] res@[j]).cluster == cc by {
                        if cc == c as int {
                            assert(res@[res@.len() - 1].cluster == cc);
                        } else {
                            let j = choose|j: int|
                                0 <= j < prev.len() && (#[trigger] prev[j]).cluster == cc;
                            assert(res@[j].cluster == cc);
                        }
                    }
                }
            } else {
                assert(!cluster_flagged(features@, labels@, rate, c as int));
            }
        } else {
            assert(!cluster_flagged(features@, labels@, rate, c as int));
        }
        c += 1;
    }
    res
}

/// The member counts of the three clusters partition the snapshot.
pub proof fn lemma_counts_partition(fs: Seq<FeatureRow>, ls: Seq<usize>)
    requires
        fs.len() == ls.len(),
        forall|i: int| 0 <= i < ls.len() ==> (#[trigger] ls[i]) < 3,
    ensures
        cluster_count(fs, ls, 0) + cluster_count(fs, ls, 1) + cluster_count(fs, ls, 2) == fs.len(),
    decreases fs.len(),
{
    if fs.len() > 0 {
        assert(forall|i: int|
            0 <= i < ls.drop_last().len() ==> (#[trigger] ls.drop_last()[i]) < 3);
        lemma_counts_partition(fs.drop_last(), ls.drop_last());
        assert(ls.last() < 3);
    }
}

/// When the session rate tops 100 packets per second, the threshold rule
/// flags at least one cluster, whatever the labeling: some cluster is
/// non-empty, and the rate clause alone flags it.
pub proof fn lemma_high_rate_always_flags(fs: Seq<FeatureRow>, ls: Seq<usize>, rate: Rate)
    requires
        fs.len() == ls.len(),
        fs.len() > 0,
        forall|i: int| 0 <= i < ls.len() ==> (#[trigger] ls[i]) < 3,
        rate_exceeds(rate, 100),
    ensures
        exists|c: int| 0 <= c < 3 && cluster_flagged(fs, ls, rate, c),
{
    lemma_counts_partition(fs, ls);
    if cluster_count(fs, ls, 0) > 0 {
        assert(cluster_flagged(fs, ls, rate, 0));
    } else if cluster_count(fs, ls, 1) > 0 {
        assert(cluster_flagged(fs, ls, rate, 1));
    } else {
        assert(cluster_count(fs, ls, 2) > 0);
        assert(cluster_flagged(fs, ls, rate, 2));
    }
}

/// The full screen, given a snapshot and a 3-way labeling of its records:
/// extracts the features, computes the session rate, aggregates each cluster
/// and returns the flagged ones. An empty snapshot yields no flags; a
/// snapshot whose rate tops 100 packets per second always yields at least
/// one.
pub fn dos_detect(packets: &Vec<FormatedPacket>, labels: &Vec<usize>) -> (res: Vec<Detect>)
    requires
        labels@.len() == packets@.len(),
        forall|i: int| 0 <= i < labels@.len() ==> (#[trigger] labels@[i]) < 3,
    ensures
        reports_ok(spec_features(packets@), labels@, spec_rate(packets@), res@),
        packets@.len() == 0 ==> res@.len() == 0,
        packets@.len() > 0 && rate_exceeds(spec_rate(packets@), 100) ==> res@.len() > 0,
{
    let features = extract_features(packets);
    let rate = compute_rate(packets);
    let res = analyze_clusters(&features, labels, rate);
    proof {
        if packets@.len() == 0 {
            assert(res@.len() == 0) by {
                if res@.len() > 0 {
                    assert(cluster_flagged(features@, labels@, rate, res@[0].cluster as int));
                    lemma_count_is_nonneg_and_bounded(features@, labels@, res@[0].cluster as int);
                }
            }
        }
        if packets@.len() > 0 && rate_exceeds(spec_rate(packets@), 100) {
            lemma_high_rate_always_flags(features@, labels@, rate);
            let c = choose|c: int| 0 <= c < 3 && cluster_flagged(features@, labels@, rate, c);
            assert(exists|j: int| 0 <= j < res@.len() && (#[trigger] res@[j]).cluster == c);
        }
    }
    res
}

/// Cluster counts lie between 0 and the number of rows.
proof fn lemma_count_is_nonneg_and_bounded(fs: Seq<FeatureRow>, ls: Seq<usize>, c: int)
    requires
        fs.len() == ls.len(),
    ensures
        0 <= cluster_count(fs, ls, c) <= fs.len(),
    decreases fs.len(),
{
    if fs.len() > 0 {
        lemma_count_is_nonneg_and_bounded(fs.drop_last(), ls.drop_last(), c);
    }
}

} // verus!
