//! The snapshot codec: a self-describing structured text encoding of the
//! stored records (field names and nesting exactly as in the record type),
//! and its strict parser. The high-resolution capture instant is excluded
//! from the encoding and reset to zero on import. Encoding and parsing are
//! specified over a ghost model of the record fields, and parsing the
//! encoder's output provably returns the original records.
use vstd::prelude::*;

use crate::errors::AppError;
use crate::record::{DetailedInfo, FormatedPacket};
use crate::textfmt::{dec_digit, dec_nat, hex2, hex_digit, push_dec_u64, push_hex2, push_str_chars, chars_to_string, str_to_chars};

verus! {

/// Ghost model of the detailed part: the encoded fields, as plain values.
pub ghost struct DetailModel {
    pub interface: Seq<char>,
    pub src_mac: Seq<char>,
    pub dst_mac: Seq<char>,
    pub frame_type: Seq<char>,
    pub payload_length: int,
    pub packet_length: int,
    pub payload_data: Seq<char>,
}

/// Ghost model of one record: every encoded field (the capture instant is
/// not encoded and has no place here).
pub ghost struct RecordModel {
    pub number: int,
    pub time: Seq<char>,
    pub src_ip: Seq<char>,
    pub dst_ip: Seq<char>,
    pub protocol: Seq<char>,
    pub lenght: int,
    pub info: Seq<char>,
    pub detail: Option<DetailModel>,
}

/// The model of a detailed part.
pub open spec fn detail_model(d: DetailedInfo) -> DetailModel {
    DetailModel {
        interface: d.interface@,
        src_mac: d.src_mac@,
        dst_mac: d.dst_mac@,
        frame_type: d.frame_type@,
        payload_length: d.payload_length as int,
        packet_length: d.packet_length as int,
        payload_data: d.payload_data@,
    }
}

/// The model of a record.
pub open spec fn record_model(r: FormatedPacket) -> RecordModel {
    RecordModel {
        number: r.number as int,
        time: r.time@,
        src_ip: r.src_ip@,
        dst_ip: r.dst_ip@,
        protocol: r.protocol@,
        lenght: r.lenght as int,
        info: r.info@,
        detail: match r.detailed_info {
            Some(d) => Some(detail_model(d)),
            None => None,
        },
    }
}

/// The models of a snapshot, in order.
pub open spec fn record_models(s: Seq<FormatedPacket>) -> Seq<RecordModel> {
    Seq::new(s.len(), |i: int| record_model(s[i]))
}

/// The escape of one character: `"` and `\` get a backslash, other control
/// characters become `\u00xx`, everything else stands for itself.
pub open spec fn esc_char(c: char) -> Seq<char> {
    if c == '"' {
        seq!['\\', '"']
    } else if c == '\\' {
        seq!['\\', '\\']
    } else if (c as int) < 0x20 {
        seq!['\\', 'u', '0', '0'] + hex2(c as int)
    } else {
        seq![c]
    }
}

/// The escaped form of a string body.
pub open spec fn escape(s: Seq<char>) -> Seq<char>
    decreases s.len(),
{
    if s.len() == 0 {
        Seq::empty()
    } else {
        esc_char(s[0]) + escape(s.drop_first())
    }
}

/// A quoted, escaped string.
pub open spec fn enc_str(s: Seq<char>) -> Seq<char> {
    seq!['"'] + escape(s) + seq!['"']
}

/// The encoding of a detailed part.
pub open spec fn enc_detail(d: DetailModel) -> Seq<char> {
    "{\"interface\":"@ + (enc_str(d.interface) + (",\"src_mac\":"@ + (enc_str(d.src_mac) + (
    ",\"dst_mac\":"@ + (enc_str(d.dst_mac) + (",\"frame_type\":"@ + (enc_str(d.frame_type) + (
    ",\"payload_length\":"@ + (dec_nat(d.payload_length) + (",\"packet_length\":"@ + (dec_nat(
        d.packet_length,
    ) + (",\"payload_data\":"@ + (enc_str(d.payload_data) + seq!['}'])))))))))))))
}

/// The encoding of one record.
pub open spec fn enc_record(m: RecordModel) -> Seq<char> {
    "{\"number\":"@ + (dec_nat(m.number) + (",\"time\":"@ + (enc_str(m.time) + (",\"src_ip\":"@ + (
    enc_str(m.src_ip) + (",\"dst_ip\":"@ + (enc_str(m.dst_ip) + (",\"protocol\":"@ + (enc_str(
        m.protocol,
    ) + (",\"lenght\":"@ + (dec_nat(m.lenght) + (",\"info\":"@ + (enc_str(m.info) + (
    ",\"detailed_info\":"@ + ((match m.detail {
        Some(d) => enc_detail(d),
        None => "null"@,
    }) + seq!['}'])))))))))))))))
}

/// The record encoding, re-associated as a head of simple fields and the
/// detailed-part tail.
#[verifier::rlimit(100)]
proof fn lemma_enc_record_parts(m: RecordModel)
    ensures
        enc_record(m) == ("{\"number\":"@ + dec_nat(m.number) + ",\"time\":"@ + enc_str(m.time)
            + ",\"src_ip\":"@ + enc_str(m.src_ip) + ",\"dst_ip\":"@ + enc_str(m.dst_ip)
            + ",\"protocol\":"@ + enc_str(m.protocol) + ",\"lenght\":"@ + dec_nat(m.lenght)
            + ",\"info\":"@ + enc_str(m.info)) + (",\"detailed_info\":"@ + ((match m.detail {
            Some(d) => enc_detail(d),
            None => "null"@,
        }) + seq!['}'])),
{
    assert(enc_record(m) =~= ("{\"number\":"@ + dec_nat(m.number) + ",\"time\":"@ + enc_str(
        m.time,
    ) + ",\"src_ip\":"@ + enc_str(m.src_ip) + ",\"dst_ip\":"@ + enc_str(m.dst_ip)
        + ",\"protocol\":"@ + enc_str(m.protocol) + ",\"lenght\":"@ + dec_nat(m.lenght)
        + ",\"info\":"@ + enc_str(m.info)) + (",\"detailed_info\":"@ + ((match m.detail {
        Some(d) => enc_detail(d),
        None => "null"@,
    }) + seq!['}'])));
}

/// The comma-joined encodings of the records.
pub open spec fn enc_records_inner(ms: Seq<RecordModel>) -> Seq<char>
    decreases ms.len(),
{
    if ms.len() == 0 {
        Seq::empty()
    } else if ms.len() == 1 {
        enc_record(ms[0])
    } else {
        enc_records_inner(ms.drop_last()) + seq![','] + enc_record(ms.last())
    }
}

/// The encoding of a whole snapshot.
pub open spec fn enc_records(ms: Seq<RecordModel>) -> Seq<char> {
    seq!['['] + enc_records_inner(ms) + seq![']']
}

/// Escaping distributes over concatenation.
proof fn lemma_escape_app(a: Seq<char>, b: Seq<char>)
    ensures
        escape(a + b) == escape(a) + escape(b),
    decreases a.len(),
{
    if a.len() == 0 {
        assert(a + b =~= b);
        assert(escape(a) + escape(b) =~= escape(b));
    } else {
        assert((a + b).drop_first() =~= a.drop_first() + b);
        assert((a + b)[0] == a[0]);
        lemma_escape_app(a.drop_first(), b);
        assert(escape(a + b) =~= escape(a) + escape(b));
    }
}

/// Appends the escape of one character to `out`.
fn push_esc_char(out: &mut Vec<char>, c: char)
    ensures
        final(out)@ == old(out)@ + esc_char(c),
{
    if c == '"' {
        out.push('\\');
        out.push('"');
    } else if c == '\\' {
        out.push('\\');
        out.push('\\');
    } else if (c as u32) < 0x20 {
        out.push('\\');
        out.push('u');
        out.push('0');
        out.push('0');
        push_hex2(out, c as u8);
    } else {
        out.push(c);
    }
    assert(out@ =~= old(out)@ + esc_char(c));
}

/// Appends the quoted, escaped form of `s` to `out`.
fn push_enc_str(out: &mut Vec<char>, s: &str)
    ensures
        final(out)@ == old(out)@ + enc_str(s@),
{
    out.push('"');
    let chars = str_to_chars(s);
    let mut i: usize = 0;
    let ghost base = out@;
    assert(escape(s@.subrange(0, 0)) =~= Seq::<char>::empty());
    while i < chars.len()
        invariant
            chars@ == s@,
            i <= s@.len(),
            out@ == base + escape(s@.subrange(0, i as int)),
        decreases s@.len() - i,
    {
        push_esc_char(out, chars[i]);
        proof {
            let pre = s@.subrange(0, i as int);
            let one = seq![s@[i as int]];
            assert(s@.subrange(0, (i + 1) as int) =~= pre + one);
            lemma_escape_app(pre, one);
            assert(one.drop_first() =~= Seq::<char>::empty());
            assert(escape(Seq::<char>::empty()) =~= Seq::<char>::empty());
            assert(escape(one) =~= esc_char(s@[i as int]));
        }
        i += 1;
    }
    assert(s@.subrange(0, s@.len() as int) =~= s@);
    out.push('"');
    assert(out@ =~= old(out)@ + enc_str(s@));
}

/// Appends the encoding of a detailed part to `out`.
#[verifier::rlimit(100)]
fn push_detail(out: &mut Vec<char>, d: &DetailedInfo)
    ensures
        final(out)@ == old(out)@ + enc_detail(detail_model(*d)),
{
    push_str_chars(out, "{\"interface\":");
    push_enc_str(out, d.interface.as_str());
    push_str_chars(out, ",\"src_mac\":");
    push_enc_str(out, d.src_mac.as_str());
    push_str_chars(out, ",\"dst_mac\":");
    push_enc_str(out, d.dst_mac.as_str());
    push_str_chars(out, ",\"frame_type\":");
    push_enc_str(out, d.frame_type.as_str());
    push_str_chars(out, ",\"payload_length\":");
    push_dec_u64(out, d.payload_length as u64);
    push_str_chars(out, ",\"packet_length\":");
    push_dec_u64(out, d.packet_length as u64);
    push_str_chars(out, ",\"payload_data\":");
    push_enc_str(out, d.payload_data.as_str());
    out.push('}');
    assert(out@ =~= old(out)@ + enc_detail(detail_model(*d)));
}

/// Appends the encoding of one record to `out`.
#[verifier::rlimit(100)]
fn push_record(out: &mut Vec<char>, r: &FormatedPacket)
    ensures
        final(out)@ == old(out)@ + enc_record(record_model(*r)),
{
    push_str_chars(out, "{\"number\":");
    push_dec_u64(out, r.number as u64);
    push_str_chars(out, ",\"time\":");
    push_enc_str(out, r.time.as_str());
    push_str_chars(out, ",\"src_ip\":");
    push_enc_str(out, r.src_ip.as_str());
    push_str_chars(out, ",\"dst_ip\":");
    push_enc_str(out, r.dst_ip.as_str());
    push_str_chars(out, ",\"protocol\":");
    push_enc_str(out, r.protocol.as_str());
    push_str_chars(out, ",\"lenght\":");
    push_dec_u64(out, r.lenght as u64);
    push_str_chars(out, ",\"info\":");
    push_enc_str(out, r.info.as_str());
    proof {
        lemma_enc_record_parts(record_model(*r));
    }
    let ghost head = out@;
    assert(head =~= old(out)@ + ("{\"number\":"@ + dec_nat(r.number as int) + ",\"time\":"@
        + enc_str(r.time@) + ",\"src_ip\":"@ + enc_str(r.src_ip@) + ",\"dst_ip\":"@ + enc_str(
        r.dst_ip@,
    ) + ",\"protocol\":"@ + enc_str(r.protocol@) + ",\"lenght\":"@ + dec_nat(r.lenght as int)
        + ",\"info\":"@ + enc_str(r.info@)));
    push_str_chars(out, ",\"detailed_info\":");
    match &r.detailed_info {
        Some(d) => push_detail(out, d),
        None => push_str_chars(out, "null"),
    }
    out.push('}');
    assert(out@ =~= ((head + ",\"detailed_info\":"@) + (match r.detailed_info {
        Some(d) => enc_detail(detail_model(d)),
        None => "null"@,
    })) + seq!['}']);
    assert(out@ =~= old(out)@ + enc_record(record_model(*r)));
}

/// Serializes a snapshot: every record field under its name, records in
/// order, the capture instant left out.
pub fn export_packets(packets: &Vec<FormatedPacket>) -> (r: String)
    ensures
        r@ == enc_records(record_models(packets@)),
{
    let mut out: Vec<char> = Vec::new();
    out.push('[');
    let ghost ms = record_models(packets@);
    let mut i: usize = 0;
    while i < packets.len()
        invariant
            ms == record_models(packets@),
            i <= packets@.len(),
            out@ == seq!['['] + enc_records_inner(ms.subrange(0, i as int)),
        decreases packets@.len() - i,
    {
        if i > 0 {
            out.push(',');
        }
        push_record(&mut out, &packets[i]);
        proof {
            let sub1 = ms.subrange(0, (i + 1) as int);
            assert(sub1.drop_last() =~= ms.subrange(0, i as int));
            assert(sub1.last() == record_model(packets@[i as int]));
            assert(out@ =~= seq!['['] + enc_records_inner(sub1));
        }
        i += 1;
    }
    out.push(']');
    proof {
        assert(ms.subrange(0, ms.len() as int) =~= ms);
        assert(out@ =~= enc_records(ms));
    }
    chars_to_string(&out)
}

/// `c` is a decimal digit.
pub open spec fn is_digit(c: char) -> bool {
    0x30 <= c as int && c as int <= 0x39
}

/// Value of a decimal digit character.
pub open spec fn digit_val(c: char) -> int {
    c as int - 0x30
}

/// `c` is a lower-case hexadecimal digit.
pub open spec fn is_lhex(c: char) -> bool {
    is_digit(c) || (0x61 <= c as int && c as int <= 0x66)
}

/// Value of a lower-case hexadecimal digit character.
pub open spec fn lhex_val(c: char) -> int {
    if is_digit(c) {
        digit_val(c)
    } else {
        c as int - 0x57
    }
}

/// The position after `lit` when it stands at `i`.
pub open spec fn p_lit(s: Seq<char>, i: int, lit: Seq<char>) -> Option<int> {
    if 0 <= i && i + lit.len() <= s.len() && s.subrange(i, i + lit.len()) == lit {
        Some(i + lit.len())
    } else {
        None
    }
}

/// The end of the digit run starting at `i`.
pub open spec fn digits_end(s: Seq<char>, i: int) -> int
    decreases s.len() - i,
{
    if 0 <= i && i < s.len() && is_digit(s[i]) {
        digits_end(s, i + 1)
    } else {
        i
    }
}

/// The numeric value of the digits `s[i..j]`.
pub open spec fn digits_val(s: Seq<char>, i: int, j: int) -> int
    decreases j - i,
{
    if j <= i {
        0
    } else {
        digits_val(s, i, j - 1) * 10 + digit_val(s[j - 1])
    }
}

/// A canonical unsigned decimal at `i`: at least one digit, and no leading
/// zero unless the number is the single digit `0`.
pub open spec fn p_nat(s: Seq<char>, i: int) -> Option<(int, int)> {
    let e = digits_end(s, i);
    if e > i && (s[i] != '0' || e == i + 1) {
        Some((digits_val(s, i, e), e))
    } else {
        None
    }
}

/// A string body after its opening quote: plain characters, the escapes
/// `\"` and `\\`, and `\u00xx` escapes of control characters, up to the
/// closing quote.
pub open spec fn p_str_body(s: Seq<char>, i: int) -> Option<(Seq<char>, int)>
    decreases s.len() - i,
{
    if i < 0 || i >= s.len() {
        None
    } else if s[i] == '"' {
        Some((Seq::empty(), i + 1))
    } else if s[i] == '\\' {
        if i + 1 < s.len() && (s[i + 1] == '"' || s[i + 1] == '\\') {
            match p_str_body(s, i + 2) {
                Some(t) => Some((seq![s[i + 1]] + t.0, t.1)),
                None => None,
            }
        } else if i + 5 < s.len() && s[i + 1] == 'u' && s[i + 2] == '0' && s[i + 3] == '0'
            && is_lhex(s[i + 4]) && is_lhex(s[i + 5]) && lhex_val(s[i + 4]) * 16 + lhex_val(
            s[i + 5],
        ) < 0x20 {
            match p_str_body(s, i + 6) {
                Some(t) => Some(
                    (seq![((lhex_val(s[i + 4]) * 16 + lhex_val(s[i + 5])) as u8) as char] + t.0, t.1),
                ),
                None => None,
            }
        } else {
            None
        }
    } else {
        match p_str_body(s, i + 1) {
            Some(t) => Some((seq![s[i]] + t.0, t.1)),
            None => None,
        }
    }
}

/// A quoted string at `i`.
pub open spec fn p_string(s: Seq<char>, i: int) -> Option<(Seq<char>, int)> {
    if 0 <= i && i < s.len() && s[i] == '"' {
        p_str_body(s, i + 1)
    } else {
        None
    }
}

/// A detailed part at `i`: its seven fields under their names, in order.
pub open spec fn p_detail(s: Seq<char>, i: int) -> Option<(DetailModel, int)> {
    let a1 = p_lit(s, i, "{\"interface\":"@);
    let v1 = if a1 is Some {
        p_string(s, a1->0)
    } else {
        None
    };
    let a2 = if v1 is Some {
        p_lit(s, (v1->0).1, ",\"src_mac\":"@)
    } else {
        None
    };
    let v2 = if a2 is Some {
        p_string(s, a2->0)
    } else {
        None
    };
    let a3 = if v2 is Some {
        p_lit(s, (v2->0).1, ",\"dst_mac\":"@)
    } else {
        None
    };
    let v3 = if a3 is Some {
        p_string(s, a3->0)
    } else {
        None
    };
    let a4 = if v3 is Some {
        p_lit(s, (v3->0).1, ",\"frame_type\":"@)
    } else {
        None
    };
    let v4 = if a4 is Some {
        p_string(s, a4->0)
    } else {
        None
    };
    let a5 = if v4 is Some {
        p_lit(s, (v4->0).1, ",\"payload_length\":"@)
    } else {
        None
    };
    let n1 = if a5 is Some {
        p_nat(s, a5->0)
    } else {
        None
    };
    let a6 = if n1 is Some {
        p_lit(s, (n1->0).1, ",\"packet_length\":"@)
    } else {
        None
    };
    let n2 = if a6 is Some {
        p_nat(s, a6->0)
    } else {
        None
    };
    let a7 = if n2 is Some {
        p_lit(s, (n2->0).1, ",\"payload_data\":"@)
    } else {
        None
    };
    let v5 = if a7 is Some {
        p_string(s, a7->0)
    } else {
        None
    };
    let a8 = if v5 is Some {
        p_lit(s, (v5->0).1, "}"@)
    } else {
        None
    };
    if a8 is Some && (n1->0).0 <= usize::MAX as int && (n2->0).0 <= usize::MAX as int {
        Some(
            (
                DetailModel {
                    interface: (v1->0).0,
                    src_mac: (v2->0).0,
                    dst_mac: (v3->0).0,
                    frame_type: (v4->0).0,
                    payload_length: (n1->0).0,
                    packet_length: (n2->0).0,
                    payload_data: (v5->0).0,
                },
                a8->0,
            ),
        )
    } else {
        None
    }
}

/// A record at `i`: its eight fields under their names, in order, the
/// detailed part being either an object or `null`.
pub open spec fn p_record(s: Seq<char>, i: int) -> Option<(RecordModel, int)> {
    let a1 = p_lit(s, i, "{\"number\":"@);
    let n1 = if a1 is Some {
        p_nat(s, a1->0)
    } else {
        None
    };
    let a2 = if n1 is Some {
        p_lit(s, (n1->0).1, ",\"time\":"@)
    } else {
        None
    };
    let v1 = if a2 is Some {
        p_string(s, a2->0)
    } else {
        None
    };
    let a3 = if v1 is Some {
        p_lit(s, (v1->0).1, ",\"src_ip\":"@)
    } else {
        None
    };
    let v2 = if a3 is Some {
        p_string(s, a3->0)
    } else {
        None
    };
    let a4 = if v2 is Some {
        p_lit(s, (v2->0).1, ",\"dst_ip\":"@)
    } else {
        None
    };
    let v3 = if a4 is Some {
        p_string(s, a4->0)
    } else {
        None
    };
    let a5 = if v3 is Some {
        p_lit(s, (v3->0).1, ",\"protocol\":"@)
    } else {
        None
    };
    let v4 = if a5 is Some {
        p_string(s, a5->0)
    } else {
        None
    };
    let a6 = if v4 is Some {
        p_lit(s, (v4->0).1, ",\"lenght\":"@)
    } else {
        None
    };
    let n2 = if a6 is Some {
        p_nat(s, a6->0)
    } else {
        None
    };
    let a7 = if n2 is Some {
        p_lit(s, (n2->0).1, ",\"info\":"@)
    } else {
        None
    };
    let v5 = if a7 is Some {
        p_string(s, a7->0)
    } else {
        None
    };
    let a8 = if v5 is Some {
        p_lit(s, (v5->0).1, ",\"detailed_info\":"@)
    } else {
        None
    };
    let d: Option<(Option<DetailModel>, int)> = if a8 is Some {
        if a8->0 < s.len() && s[a8->0] == '{' {
            match p_detail(s, a8->0) {
                Some(t) => Some((Some(t.0), t.1)),
                None => None,
            }
        } else {
            match p_lit(s, a8->0, "null"@) {
                Some(j) => Some((None, j)),
                None => None,
            }
        }
    } else {
        None
    };
    let a9 = if d is Some {
        p_lit(s, (d->0).1, "}"@)
    } else {
        None
    };
    if a9 is Some && (n1->0).0 <= u32::MAX as int && (n2->0).0 <= usize::MAX as int {
        Some(
            (
                RecordModel {
                    number: (n1->0).0,
                    time: (v1->0).0,
                    src_ip: (v2->0).0,
                    dst_ip: (v3->0).0,
                    protocol: (v4->0).0,
                    lenght: (n2->0).0,
                    info: (v5->0).0,
                    detail: (d->0).0,
                },
                a9->0,
            ),
        )
    } else {
        None
    }
}

/// One or more records separated by commas, closed by `]`.
pub open spec fn p_items(s: Seq<char>, i: int) -> Option<(Seq<RecordModel>, int)>
    decreases s.len() - i,
{
    match p_record(s, i) {
        None => None,
        Some(t) => {
            let j = t.1;
            if i < j && j < s.len() {
                if s[j] == ']' {
                    Some((seq![t.0], j + 1))
                } else if s[j] == ',' {
                    match p_items(s, j + 1) {
                        Some(rest) => Some((seq![t.0] + rest.0, rest.1)),
                        None => None,
                    }
                } else {
                    None
                }
            } else {
                None
            }
        },
    }
}

/// A whole record array at `i`.
pub open spec fn p_array(s: Seq<char>, i: int) -> Option<(Seq<RecordModel>, int)> {
    if 0 <= i && i < s.len() && s[i] == '[' {
        if i + 1 < s.len() && s[i + 1] == ']' {
            Some((Seq::empty(), i + 2))
        } else {
            p_items(s, i + 1)
        }
    } else {
        None
    }
}

/// The snapshot grammar: one record array covering the whole text.
pub open spec fn p_snapshot(s: Seq<char>) -> Option<Seq<RecordModel>> {
    match p_array(s, 0) {
        Some(t) => if t.1 == s.len() {
            Some(t.0)
        } else {
            None
        },
        None => None,
    }
}

/// Whether `c` is a decimal digit.
fn char_is_digit(c: char) -> (b: bool)
    ensures
        b == is_digit(c),
{
    let u = c as u32;
    0x30 <= u && u <= 0x39
}

/// Whether `c` is a lower-case hexadecimal digit.
fn char_is_lhex(c: char) -> (b: bool)
    ensures
        b == is_lhex(c),
{
    let u = c as u32;
    (0x30 <= u && u <= 0x39) || (0x61 <= u && u <= 0x66)
}

/// The value of a lower-case hexadecimal digit.
fn char_lhex_val(c: char) -> (v: u8)
    requires
        is_lhex(c),
    ensures
        v == lhex_val(c),
        v < 16,
{
    let u = c as u32;
    if u <= 0x39 {
        (u - 0x30) as u8
    } else {
        (u - 0x57) as u8
    }
}

/// Matches the literal `lit` at `i`.
fn parse_lit(chars: &Vec<char>, i: usize, lit: &str) -> (r: Option<usize>)
    ensures
        r is Some <==> p_lit(chars@, i as int, lit@) is Some,
        r matches Some(j) ==> p_lit(chars@, i as int, lit@) == Some(j as int),
{
    let n = chars.len();
    let llen = lit.unicode_len();
    if i > n || n - i < llen {
        return None;
    }
    let mut k: usize = 0;
    while k < llen
        invariant
            n == chars@.len(),
            llen == lit@.len(),
            i + llen <= n,
            k <= llen,
            forall|m: int| 0 <= m < k ==> chars@[i + m] == lit@[m],
        decreases llen - k,
    {
        if chars[i + k] != lit.get_char(k) {
            proof {
                if p_lit(chars@, i as int, lit@) is Some {
                    assert(chars@.subrange(i as int, i + lit@.len())[k as int] == lit@[k as int]);
                }
            }
            return None;
        }
        k += 1;
    }
    proof {
        assert(chars@.subrange(i as int, i + lit@.len()) =~= lit@);
    }
    Some(i + llen)
}

/// Parses a quoted string at `i`, unescaping its body.
#[verifier::rlimit(100)]
fn parse_string(chars: &Vec<char>, i: usize) -> (r: Option<(Vec<char>, usize)>)
    ensures
        r is Some <==> p_string(chars@, i as int) is Some,
        r matches Some(t) ==> p_string(chars@, i as int) == Some((t.0@, t.1 as int)),
{
    let n = chars.len();
    if i >= n || chars[i] != '"' {
        return None;
    }
    let mut out: Vec<char> = Vec::new();
    let mut cur: usize = i + 1;
    proof {
        if p_str_body(chars@, (i + 1) as int) is Some {
            let t = p_str_body(chars@, (i + 1) as int)->0;
            assert(out@ + t.0 =~= t.0);
        }
    }
    loop
        invariant
            n == chars@.len(),
            i < n,
            chars@[i as int] == '"',
            i + 1 <= cur <= n,
            p_str_body(chars@, (i + 1) as int) == (match p_str_body(chars@, cur as int) {
                Some(t) => Some((out@ + t.0, t.1)),
                None => None::<(Seq<char>, int)>,
            }),
        decreases n - cur,
    {
        if cur >= n {
            return None;
        }
        let c = chars[cur];
        if c == '"' {
            proof {
                assert(p_str_body(chars@, cur as int) == Some(
                    (Seq::<char>::empty(), (cur + 1) as int),
                ));
                assert(out@ + Seq::<char>::empty() =~= out@);
            }
            return Some((out, cur + 1));
        } else if c == '\\' {
            if cur + 1 < n && (chars[cur + 1] == '"' || chars[cur + 1] == '\\') {
                let ghost prev = out@;
                out.push(chars[cur + 1]);
                proof {
                    if p_str_body(chars@, (cur + 2) as int) is Some {
                        let t = p_str_body(chars@, (cur + 2) as int)->0;
                        assert(prev + (seq![chars@[cur + 1]] + t.0) =~= out@ + t.0);
                    }
                }
                cur += 2;
            } else if n - cur > 5 && chars[cur + 1] == 'u' && chars[cur + 2] == '0' && chars[cur
                + 3] == '0' && char_is_lhex(chars[cur + 4]) && char_is_lhex(chars[cur + 5]) {
                let v = char_lhex_val(chars[cur + 4]) * 16 + char_lhex_val(chars[cur + 5]);
                if v < 0x20 {
                    let ghost prev = out@;
                    out.push(v as char);
                    proof {
                        if p_str_body(chars@, (cur + 6) as int) is Some {
                            let t = p_str_body(chars@, (cur + 6) as int)->0;
                            assert(prev + (seq![(v as u8) as char] + t.0) =~= out@ + t.0);
                        }
                    }
                    cur += 6;
                } else {
                    return None;
                }
            } else {
                return None;
            }
        } else {
            let ghost prev = out@;
            out.push(c);
            proof {
                if p_str_body(chars@, (cur + 1) as int) is Some {
                    let t = p_str_body(chars@, (cur + 1) as int)->0;
                    assert(prev + (seq![chars@[cur as int]] + t.0) =~= out@ + t.0);
                }
            }
            cur += 1;
        }
    }
}

/// Digit characters make non-negative values.
proof fn lemma_digits_val_nonneg(s: Seq<char>, i: int, j: int)
    requires
        forall|m: int| i <= m < j ==> is_digit(#[trigger] s[m]),
    ensures
        digits_val(s, i, j) >= 0,
    decreases j - i,
{
    if j > i {
        lemma_digits_val_nonneg(s, i, j - 1);
    }
}

/// A digit run's value only grows as more digits are taken.
proof fn lemma_digits_val_mono(s: Seq<char>, i: int, j: int, e: int)
    requires
        i <= j <= e,
        forall|m: int| i <= m < e ==> is_digit(#[trigger] s[m]),
    ensures
        digits_val(s, i, e) >= digits_val(s, i, j),
    decreases e - j,
{
    if j < e {
        lemma_digits_val_mono(s, i, j, e - 1);
        lemma_digits_val_nonneg(s, i, e - 1);
    }
}

/// The digit run ends within the text and after its start.
proof fn lemma_digits_end_bounds(s: Seq<char>, i: int)
    requires
        0 <= i <= s.len(),
    ensures
        i <= digits_end(s, i) <= s.len(),
    decreases s.len() - i,
{
    if i < s.len() && is_digit(s[i]) {
        lemma_digits_end_bounds(s, i + 1);
    }
}

/// Every character of the digit run is a digit.
proof fn lemma_digits_run(s: Seq<char>, i: int)
    requires
        0 <= i <= s.len(),
    ensures
        forall|m: int| i <= m < digits_end(s, i) ==> is_digit(#[trigger] s[m]),
    decreases s.len() - i,
{
    if i < s.len() && is_digit(s[i]) {
        lemma_digits_run(s, i + 1);
        lemma_digits_end_bounds(s, i + 1);
    }
}

/// Parses a canonical decimal at `i` into a `u64`; fails on anything that is
/// not a digit run, on a leading zero, and on values over `u64::MAX`.
fn parse_number(chars: &Vec<char>, i: usize) -> (r: Option<(u64, usize)>)
    ensures
        r matches Some(t) ==> p_nat(chars@, i as int) == Some((t.0 as int, t.1 as int)),
        r is None ==> (p_nat(chars@, i as int) is None || (p_nat(chars@, i as int) matches Some(t)
            && t.0 > u64::MAX)),
{
    let n = chars.len();
    if i >= n {
        return None;
    }
    let mut cur: usize = i;
    let mut val: u64 = 0;
    while cur < n && char_is_digit(chars[cur])
        invariant
            n == chars@.len(),
            i <= cur <= n,
            digits_end(chars@, i as int) == digits_end(chars@, cur as int),
            forall|m: int| i <= m < cur ==> is_digit(#[trigger] chars@[m]),
            val == digits_val(chars@, i as int, cur as int),
        decreases n - cur,
    {
        let d = ((chars[cur] as u32) - 0x30) as u64;
        if val > (u64::MAX - d) / 10 {
            proof {
                let s = chars@;
                let e = digits_end(s, i as int);
                lemma_digits_end_bounds(s, (cur + 1) as int);
                lemma_digits_run(s, i as int);
                assert(digits_val(s, i as int, (cur + 1) as int) == val * 10 + d);
                assert(val * 10 + d > u64::MAX);
                assert(e == digits_end(s, (cur + 1) as int));
                lemma_digits_val_mono(s, i as int, (cur + 1) as int, e);
            }
            return None;
        }
        val = val * 10 + d;
        proof {
            assert(digits_val(chars@, i as int, (cur + 1) as int) == digits_val(
                chars@,
                i as int,
                cur as int,
            ) * 10 + digit_val(chars@[cur as int]));
        }
        cur += 1;
    }
    if cur == i {
        return None;
    }
    if chars[i] == '0' && cur > i + 1 {
        return None;
    }
    Some((val, cur))
}

/// Parses a detailed part at `i`.
#[verifier::rlimit(100)]
fn parse_detail(chars: &Vec<char>, i: usize) -> (r: Option<(DetailedInfo, usize)>)
    ensures
        r is Some <==> p_detail(chars@, i as int) is Some,
        r matches Some(t) ==> p_detail(chars@, i as int) == Some((detail_model(t.0), t.1 as int)),
{
    let a1 = match parse_lit(chars, i, "{\"interface\":") {
        Some(j) => j,
        None => {
            return None;
        },
    };
    let (interface, b1) = match parse_string(chars, a1) {
        Some(t) => t,
        None => {
            return None;
        },
    };
    let a2 = match parse_lit(chars, b1, ",\"src_mac\":") {
        Some(j) => j,
        None => {
            return None;
        },
    };
    let (src_mac, b2) = match parse_string(chars, a2) {
        Some(t) => t,
        None => {
            return None;
        },
    };
    let a3 = match parse_lit(chars, b2, ",\"dst_mac\":") {
        Some(j) => j,
        None => {
            return None;
        },
    };
    let (dst_mac, b3) = match parse_string(chars, a3) {
        Some(t) => t,
        None => {
            return None;
        },
    };
    let a4 = match parse_lit(chars, b3, ",\"frame_type\":") {
        Some(j) => j,
        None => {
            return None;
        },
    };
    let (frame_type, b4) = match parse_string(chars, a4) {
        Some(t) => t,
        None => {
            return None;
        },
    };
    let a5 = match parse_lit(chars, b4, ",\"payload_length\":") {
        Some(j) => j,
        None => {
            return None;
        },
    };
    let (payload_length, b5) = match parse_number(chars, a5) {
        Some(t) => t,
        None => {
            return None;
        },
    };
    if payload_length > usize::MAX as u64 {
        return None;
    }
    let a6 = match parse_lit(chars, b5, ",\"packet_length\":") {
        Some(j) => j,
        None => {
            return None;
        },
    };
    let (packet_length, b6) = match parse_number(chars, a6) {
        Some(t) => t,
        None => {
            return None;
        },
    };
    if packet_length > usize::MAX as u64 {
        return None;
    }
    let a7 = match parse_lit(chars, b6, ",\"payload_data\":") {
        Some(j) => j,
        None => {
            return None;
        },
    };
    let (payload_data, b7) = match parse_string(chars, a7) {
        Some(t) => t,
        None => {
            return None;
        },
    };
    let a8 = match parse_lit(chars, b7, "}") {
        Some(j) => j,
        None => {
            return None;
        },
    };
    let d = DetailedInfo {
        interface: chars_to_string(&interface),
        src_mac: chars_to_string(&src_mac),
        dst_mac: chars_to_string(&dst_mac),
        frame_type: chars_to_string(&frame_type),
        payload_length: payload_length as usize,
        packet_length: packet_length as usize,
        payload_data: chars_to_string(&payload_data),
    };
    assert(p_detail(chars@, i as int) == Some((detail_model(d), a8 as int)));
    Some((d, a8))
}

/// Parses one record at `i`; the capture instant, which the encoding leaves
/// out, is reset to zero.
#[verifier::rlimit(100)]
fn parse_record(chars: &Vec<char>, i: usize) -> (r: Option<(FormatedPacket, usize)>)
    ensures
        r is Some <==> p_record(chars@, i as int) is Some,
        r matches Some(t) ==> p_record(chars@, i as int) == Some((record_model(t.0), t.1 as int))
            && t.0.timestamp == 0,
{
    let a1 = match parse_lit(chars, i, "{\"number\":") {
        Some(j) => j,
        None => {
            return None;
        },
    };
    let (number, b1) = match parse_number(chars, a1) {
        Some(t) => t,
        None => {
            return None;
        },
    };
    if number > u32::MAX as u64 {
        return None;
    }
    let a2 = match parse_lit(chars, b1, ",\"time\":") {
        Some(j) => j,
        None => {
            return None;
        },
    };
    let (time, b2) = match parse_string(chars, a2) {
        Some(t) => t,
        None => {
            return None;
        },
    };
    let a3 = match parse_lit(chars, b2, ",\"src_ip\":") {
        Some(j) => j,
        None => {
            return None;
        },
    };
    let (src_ip, b3) = match parse_string(chars, a3) {
        Some(t) => t,
        None => {
            return None;
        },
    };
    let a4 = match parse_lit(chars, b3, ",\"dst_ip\":") {
        Some(j) => j,
        None => {
            return None;
        },
    };
    let (dst_ip, b4) = match parse_string(chars, a4) {
        Some(t) => t,
        None => {
            return None;
        },
    };
    let a5 = match parse_lit(chars, b4, ",\"protocol\":") {
        Some(j) => j,
        None => {
            return None;
        },
    };
    let (protocol, b5) = match parse_string(chars, a5) {
        Some(t) => t,
        None => {
            return None;
        },
    };
    let a6 = match parse_lit(chars, b5, ",\"lenght\":") {
        Some(j) => j,
        None => {
            return None;
        },
    };
    let (lenght, b6) = match parse_number(chars, a6) {
        Some(t) => t,
        None => {
            return None;
        },
    };
    if lenght > usize::MAX as u64 {
        return None;
    }
    let a7 = match parse_lit(chars, b6, ",\"info\":") {
        Some(j) => j,
        None => {
            return None;
        },
    };
    let (info, b7) = match parse_string(chars, a7) {
        Some(t) => t,
        None => {
            return None;
        },
    };
    let a8 = match parse_lit(chars, b7, ",\"detailed_info\":") {
        Some(j) => j,
        None => {
            return None;
        },
    };
    let (detail, b8): (Option<DetailedInfo>, usize) = if a8 < chars.len() && chars[a8] == '{' {
        match parse_detail(chars, a8) {
            Some(t) => (Some(t.0), t.1),
            None => {
                return None;
            },
        }
    } else {
        match parse_lit(chars, a8, "null") {
            Some(j) => (None, j),
            None => {
                return None;
            },
        }
    };
    let a9 = match parse_lit(chars, b8, "}") {
        Some(j) => j,
        None => {
            return None;
        },
    };
    let rec = FormatedPacket {
        number: number as u32,
        time: chars_to_string(&time),
        src_ip: chars_to_string(&src_ip),
        dst_ip: chars_to_string(&dst_ip),
        protocol: chars_to_string(&protocol),
        lenght: lenght as usize,
        info: chars_to_string(&info),
        detailed_info: detail,
        timestamp: 0,
    };
    assert(p_record(chars@, i as int) == Some((record_model(rec), a9 as int)));
    Some((rec, a9))
}

/// Parses the records of an array body, from after the `[` to past the `]`.
#[verifier::rlimit(100)]
fn parse_items(chars: &Vec<char>, i: usize) -> (r: Option<(Vec<FormatedPacket>, usize)>)
    ensures
        r is Some <==> p_items(chars@, i as int) is Some,
        r matches Some(t) ==> p_items(chars@, i as int) == Some(
            (record_models(t.0@), t.1 as int),
        ) && (forall|k: int| 0 <= k < t.0@.len() ==> (#[trigger] t.0@[k]).timestamp == 0),
{
    let n = chars.len();
    if i > n {
        assert(p_lit(chars@, i as int, "{\"number\":"@) is None);
        return None;
    }
    let mut out: Vec<FormatedPacket> = Vec::new();
    let mut cur: usize = i;
    proof {
        if p_items(chars@, i as int) is Some {
            let t = p_items(chars@, i as int)->0;
            assert(record_models(out@) + t.0 =~= t.0);
        }
    }
    loop
        invariant
            n == chars@.len(),
            cur <= n,
            forall|k: int| 0 <= k < out@.len() ==> (#[trigger] out@[k]).timestamp == 0,
            p_items(chars@, i as int) == (match p_items(chars@, cur as int) {
                Some(t) => Some((record_models(out@) + t.0, t.1)),
                None => None::<(Seq<RecordModel>, int)>,
            }),
        decreases n - cur,
    {
        match parse_record(chars, cur) {
            None => {
                return None;
            },
            Some((rec, j)) => {
                if !(cur < j && j < n) {
                    return None;
                }
                let cj = chars[j];
                if cj == ']' {
                    let ghost prev = out@;
                    out.push(rec);
                    proof {
                        assert(record_models(out@) =~= record_models(prev).push(record_model(rec)));
                        assert(record_models(prev) + seq![record_model(rec)] =~= record_models(
                            out@,
                        ));
                    }
                    return Some((out, j + 1));
                } else if cj == ',' {
                    let ghost prev = out@;
                    out.push(rec);
                    proof {
                        assert(record_models(out@) =~= record_models(prev).push(record_model(rec)));
                        if p_items(chars@, (j + 1) as int) is Some {
                            let t = p_items(chars@, (j + 1) as int)->0;
                            assert(record_models(prev) + (seq![record_model(rec)] + t.0)
                                =~= record_models(out@) + t.0);
                        }
                    }
                    cur = j + 1;
                } else {
                    return None;
                }
            },
        }
    }
}

/// Deserializes a snapshot: accepts exactly the encoding that
/// `export_packets` produces, returns the records in order with the capture
/// instant reset to zero, and reports anything else as a failure without
/// touching any state.
pub fn import_packets(data: &str) -> (r: Result<Vec<FormatedPacket>, AppError>)
    ensures
        r is Ok <==> p_snapshot(data@) is Some,
        r matches Ok(v) ==> p_snapshot(data@) == Some(record_models(v@)) && (forall|k: int|
            0 <= k < v@.len() ==> (#[trigger] v@[k]).timestamp == 0),
{
    let chars = str_to_chars(data);
    let n = chars.len();
    if n == 0 || chars[0] != '[' {
        return Err(AppError::InvalidSnapshot);
    }
    if 1 < n && chars[1] == ']' {
        if n == 2 {
            let v: Vec<FormatedPacket> = Vec::new();
            assert(record_models(v@) =~= Seq::<RecordModel>::empty());
            return Ok(v);
        } else {
            return Err(AppError::InvalidSnapshot);
        }
    }
    match parse_items(&chars, 1) {
        None => Err(AppError::InvalidSnapshot),
        Some((v, e)) => {
            if e == n {
                Ok(v)
            } else {
                Err(AppError::InvalidSnapshot)
            }
        },
    }
}

/// `t` occurs in `s` at position `i`.
pub open spec fn occurs(s: Seq<char>, i: int, t: Seq<char>) -> bool {
    0 <= i && i + t.len() <= s.len() && s.subrange(i, i + t.len()) == t
}

/// An occurrence of a concatenation is an occurrence of each part in turn.
proof fn lemma_occurs_split(s: Seq<char>, i: int, a: Seq<char>, b: Seq<char>)
    requires
        occurs(s, i, a + b),
    ensures
        occurs(s, i, a),
        occurs(s, i + a.len(), b),
{
    assert(s.subrange(i, i + a.len()) =~= a) by {
        assert forall|k: int| 0 <= k < a.len() implies s.subrange(i, i + a.len())[k] == a[k] by {
            assert(s.subrange(i, i + (a + b).len())[k] == (a + b)[k]);
        }
    }
    assert(s.subrange(i + a.len(), i + a.len() + b.len()) =~= b) by {
        assert forall|k: int|
            0 <= k < b.len() implies s.subrange(i + a.len(), i + a.len() + b.len())[k] == b[k] by {
            assert(s.subrange(i, i + (a + b).len())[a.len() + k] == (a + b)[a.len() + k]);
        }
    }
}

/// A literal parses at any position where it occurs.
proof fn lemma_p_lit(s: Seq<char>, i: int, lit: Seq<char>)
    requires
        occurs(s, i, lit),
    ensures
        p_lit(s, i, lit) == Some(i + lit.len()),
{
}

/// A character of an occurrence is a character of the text.
proof fn lemma_occurs_index(s: Seq<char>, i: int, t: Seq<char>, k: int)
    requires
        occurs(s, i, t),
        0 <= k < t.len(),
    ensures
        s[i + k] == t[k],
{
    assert(s.subrange(i, i + t.len())[k] == t[k]);
}

/// Every character of a decimal rendering is a digit.
proof fn lemma_dec_nat_digits(n: int)
    requires
        n >= 0,
    ensures
        dec_nat(n).len() >= 1,
        forall|k: int| 0 <= k < dec_nat(n).len() ==> is_digit(#[trigger] dec_nat(n)[k]),
    decreases n,
{
    if n < 10 {
        assert(is_digit(dec_digit(n)));
    } else {
        lemma_dec_nat_digits(n / 10);
        assert(is_digit(dec_digit(n % 10)));
        assert(forall|k: int|
            0 <= k < dec_nat(n).len() - 1 ==> #[trigger] dec_nat(n)[k] == dec_nat(n / 10)[k]);
    }
}

/// A decimal rendering of a positive number does not start with a zero.
proof fn lemma_dec_nat_no_leading_zero(n: int)
    requires
        n >= 1,
    ensures
        dec_nat(n)[0] != '0',
    decreases n,
{
    if n < 10 {
        assert(dec_digit(n) as int == 0x30 + n);
        assert('0' as int == 0x30);
    } else {
        lemma_dec_nat_no_leading_zero(n / 10);
        assert(dec_nat(n)[0] == dec_nat(n / 10)[0]);
    }
}

/// The zero rendering is the single digit `0`.
proof fn lemma_dec_nat_zero()
    ensures
        dec_nat(0).len() == 1,
        dec_nat(0)[0] == '0',
{
    assert(dec_digit(0) as int == 0x30);
    assert('0' as int == 0x30);
    assert(dec_digit(0) == '0') by {
        assert(dec_digit(0) as int == '0' as int);
    }
}

/// Scanning a digit run whose end is marked by a non-digit (or the text's
/// end) stops exactly there.
proof fn lemma_digits_end_exact(s: Seq<char>, i: int, e: int)
    requires
        0 <= i <= e <= s.len(),
        forall|m: int| i <= m < e ==> is_digit(#[trigger] s[m]),
        e == s.len() || !is_digit(s[e]),
    ensures
        digits_end(s, i) == e,
    decreases e - i,
{
    if i < e {
        lemma_digits_end_exact(s, i + 1, e);
    }
}

/// The scanned value of an occurrence of a decimal rendering is the number.
proof fn lemma_digits_val_of_dec(s: Seq<char>, i: int, n: int)
    requires
        n >= 0,
        occurs(s, i, dec_nat(n)),
    ensures
        digits_val(s, i, i + dec_nat(n).len()) == n,
    decreases n,
{
    let t = dec_nat(n);
    lemma_dec_nat_digits(n);
    if n < 10 {
        lemma_occurs_index(s, i, t, 0);
        assert(digits_val(s, i, i) == 0);
        assert(digits_val(s, i, i + 1) == digit_val(s[i]));
        assert(digit_val(dec_digit(n)) == n);
    } else {
        let t0 = dec_nat(n / 10);
        assert(t == t0.push(dec_digit(n % 10)));
        assert(t =~= t0 + seq![dec_digit(n % 10)]);
        lemma_occurs_split(s, i, t0, seq![dec_digit(n % 10)]);
        lemma_digits_val_of_dec(s, i, n / 10);
        lemma_occurs_index(s, i + t0.len(), seq![dec_digit(n % 10)], 0);
        assert(digits_val(s, i, i + t.len()) == digits_val(s, i, i + t.len() - 1) * 10 + digit_val(
            s[i + t.len() - 1],
        ));
        assert(digit_val(dec_digit(n % 10)) == n % 10);
    }
}

/// A decimal rendering followed by a non-digit parses to its number.
proof fn lemma_p_nat(s: Seq<char>, i: int, n: int)
    requires
        n >= 0,
        occurs(s, i, dec_nat(n)),
        i + dec_nat(n).len() == s.len() || !is_digit(s[i + dec_nat(n).len()]),
    ensures
        p_nat(s, i) == Some((n, i + dec_nat(n).len())),
{
    let t = dec_nat(n);
    let e = i + t.len();
    lemma_dec_nat_digits(n);
    assert forall|m: int| i <= m < e implies is_digit(#[trigger] s[m]) by {
        lemma_occurs_index(s, i, t, m - i);
    }
    lemma_digits_end_exact(s, i, e);
    lemma_digits_val_of_dec(s, i, n);
    if n == 0 {
        lemma_dec_nat_zero();
    } else {
        lemma_dec_nat_no_leading_zero(n);
        lemma_occurs_index(s, i, t, 0);
    }
}

/// Facts about the `\\u00xx` escape of one control character: its hex
/// digits are lower-case hex digits carrying the character's code, and that
/// code rebuilds the character.
proof fn lemma_control_char(c: char)
    requires
        c != '"',
        c != '\\',
        (c as int) < 0x20,
    ensures
        0 <= c as int,
        is_lhex(hex_digit(c as int / 16)),
        lhex_val(hex_digit(c as int / 16)) == c as int / 16,
        is_lhex(hex_digit(c as int % 16)),
        lhex_val(hex_digit(c as int % 16)) == c as int % 16,
        (((c as int / 16) * 16 + (c as int % 16)) as u8) as char == c,
        (c as int / 16) * 16 + (c as int % 16) < 0x20,
{
    assert(c as int >= 0);
    assert(0 <= c as int / 16 < 2 && 0 <= c as int % 16 < 16);
    assert(hex_digit(c as int / 16) as int == 0x30 + c as int / 16);
    assert(hex_digit(c as int % 16) as int == (if c as int % 16 < 10 {
        0x30 + c as int % 16
    } else {
        0x57 + c as int % 16
    }));
    assert((c as int / 16) * 16 + (c as int % 16) == c as int);
    assert(((c as int) as u8) as char == c);
}

/// An occurrence of an escaped string body followed by a closing quote
/// parses back to exactly that body.
#[verifier::rlimit(100)]
proof fn lemma_p_str_body(s: Seq<char>, i: int, t: Seq<char>)
    requires
        occurs(s, i, escape(t) + seq!['"']),
    ensures
        p_str_body(s, i) == Some((t, i + escape(t).len() + 1)),
    decreases t.len(),
{
    let enc = escape(t) + seq!['"'];
    if t.len() == 0 {
        assert(escape(t) =~= Seq::<char>::empty());
        lemma_occurs_index(s, i, enc, 0);
        assert(t =~= Seq::<char>::empty());
    } else {
        let c = t[0];
        let t1 = t.drop_first();
        let e1 = esc_char(c);
        assert(escape(t) == e1 + escape(t1));
        assert(enc =~= e1 + (escape(t1) + seq!['"']));
        lemma_occurs_split(s, i, e1, escape(t1) + seq!['"']);
        let i1 = i + e1.len();
        lemma_p_str_body(s, i1, t1);
        if c == '"' {
            lemma_occurs_index(s, i, e1, 0);
            lemma_occurs_index(s, i, e1, 1);
            assert(seq![s[i + 1]] + t1 =~= t);
        } else if c == '\\' {
            lemma_occurs_index(s, i, e1, 0);
            lemma_occurs_index(s, i, e1, 1);
            assert(seq![s[i + 1]] + t1 =~= t);
        } else if (c as int) < 0x20 {
            lemma_control_char(c);
            assert(e1 =~= seq!['\\', 'u', '0', '0'] + hex2(c as int));
            lemma_occurs_index(s, i, e1, 0);
            lemma_occurs_index(s, i, e1, 1);
            lemma_occurs_index(s, i, e1, 2);
            lemma_occurs_index(s, i, e1, 3);
            lemma_occurs_index(s, i, e1, 4);
            lemma_occurs_index(s, i, e1, 5);
            assert(s[i + 4] == hex_digit(c as int / 16));
            assert(s[i + 5] == hex_digit(c as int % 16));
            let v = lhex_val(s[i + 4]) * 16 + lhex_val(s[i + 5]);
            assert(v == c as int / 16 * 16 + c as int % 16);
            assert(((v as u8) as char) == c);
            assert(seq![(v as u8) as char] + t1 =~= t);
        } else {
            lemma_occurs_index(s, i, e1, 0);
            assert(s[i] == c);
            assert(seq![s[i]] + t1 =~= t);
        }
    }
}

/// An occurrence of an encoded string parses back to the string.
proof fn lemma_p_string(s: Seq<char>, i: int, t: Seq<char>)
    requires
        occurs(s, i, enc_str(t)),
    ensures
        p_string(s, i) == Some((t, i + enc_str(t).len())),
{
    assert(enc_str(t) =~= seq!['"'] + (escape(t) + seq!['"']));
    lemma_occurs_split(s, i, seq!['"'], escape(t) + seq!['"']);
    lemma_occurs_index(s, i, seq!['"'], 0);
    lemma_p_str_body(s, i + 1, t);
}

/// The model values a real record can carry: its numeric fields fit their
/// machine types.
pub open spec fn model_in_range(m: RecordModel) -> bool {
    &&& 0 <= m.number <= u32::MAX as int
    &&& 0 <= m.lenght <= usize::MAX as int
    &&& (m.detail matches Some(d) ==> 0 <= d.payload_length <= usize::MAX as int && 0
        <= d.packet_length <= usize::MAX as int)
}

/// An occurrence of an encoded detailed part parses back to it.
#[verifier::rlimit(100)]
proof fn lemma_p_detail(s: Seq<char>, i: int, d: DetailModel)
    requires
        occurs(s, i, enc_detail(d)),
        0 <= d.payload_length <= usize::MAX as int,
        0 <= d.packet_length <= usize::MAX as int,
    ensures
        p_detail(s, i) == Some((d, i + enc_detail(d).len())),
{
    let t15 = seq!['}'];
    let t14 = enc_str(d.payload_data) + t15;
    let t13 = ",\"payload_data\":"@ + t14;
    let t12 = dec_nat(d.packet_length) + t13;
    let t11 = ",\"packet_length\":"@ + t12;
    let t10 = dec_nat(d.payload_length) + t11;
    let t9 = ",\"payload_length\":"@ + t10;
    let t8 = enc_str(d.frame_type) + t9;
    let t7 = ",\"frame_type\":"@ + t8;
    let t6 = enc_str(d.dst_mac) + t7;
    let t5 = ",\"dst_mac\":"@ + t6;
    let t4 = enc_str(d.src_mac) + t5;
    let t3 = ",\"src_mac\":"@ + t4;
    let t2 = enc_str(d.interface) + t3;
    assert(enc_detail(d) == "{\"interface\":"@ + t2);
    lemma_occurs_split(s, i, "{\"interface\":"@, t2);
    let p2 = i + "{\"interface\":"@.len();
    lemma_occurs_split(s, p2, enc_str(d.interface), t3);
    lemma_p_string(s, p2, d.interface);
    let p3 = p2 + enc_str(d.interface).len();
    lemma_occurs_split(s, p3, ",\"src_mac\":"@, t4);
    let p4 = p3 + ",\"src_mac\":"@.len();
    lemma_occurs_split(s, p4, enc_str(d.src_mac), t5);
    lemma_p_string(s, p4, d.src_mac);
    let p5 = p4 + enc_str(d.src_mac).len();
    lemma_occurs_split(s, p5, ",\"dst_mac\":"@, t6);
    let p6 = p5 + ",\"dst_mac\":"@.len();
    lemma_occurs_split(s, p6, enc_str(d.dst_mac), t7);
    lemma_p_string(s, p6, d.dst_mac);
    let p7 = p6 + enc_str(d.dst_mac).len();
    lemma_occurs_split(s, p7, ",\"frame_type\":"@, t8);
    let p8 = p7 + ",\"frame_type\":"@.len();
    lemma_occurs_split(s, p8, enc_str(d.frame_type), t9);
    lemma_p_string(s, p8, d.frame_type);
    let p9 = p8 + enc_str(d.frame_type).len();
    lemma_occurs_split(s, p9, ",\"payload_length\":"@, t10);
    let p10 = p9 + ",\"payload_length\":"@.len();
    lemma_occurs_split(s, p10, dec_nat(d.payload_length), t11);
    let p11 = p10 + dec_nat(d.payload_length).len();
    reveal_strlit(",\"packet_length\":");
    lemma_occurs_index(s, p11, t11, 0);
    assert(s[p11] == ',');
    assert(!is_digit(s[p11])) by {
        assert(',' as int == 0x2c);
    }
    lemma_p_nat(s, p10, d.payload_length);
    lemma_occurs_split(s, p11, ",\"packet_length\":"@, t12);
    let p12 = p11 + ",\"packet_length\":"@.len();
    lemma_occurs_split(s, p12, dec_nat(d.packet_length), t13);
    let p13 = p12 + dec_nat(d.packet_length).len();
    reveal_strlit(",\"payload_data\":");
    lemma_occurs_index(s, p13, t13, 0);
    assert(s[p13] == ',');
    assert(!is_digit(s[p13])) by {
        assert(',' as int == 0x2c);
    }
    lemma_p_nat(s, p12, d.packet_length);
    lemma_occurs_split(s, p13, ",\"payload_data\":"@, t14);
    let p14 = p13 + ",\"payload_data\":"@.len();
    lemma_occurs_split(s, p14, enc_str(d.payload_data), t15);
    lemma_p_string(s, p14, d.payload_data);
    let p15 = p14 + enc_str(d.payload_data).len();
    reveal_strlit("}");
    assert("}"@ =~= seq!['}']);
    lemma_p_lit(s, p15, "}"@);
    assert(p_detail(s, i) == Some(
        (
            DetailModel {
                interface: d.interface,
                src_mac: d.src_mac,
                dst_mac: d.dst_mac,
                frame_type: d.frame_type,
                payload_length: d.payload_length,
                packet_length: d.packet_length,
                payload_data: d.payload_data,
            },
            p15 + 1,
        ),
    ));
    assert(DetailModel {
        interface: d.interface,
        src_mac: d.src_mac,
        dst_mac: d.dst_mac,
        frame_type: d.frame_type,
        payload_length: d.payload_length,
        packet_length: d.packet_length,
        payload_data: d.payload_data,
    } == d);
}


/// Every model value of a real record snapshot is in range.
pub open spec fn models_in_range(ms: Seq<RecordModel>) -> bool {
    forall|k: int| 0 <= k < ms.len() ==> model_in_range(#[trigger] ms[k])
}

/// An occurrence of an encoded record parses back to it.
#[verifier::rlimit(100)]
proof fn lemma_p_record(s: Seq<char>, i: int, m: RecordModel)
    requires
        occurs(s, i, enc_record(m)),
        model_in_range(m),
    ensures
        p_record(s, i) == Some((m, i + enc_record(m).len())),
{
    let t16 = (match m.detail {
        Some(d) => enc_detail(d),
        None => "null"@,
    }) + seq!['}'];
    let t15 = ",\"detailed_info\":"@ + t16;
    let t14 = enc_str(m.info) + t15;
    let t13 = ",\"info\":"@ + t14;
    let t12 = dec_nat(m.lenght) + t13;
    let t11 = ",\"lenght\":"@ + t12;
    let t10 = enc_str(m.protocol) + t11;
    let t9 = ",\"protocol\":"@ + t10;
    let t8 = enc_str(m.dst_ip) + t9;
    let t7 = ",\"dst_ip\":"@ + t8;
    let t6 = enc_str(m.src_ip) + t7;
    let t5 = ",\"src_ip\":"@ + t6;
    let t4 = enc_str(m.time) + t5;
    let t3 = ",\"time\":"@ + t4;
    let t2 = dec_nat(m.number) + t3;
    assert(enc_record(m) == "{\"number\":"@ + t2);
    lemma_occurs_split(s, i, "{\"number\":"@, t2);
    let p2 = i + "{\"number\":"@.len();
    lemma_occurs_split(s, p2, dec_nat(m.number), t3);
    let p3 = p2 + dec_nat(m.number).len();
    reveal_strlit(",\"time\":");
    lemma_occurs_index(s, p3, t3, 0);
    assert(s[p3] == ',');
    assert(!is_digit(s[p3])) by {
        assert(',' as int == 0x2c);
    }
    lemma_p_nat(s, p2, m.number);
    lemma_occurs_split(s, p3, ",\"time\":"@, t4);
    let p4 = p3 + ",\"time\":"@.len();
    lemma_occurs_split(s, p4, enc_str(m.time), t5);
    lemma_p_string(s, p4, m.time);
    let p5 = p4 + enc_str(m.time).len();
    lemma_occurs_split(s, p5, ",\"src_ip\":"@, t6);
    let p6 = p5 + ",\"src_ip\":"@.len();
    lemma_occurs_split(s, p6, enc_str(m.src_ip), t7);
    lemma_p_string(s, p6, m.src_ip);
    let p7 = p6 + enc_str(m.src_ip).len();
    lemma_occurs_split(s, p7, ",\"dst_ip\":"@, t8);
    let p8 = p7 + ",\"dst_ip\":"@.len();
    lemma_occurs_split(s, p8, enc_str(m.dst_ip), t9);
    lemma_p_string(s, p8, m.dst_ip);
    let p9 = p8 + enc_str(m.dst_ip).len();
    lemma_occurs_split(s, p9, ",\"protocol\":"@, t10);
    let p10 = p9 + ",\"protocol\":"@.len();
    lemma_occurs_split(s, p10, enc_str(m.protocol), t11);
    lemma_p_string(s, p10, m.protocol);
    let p11 = p10 + enc_str(m.protocol).len();
    lemma_occurs_split(s, p11, ",\"lenght\":"@, t12);
    let p12 = p11 + ",\"lenght\":"@.len();
    lemma_occurs_split(s, p12, dec_nat(m.lenght), t13);
    let p13 = p12 + dec_nat(m.lenght).len();
    reveal_strlit(",\"info\":");
    lemma_occurs_index(s, p13, t13, 0);
    assert(s[p13] == ',');
    assert(!is_digit(s[p13])) by {
        assert(',' as int == 0x2c);
    }
    lemma_p_nat(s, p12, m.lenght);
    lemma_occurs_split(s, p13, ",\"info\":"@, t14);
    let p14 = p13 + ",\"info\":"@.len();
    lemma_occurs_split(s, p14, enc_str(m.info), t15);
    lemma_p_string(s, p14, m.info);
    let p15 = p14 + enc_str(m.info).len();
    lemma_occurs_split(s, p15, ",\"detailed_info\":"@, t16);
    let p16 = p15 + ",\"detailed_info\":"@.len();
    let dpart = match m.detail {
        Some(d) => enc_detail(d),
        None => "null"@,
    };
    lemma_occurs_split(s, p16, dpart, seq!['}']);
    let p17 = p16 + dpart.len();
    match m.detail {
        Some(dm) => {
            reveal_strlit("{\"interface\":");
            assert(enc_detail(dm)[0] == '{');
            lemma_occurs_index(s, p16, dpart, 0);
            assert(s[p16] == '{');
            lemma_p_detail(s, p16, dm);
        },
        None => {
            reveal_strlit("null");
            lemma_occurs_index(s, p16, dpart, 0);
            assert(s[p16] == 'n');
            assert(s[p16] != '{') by {
                assert('n' as int == 0x6e && '{' as int == 0x7b);
            }
            lemma_p_lit(s, p16, "null"@);
        },
    }
    reveal_strlit("}");
    assert("}"@ =~= seq!['}']);
    lemma_p_lit(s, p17, "}"@);
    assert(p_record(s, i) == Some(
        (
            RecordModel {
                number: m.number,
                time: m.time,
                src_ip: m.src_ip,
                dst_ip: m.dst_ip,
                protocol: m.protocol,
                lenght: m.lenght,
                info: m.info,
                detail: m.detail,
            },
            p17 + 1,
        ),
    ));
    assert(RecordModel {
        number: m.number,
        time: m.time,
        src_ip: m.src_ip,
        dst_ip: m.dst_ip,
        protocol: m.protocol,
        lenght: m.lenght,
        info: m.info,
        detail: m.detail,
    } == m);
}

/// The comma-joined encoding decomposed at its first record.
proof fn lemma_enc_inner_first(ms: Seq<RecordModel>)
    requires
        ms.len() >= 1,
    ensures
        enc_records_inner(ms) == enc_record(ms[0]) + (if ms.len() > 1 {
            seq![','] + enc_records_inner(ms.drop_first())
        } else {
            Seq::<char>::empty()
        }),
    decreases ms.len(),
{
    if ms.len() == 1 {
        assert(enc_records_inner(ms) =~= enc_record(ms[0]) + Seq::<char>::empty());
    } else if ms.len() == 2 {
        assert(ms.drop_last().len() == 1);
        assert(ms.drop_last()[0] == ms[0]);
        assert(ms.drop_first().len() == 1);
        assert(ms.drop_first()[0] == ms[1]);
        assert(ms.last() == ms[1]);
        assert(enc_records_inner(ms.drop_last()) == enc_record(ms[0]));
        assert(enc_records_inner(ms.drop_first()) == enc_record(ms[1]));
        assert(enc_records_inner(ms) =~= enc_record(ms[0]) + (seq![','] + enc_records_inner(
            ms.drop_first(),
        )));
    } else {
        let dl = ms.drop_last();
        let mdf = ms.drop_first();
        lemma_enc_inner_first(dl);
        assert(dl[0] == ms[0]);
        assert(mdf.drop_last() =~= dl.drop_first());
        assert(mdf.last() == ms.last());
        assert(mdf.len() >= 2);
        assert(enc_records_inner(mdf) == enc_records_inner(mdf.drop_last()) + seq![',']
            + enc_record(mdf.last()));
        assert(enc_records_inner(mdf) == enc_records_inner(dl.drop_first()) + seq![',']
            + enc_record(ms.last()));
        assert(enc_records_inner(ms) == enc_records_inner(dl) + seq![','] + enc_record(ms.last()));
        assert(enc_records_inner(dl) == enc_record(ms[0]) + (seq![','] + enc_records_inner(
            dl.drop_first(),
        )));
        assert(enc_records_inner(ms) =~= enc_record(ms[0]) + (seq![','] + enc_records_inner(mdf)));
    }
}

/// An occurrence of one or more encoded records, comma-joined and closed by
/// `]`, parses back to them.
#[verifier::rlimit(100)]
proof fn lemma_p_items(s: Seq<char>, i: int, ms: Seq<RecordModel>)
    requires
        ms.len() >= 1,
        models_in_range(ms),
        occurs(s, i, enc_records_inner(ms) + seq![']']),
    ensures
        p_items(s, i) == Some((ms, i + enc_records_inner(ms).len() + 1)),
    decreases ms.len(),
{
    lemma_enc_inner_first(ms);
    reveal_strlit("{\"number\":");
    assert(enc_record(ms[0]).len() > 0);
    if ms.len() == 1 {
        assert(enc_records_inner(ms) + seq![']'] =~= enc_record(ms[0]) + seq![']']);
        lemma_occurs_split(s, i, enc_record(ms[0]), seq![']']);
        lemma_p_record(s, i, ms[0]);
        let j = i + enc_record(ms[0]).len();
        lemma_occurs_index(s, j, seq![']'], 0);
        assert(seq![ms[0]] =~= ms);
        assert(p_items(s, i) == Some((ms, i + enc_records_inner(ms).len() + 1)));
    } else {
        assert(enc_records_inner(ms) + seq![']'] =~= enc_record(ms[0]) + (seq![','] + (
        enc_records_inner(ms.drop_first()) + seq![']'])));
        lemma_occurs_split(
            s,
            i,
            enc_record(ms[0]),
            seq![','] + (enc_records_inner(ms.drop_first()) + seq![']']),
        );
        lemma_p_record(s, i, ms[0]);
        let j = i + enc_record(ms[0]).len();
        lemma_occurs_split(s, j, seq![','], enc_records_inner(ms.drop_first()) + seq![']']);
        lemma_occurs_index(s, j, seq![','], 0);
        assert(s[j] != ']') by {
            assert(',' as int == 0x2c && ']' as int == 0x5d);
        }
        assert(models_in_range(ms.drop_first()));
        lemma_p_items(s, j + 1, ms.drop_first());
        assert(seq![ms[0]] + ms.drop_first() =~= ms);
        assert(p_items(s, i) == Some((ms, i + enc_records_inner(ms).len() + 1)));
    }
}

/// Round trip: parsing the encoding of any snapshot gives back exactly the
/// records' encoded fields, in order; only the capture instant, which the
/// encoding leaves out, is not carried over.
#[verifier::rlimit(100)]
pub proof fn lemma_snapshot_round_trip(packets: Seq<FormatedPacket>)
    ensures
        p_snapshot(enc_records(record_models(packets))) == Some(record_models(packets)),
{
    let ms = record_models(packets);
    let s = enc_records(ms);
    assert(models_in_range(ms));
    if ms.len() == 0 {
        assert(enc_records_inner(ms) =~= Seq::<char>::empty());
        assert(s =~= seq!['[', ']']);
        assert(s[0] == '[' && s[1] == ']' && s.len() == 2);
        assert(ms =~= Seq::<RecordModel>::empty());
        assert(p_snapshot(s) == Some(ms));
    } else {
        assert(s =~= seq!['['] + (enc_records_inner(ms) + seq![']']));
        assert(occurs(s, 1, enc_records_inner(ms) + seq![']'])) by {
            assert(s.subrange(1, s.len() as int) =~= enc_records_inner(ms) + seq![']']);
        }
        lemma_p_items(s, 1, ms);
        lemma_enc_inner_first(ms);
        reveal_strlit("{\"number\":");
        assert(enc_records_inner(ms)[0] == '{');
        assert(s[1] == '{');
        assert(s[1] != ']') by {
            assert('{' as int == 0x7b && ']' as int == 0x5d);
        }
        assert(1 + enc_records_inner(ms).len() + 1 == s.len());
        assert(p_snapshot(s) == Some(ms));
    }
}

} // verus!
