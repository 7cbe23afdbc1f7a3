//! The wire form of DNS messages: encoding without compression, and
//! decoding that follows compression pointers as long as each points
//! strictly before the one taken last.
use vstd::prelude::*;
use vstd::utf8::{decode_utf8, encode_utf8, encode_utf8_decode_utf8, encode_utf8_valid_utf8, valid_utf8};
use vstd::slice::{slice_subrange, slice_to_vec};
use crate::aead::{be32, lemma_be32_read, read_be32};
use crate::dns::{
    label_bytes, label_ok, labels_bytes, name_bytes, name_ok, questions_view, records_view,
    DnsName, DnsPacket, DnsQuestion, DnsRecord, PacketView, QuestionView, RecordView, CLASS_IN,
    TYPE_A, TYPE_PTR, TYPE_SRV,
};
use crate::errors::ParseError;
use crate::names::strings_view;

verus! {

/// `x` as two big-endian bytes.
pub open spec fn be16(x: u16) -> Seq<u8> {
    seq![(x / 0x100) as u8, (x % 0x100) as u8]
}

/// The number that two big-endian bytes at `b[p..p + 2]` hold.
pub open spec fn read_u16(b: Seq<u8>, p: int) -> int {
    b[p] as int * 0x100 + b[p + 1] as int
}

/// The number that four big-endian bytes at `b[p..p + 4]` hold.
pub open spec fn read_u32(b: Seq<u8>, p: int) -> int {
    read_be32(b.subrange(p, p + 4))
}

/// The type code of a record.
pub open spec fn record_type(r: RecordView) -> u16 {
    match r {
        RecordView::A { .. } => TYPE_A,
        RecordView::Ptr { .. } => TYPE_PTR,
        RecordView::Srv { .. } => TYPE_SRV,
    }
}

/// The owner name of a record.
pub open spec fn record_name(r: RecordView) -> Seq<Seq<char>> {
    match r {
        RecordView::A { name, .. } => name,
        RecordView::Ptr { name, .. } => name,
        RecordView::Srv { name, .. } => name,
    }
}

/// The ttl of a record.
pub open spec fn record_ttl(r: RecordView) -> u32 {
    match r {
        RecordView::A { ttl, .. } => ttl,
        RecordView::Ptr { ttl, .. } => ttl,
        RecordView::Srv { ttl, .. } => ttl,
    }
}

/// The data of a record on the wire.
pub open spec fn rdata_bytes(r: RecordView) -> Seq<u8> {
    match r {
        RecordView::A { ip, .. } => ip,
        RecordView::Ptr { ptr_name, .. } => name_bytes(ptr_name),
        RecordView::Srv { priority, weight, port, target, .. } => be16(priority) + be16(weight)
            + be16(port) + name_bytes(target),
    }
}

/// A record on the wire: name, type, class IN, ttl, data length, data.
pub open spec fn record_bytes(r: RecordView) -> Seq<u8> {
    name_bytes(record_name(r)) + be16(record_type(r)) + be16(CLASS_IN) + be32(record_ttl(r)) + be16(
        rdata_bytes(r).len() as u16,
    ) + rdata_bytes(r)
}

/// A question on the wire.
pub open spec fn question_bytes(q: QuestionView) -> Seq<u8> {
    name_bytes(q.qname) + be16(q.qtype) + be16(q.qclass)
}

/// Records on the wire, one after another.
pub open spec fn records_bytes(rs: Seq<RecordView>) -> Seq<u8> {
    rs.map_values(|r: RecordView| record_bytes(r)).flatten()
}

/// Questions on the wire, one after another.
pub open spec fn questions_bytes(qs: Seq<QuestionView>) -> Seq<u8> {
    qs.map_values(|q: QuestionView| question_bytes(q)).flatten()
}

/// A message on the wire: the header with its four counts, then the
/// questions, answers, authority and additional records.
pub open spec fn packet_bytes(p: PacketView) -> Seq<u8> {
    header_bytes(p) + (questions_bytes(p.questions) + (records_bytes(p.answers) + (records_bytes(
        p.authorities,
    ) + records_bytes(p.additionals))))
}

/// The header: id, flags, and the number of entries of each section.
pub open spec fn header_bytes(p: PacketView) -> Seq<u8> {
    be16(p.id) + be16(p.flags) + be16(p.questions.len() as u16) + be16(p.answers.len() as u16) + be16(
        p.authorities.len() as u16,
    ) + be16(p.additionals.len() as u16)
}

/// A record whose names are valid and whose address holds four bytes.
pub open spec fn record_ok(r: RecordView) -> bool {
    &&& name_ok(record_name(r))
    &&& match r {
        RecordView::A { ip, .. } => ip.len() == 4,
        RecordView::Ptr { ptr_name, .. } => name_ok(ptr_name),
        RecordView::Srv { target, .. } => name_ok(target),
    }
}

/// A message that its encoding describes: valid names, and counts that
/// fit the header.
pub open spec fn packet_ok(p: PacketView) -> bool {
    &&& p.questions.len() < 0x10000
    &&& p.answers.len() < 0x10000
    &&& p.authorities.len() < 0x10000
    &&& p.additionals.len() < 0x10000
    &&& forall|i: int| 0 <= i < p.questions.len() ==> name_ok(#[trigger] p.questions[i].qname)
    &&& forall|i: int| 0 <= i < p.answers.len() ==> record_ok(#[trigger] p.answers[i])
    &&& forall|i: int| 0 <= i < p.authorities.len() ==> record_ok(#[trigger] p.authorities[i])
    &&& forall|i: int| 0 <= i < p.additionals.len() ==> record_ok(#[trigger] p.additionals[i])
}

/// The labels of the name at `pos`; a pointer must point before `bound`,
/// and the labels it leads to then before the pointer's target.
pub open spec fn parse_labels(b: Seq<u8>, pos: int, bound: int) -> Result<Seq<Seq<char>>, ParseError>
    decreases bound, b.len() - pos,
{
    if pos < 0 || pos >= b.len() || bound < 0 {
        Err(ParseError::Truncated)
    } else {
        let l = b[pos] as int;
        if l == 0 {
            Ok(Seq::empty())
        } else if l >= 0xc0 {
            if pos + 1 >= b.len() {
                Err(ParseError::Truncated)
            } else {
                let target = (l - 0xc0) * 0x100 + b[pos + 1] as int;
                if target >= bound {
                    Err(ParseError::BadPointer)
                } else {
                    parse_labels(b, target, target)
                }
            }
        } else if l > 63 {
            Err(ParseError::BadLabel)
        } else if pos + 1 + l > b.len() {
            Err(ParseError::Truncated)
        } else {
            let raw = b.subrange(pos + 1, pos + 1 + l);
            if !valid_utf8(raw) {
                Err(ParseError::BadUtf8)
            } else {
                match parse_labels(b, pos + 1 + l, bound) {
                    Ok(rest) => Ok(seq![decode_utf8(raw)] + rest),
                    Err(e) => Err(e),
                }
            }
        }
    }
}

/// Where the name at `pos` ends in place: after its zero byte, or after
/// its first pointer.
pub open spec fn name_end(b: Seq<u8>, pos: int) -> Option<int>
    decreases b.len() - pos,
{
    if pos < 0 || pos >= b.len() {
        None
    } else {
        let l = b[pos] as int;
        if l == 0 {
            Some(pos + 1)
        } else if l >= 0xc0 {
            if pos + 1 >= b.len() {
                None
            } else {
                Some(pos + 2)
            }
        } else if l > 63 || pos + 1 + l > b.len() {
            None
        } else {
            name_end(b, pos + 1 + l)
        }
    }
}

/// The name at `pos` and where it ends in place.
pub open spec fn parse_name(b: Seq<u8>, pos: int) -> Result<(Seq<Seq<char>>, int), ParseError> {
    match parse_labels(b, pos, pos) {
        Err(e) => Err(e),
        Ok(ls) => match name_end(b, pos) {
            Some(e) => Ok((ls, e)),
            None => Err(ParseError::Truncated),
        },
    }
}

/// The record at `pos` (`None` inside for a type that is skipped) and
/// where it ends.
#[verifier::opaque]
pub open spec fn parse_record(b: Seq<u8>, pos: int) -> Result<(Option<RecordView>, int), ParseError> {
    match parse_name(b, pos) {
        Err(e) => Err(e),
        Ok((name, p)) => if p + 10 > b.len() {
            Err(ParseError::Truncated)
        } else {
            let t = read_u16(b, p);
            let ttl = read_u32(b, p + 4) as u32;
            let rdlen = read_u16(b, p + 8);
            let d = p + 10;
            let end = d + rdlen;
            if end > b.len() {
                Err(ParseError::Truncated)
            } else if t == TYPE_A as int {
                if rdlen == 4 {
                    Ok((Some(RecordView::A { name, ttl, ip: b.subrange(d, d + 4) }), end))
                } else {
                    Err(ParseError::BadRdata)
                }
            } else if t == TYPE_PTR as int {
                match parse_name(b, d) {
                    Ok((ptr_name, e)) => if e == end {
                        Ok((Some(RecordView::Ptr { name, ttl, ptr_name }), end))
                    } else {
                        Err(ParseError::BadRdata)
                    },
                    Err(e) => Err(e),
                }
            } else if t == TYPE_SRV as int {
                if rdlen < 6 {
                    Err(ParseError::BadRdata)
                } else {
                    match parse_name(b, d + 6) {
                        Ok((target, e)) => if e == end {
                            Ok(
                                (
                                    Some(
                                        RecordView::Srv {
                                            name,
                                            ttl,
                                            priority: read_u16(b, d) as u16,
                                            weight: read_u16(b, d + 2) as u16,
                                            port: read_u16(b, d + 4) as u16,
                                            target,
                                        },
                                    ),
                                    end,
                                ),
                            )
                        } else {
                            Err(ParseError::BadRdata)
                        },
                        Err(e) => Err(e),
                    }
                }
            } else {
                Ok((None, end))
            }
        },
    }
}

/// `n` records from `pos`, skipped types left out, and where they end.
pub open spec fn parse_records(b: Seq<u8>, pos: int, n: nat) -> Result<(Seq<RecordView>, int), ParseError>
    decreases n,
{
    if n == 0 {
        Ok((Seq::empty(), pos))
    } else {
        match parse_record(b, pos) {
            Err(e) => Err(e),
            Ok((r, p)) => match parse_records(b, p, (n - 1) as nat) {
                Err(e) => Err(e),
                Ok((rs, e)) => Ok(
                    (
                        match r {
                            Some(rec) => seq![rec] + rs,
                            None => rs,
                        },
                        e,
                    ),
                ),
            },
        }
    }
}

/// The question at `pos` and where it ends.
#[verifier::opaque]
pub open spec fn parse_question(b: Seq<u8>, pos: int) -> Result<(QuestionView, int), ParseError> {
    match parse_name(b, pos) {
        Err(e) => Err(e),
        Ok((qname, p)) => if p + 4 > b.len() {
            Err(ParseError::Truncated)
        } else {
            Ok(
                (
                    QuestionView {
                        qname,
                        qtype: read_u16(b, p) as u16,
                        qclass: read_u16(b, p + 2) as u16,
                    },
                    p + 4,
                ),
            )
        },
    }
}

/// `n` questions from `pos` and where they end.
pub open spec fn parse_questions(b: Seq<u8>, pos: int, n: nat) -> Result<(Seq<QuestionView>, int), ParseError>
    decreases n,
{
    if n == 0 {
        Ok((Seq::empty(), pos))
    } else {
        match parse_question(b, pos) {
            Err(e) => Err(e),
            Ok((q, p)) => match parse_questions(b, p, (n - 1) as nat) {
                Err(e) => Err(e),
                Ok((qs, e)) => Ok((seq![q] + qs, e)),
            },
        }
    }
}

/// The message that `b` holds, or why it holds none: the header, then
/// the sections in order, the first failure deciding. Bytes after the
/// last record are ignored.
pub open spec fn parse_packet(b: Seq<u8>) -> Result<PacketView, ParseError> {
    if b.len() < 12 {
        Err(ParseError::Truncated)
    } else {
        match parse_questions(b, 12, read_u16(b, 4) as nat) {
            Err(e) => Err(e),
            Ok((qs, at_an)) => match parse_records(b, at_an, read_u16(b, 6) as nat) {
                Err(e) => Err(e),
                Ok((an, at_ns)) => match parse_records(b, at_ns, read_u16(b, 8) as nat) {
                    Err(e) => Err(e),
                    Ok((ns, at_ar)) => match parse_records(b, at_ar, read_u16(b, 10) as nat) {
                        Err(e) => Err(e),
                        Ok((ar, _)) => Ok(
                            PacketView {
                                id: read_u16(b, 0) as u16,
                                flags: read_u16(b, 2) as u16,
                                questions: qs,
                                answers: an,
                                authorities: ns,
                                additionals: ar,
                            },
                        ),
                    },
                },
            },
        }
    }
}

/// Relies on `std::str::from_utf8`: the text of `b` exactly when `b` is
/// UTF-8.
#[verifier::external_body]
fn utf8_text(b: &[u8]) -> (r: Option<String>)
    ensures
        r is Some <==> valid_utf8(b@),
        r is Some ==> r->0@ == decode_utf8(b@),
{
    match std::str::from_utf8(b) {
        Ok(s) => Some(s.to_string()),
        Err(_) => None,
    }
}

fn push_u16(out: &mut Vec<u8>, x: u16)
    ensures
        final(out)@ == old(out)@ + be16(x),
{
    out.push((x / 0x100) as u8);
    out.push((x % 0x100) as u8);
    assert(out@ =~= old(out)@ + be16(x));
}

fn push_u32(out: &mut Vec<u8>, x: u32)
    ensures
        final(out)@ == old(out)@ + be32(x),
{
    out.push((x / 0x1000000) as u8);
    out.push(((x / 0x10000) % 0x100) as u8);
    out.push(((x / 0x100) % 0x100) as u8);
    out.push((x % 0x100) as u8);
    assert(out@ =~= old(out)@ + be32(x));
}

fn push_name(out: &mut Vec<u8>, name: &DnsName)
    ensures
        final(out)@ == old(out)@ + name_bytes(name@),
{
    let ghost ls = name@;
    let mut i: usize = 0;
    while i < name.labels.len()
        invariant
            i <= name.labels@.len(),
            ls == name@,
            out@ == old(out)@ + labels_bytes(ls.subrange(0, i as int)),
        decreases name.labels@.len() - i,
    {
        let label = name.labels[i].as_str();
        let mut raw = slice_to_vec(label.as_bytes());
        assert(ls[i as int] == label@);
        assert(ls.subrange(0, i + 1).drop_last() =~= ls.subrange(0, i as int));
        let ghost before = out@;
        out.push(raw.len() as u8);
        out.append(&mut raw);
        assert(out@ =~= before + label_bytes(ls[i as int]));
        i += 1;
    }
    assert(ls.subrange(0, i as int) =~= ls);
    out.push(0u8);
    assert(out@ =~= old(out)@ + name_bytes(ls));
}

fn rdata(r: &DnsRecord) -> (out: Vec<u8>)
    ensures
        out@ == rdata_bytes(r@),
{
    let mut out: Vec<u8> = Vec::new();
    match r {
        DnsRecord::A { ip, .. } => {
            out.push(ip[0]);
            out.push(ip[1]);
            out.push(ip[2]);
            out.push(ip[3]);
            assert(out@ =~= ip@);
        },
        DnsRecord::PTR { ptr_name, .. } => {
            push_name(&mut out, ptr_name);
            assert(out@ =~= name_bytes(ptr_name@));
        },
        DnsRecord::SRV { priority, weight, port, target, .. } => {
            push_u16(&mut out, *priority);
            push_u16(&mut out, *weight);
            push_u16(&mut out, *port);
            push_name(&mut out, target);
            assert(out@ =~= be16(*priority) + be16(*weight) + be16(*port) + name_bytes(target@));
        },
    }
    out
}

fn push_record(out: &mut Vec<u8>, r: &DnsRecord)
    ensures
        final(out)@ == old(out)@ + record_bytes(r@),
{
    let (name, ttl, t) = match r {
        DnsRecord::A { name, ttl, .. } => (name, *ttl, TYPE_A),
        DnsRecord::PTR { name, ttl, .. } => (name, *ttl, TYPE_PTR),
        DnsRecord::SRV { name, ttl, .. } => (name, *ttl, TYPE_SRV),
    };
    let mut data = rdata(r);
    push_name(out, name);
    push_u16(out, t);
    push_u16(out, CLASS_IN);
    push_u32(out, ttl);
    push_u16(out, data.len() as u16);
    out.append(&mut data);
    assert(out@ =~= old(out)@ + record_bytes(r@));
}

proof fn lemma_flatten_step(s: Seq<Seq<u8>>, i: int)
    requires
        0 <= i < s.len(),
    ensures
        s.subrange(0, i + 1).flatten() == s.subrange(0, i).flatten() + s[i],
{
    let t = s.subrange(0, i + 1);
    t.lemma_flatten_and_flatten_alt_are_equivalent();
    s.subrange(0, i).lemma_flatten_and_flatten_alt_are_equivalent();
    assert(t.drop_last() =~= s.subrange(0, i));
}

fn push_records(out: &mut Vec<u8>, rs: &Vec<DnsRecord>)
    ensures
        final(out)@ == old(out)@ + records_bytes(records_view(rs@)),
{
    let ghost m = records_view(rs@).map_values(|r: RecordView| record_bytes(r));
    let mut i: usize = 0;
    assert(m.subrange(0, 0).flatten() =~= Seq::<u8>::empty());
    while i < rs.len()
        invariant
            i <= rs@.len(),
            m == records_view(rs@).map_values(|r: RecordView| record_bytes(r)),
            out@ == old(out)@ + m.subrange(0, i as int).flatten(),
        decreases rs@.len() - i,
    {
        proof {
            lemma_flatten_step(m, i as int);
        }
        let ghost before = out@;
        push_record(out, &rs[i]);
        assert(out@ =~= before + m[i as int]);
        assert(out@ =~= old(out)@ + m.subrange(0, i + 1).flatten());
        i += 1;
    }
    assert(m.subrange(0, i as int) =~= m);
}

fn push_questions(out: &mut Vec<u8>, qs: &Vec<DnsQuestion>)
    ensures
        final(out)@ == old(out)@ + questions_bytes(questions_view(qs@)),
{
    let ghost m = questions_view(qs@).map_values(|q: QuestionView| question_bytes(q));
    let mut i: usize = 0;
    assert(m.subrange(0, 0).flatten() =~= Seq::<u8>::empty());
    while i < qs.len()
        invariant
            i <= qs@.len(),
            m == questions_view(qs@).map_values(|q: QuestionView| question_bytes(q)),
            out@ == old(out)@ + m.subrange(0, i as int).flatten(),
        decreases qs@.len() - i,
    {
        proof {
            lemma_flatten_step(m, i as int);
        }
        let ghost before = out@;
        let q = &qs[i];
        push_name(out, &q.qname);
        push_u16(out, q.qtype);
        push_u16(out, q.qclass);
        assert(out@ =~= before + m[i as int]);
        assert(out@ =~= old(out)@ + m.subrange(0, i + 1).flatten());
        i += 1;
    }
    assert(m.subrange(0, i as int) =~= m);
}


fn read_u16_at(b: &[u8], p: usize) -> (r: u16)
    requires
        p + 1 < b@.len(),
    ensures
        r as int == read_u16(b@, p as int),
{
    b[p] as u16 * 0x100 + b[p + 1] as u16
}

fn read_u32_at(b: &[u8], p: usize) -> (r: u32)
    requires
        p + 3 < b@.len(),
    ensures
        r as int == read_u32(b@, p as int),
{
    let ghost w = b@.subrange(p as int, p + 4);
    assert(w[0] == b@[p as int] && w[1] == b@[p + 1] && w[2] == b@[p + 2] && w[3] == b@[p + 3]);
    b[p] as u32 * 0x1000000 + b[p + 1] as u32 * 0x10000 + b[p + 2] as u32 * 0x100 + b[p + 3] as u32
}

/// Reads the name at `pos`, following pointers that each point strictly
/// before the previous one; gives the name and where it ends in place.
fn read_name(b: &[u8], pos: usize) -> (r: Result<(DnsName, usize), ParseError>)
    ensures
        match (parse_name(b@, pos as int), r) {
            (Ok((ls, e)), Ok((n, end))) => n@ == ls && end as int == e && end <= b@.len(),
            (Err(e1), Err(e2)) => e1 == e2,
            _ => false,
        },
{
    let mut labels: Vec<String> = Vec::new();
    let mut cur: usize = pos;
    let mut bound: usize = pos;
    let mut end: Option<usize> = None;
    assert(strings_view(labels@) =~= Seq::<Seq<char>>::empty());
    assert(parse_labels(b@, pos as int, pos as int) == match parse_labels(b@, cur as int, bound as int) {
        Ok(rest) => Ok(strings_view(labels@) + rest),
        Err(e) => Err(e),
    }) by {
        match parse_labels(b@, pos as int, pos as int) {
            Ok(rest) => {
                assert(strings_view(labels@) + rest =~= rest);
            },
            Err(_) => {},
        }
    }
    loop
        invariant
            parse_labels(b@, pos as int, pos as int) == match parse_labels(
                b@,
                cur as int,
                bound as int,
            ) {
                Ok(rest) => Ok(strings_view(labels@) + rest),
                Err(e) => Err(e),
            },
            match end {
                None => name_end(b@, pos as int) == name_end(b@, cur as int),
                Some(e) => name_end(b@, pos as int) == Some(e as int) && e <= b@.len(),
            },
        decreases bound, b@.len() - cur,
    {
        if cur >= b.len() {
            return Err(ParseError::Truncated);
        }
        let l = b[cur];
        if l == 0 {
            let e = match end {
                Some(e) => e,
                None => cur + 1,
            };
            assert(strings_view(labels@) + Seq::<Seq<char>>::empty() =~= strings_view(labels@));
            return Ok((DnsName { labels }, e));
        }
        if l >= 0xc0 {
            if cur + 1 >= b.len() {
                return Err(ParseError::Truncated);
            }
            let target: usize = ((l - 0xc0) as usize) * 0x100 + b[cur + 1] as usize;
            if target >= bound {
                return Err(ParseError::BadPointer);
            }
            if end.is_none() {
                end = Some(cur + 2);
            }
            cur = target;
            bound = target;
            continue;
        }
        if l > 63 {
            return Err(ParseError::BadLabel);
        }
        if b.len() - (cur + 1) < l as usize {
            return Err(ParseError::Truncated);
        }
        let next: usize = cur + 1 + l as usize;
        let raw = slice_subrange(b, cur + 1, next);
        match utf8_text(raw) {
            None => {
                return Err(ParseError::BadUtf8);
            },
            Some(text) => {
                let ghost before = strings_view(labels@);
                labels.push(text);
                proof {
                    match parse_labels(b@, next as int, bound as int) {
                        Ok(rest) => {
                            assert(strings_view(labels@) =~= before.push(decode_utf8(raw@)));
                            assert(strings_view(labels@) + rest =~= before + (seq![decode_utf8(raw@)]
                                + rest));
                        },
                        Err(_) => {},
                    }
                }
            },
        }
        cur = next;
    }
}

/// Reads the record at `pos`; a type other than A, PTR and SRV is skipped.
fn read_record(b: &[u8], pos: usize) -> (r: Result<(Option<DnsRecord>, usize), ParseError>)
    ensures
        match (parse_record(b@, pos as int), r) {
            (Ok((rv, e)), Ok((rec, end))) => end as int == e && end <= b@.len() && match (rv, rec) {
                (Some(x), Some(y)) => y@ == x,
                (None, None) => true,
                _ => false,
            },
            (Err(e1), Err(e2)) => e1 == e2,
            _ => false,
        },
{
    proof {
        reveal(parse_record);
    }
    let (name, p) = match read_name(b, pos) {
        Ok(x) => x,
        Err(e) => {
            return Err(e);
        },
    };
    if b.len() - p < 10 {
        return Err(ParseError::Truncated);
    }
    let t = read_u16_at(b, p);
    let ttl = read_u32_at(b, p + 4);
    let rdlen = read_u16_at(b, p + 8);
    let d: usize = p + 10;
    if b.len() - d < rdlen as usize {
        return Err(ParseError::Truncated);
    }
    let end: usize = d + rdlen as usize;
    if t == TYPE_A {
        if rdlen != 4 {
            return Err(ParseError::BadRdata);
        }
        let ip: [u8; 4] = [b[d], b[d + 1], b[d + 2], b[d + 3]];
        assert(ip@ =~= b@.subrange(d as int, d + 4));
        Ok((Some(DnsRecord::A { name, ttl, ip }), end))
    } else if t == TYPE_PTR {
        match read_name(b, d) {
            Ok((ptr_name, e)) => {
                if e != end {
                    return Err(ParseError::BadRdata);
                }
                Ok((Some(DnsRecord::PTR { name, ttl, ptr_name }), end))
            },
            Err(e) => Err(e),
        }
    } else if t == TYPE_SRV {
        if rdlen < 6 {
            return Err(ParseError::BadRdata);
        }
        let priority = read_u16_at(b, d);
        let weight = read_u16_at(b, d + 2);
        let port = read_u16_at(b, d + 4);
        match read_name(b, d + 6) {
            Ok((target, e)) => {
                if e != end {
                    return Err(ParseError::BadRdata);
                }
                Ok((Some(DnsRecord::SRV { name, ttl, priority, weight, port, target }), end))
            },
            Err(e) => Err(e),
        }
    } else {
        Ok((None, end))
    }
}

/// Reads `n` records from `pos`, leaving out skipped types.
fn read_records(b: &[u8], pos: usize, n: u16) -> (r: Result<(Vec<DnsRecord>, usize), ParseError>)
    requires
        pos <= b@.len(),
    ensures
        match (parse_records(b@, pos as int, n as nat), r) {
            (Ok((rs, e)), Ok((v, end))) => records_view(v@) == rs && end as int == e && end
                <= b@.len(),
            (Err(e1), Err(e2)) => e1 == e2,
            _ => false,
        },
{
    let mut out: Vec<DnsRecord> = Vec::new();
    let mut cur: usize = pos;
    let mut i: u16 = 0;
    proof {
        match parse_records(b@, pos as int, n as nat) {
            Ok((rs, e)) => {
                assert(records_view(out@) + rs =~= rs);
            },
            Err(_) => {},
        }
    }
    while i < n
        invariant
            i <= n,
            cur <= b@.len(),
            parse_records(b@, pos as int, n as nat) == match parse_records(
                b@,
                cur as int,
                (n - i) as nat,
            ) {
                Ok((rs, e)) => Ok((records_view(out@) + rs, e)),
                Err(e) => Err(e),
            },
        decreases n - i,
    {
        let ghost before = records_view(out@);
        match read_record(b, cur) {
            Err(e) => {
                return Err(e);
            },
            Ok((rec, next)) => {
                match rec {
                    Some(x) => {
                        out.push(x);
                    },
                    None => {},
                }
                proof {
                    match parse_records(b@, next as int, (n - i - 1) as nat) {
                        Ok((rs, e)) => {
                            match parse_record(b@, cur as int) {
                                Ok((Some(x), _)) => {
                                    assert(records_view(out@) =~= before.push(x));
                                    assert(records_view(out@) + rs =~= before + (seq![x] + rs));
                                },
                                _ => {},
                            }
                        },
                        Err(_) => {},
                    }
                }
                cur = next;
            },
        }
        i += 1;
    }
    proof {
        match parse_records(b@, cur as int, 0) {
            Ok((rs, e)) => {
                assert(records_view(out@) + rs =~= records_view(out@));
            },
            Err(_) => {},
        }
    }
    Ok((out, cur))
}

/// Reads `n` questions from `pos`.
fn read_questions(b: &[u8], pos: usize, n: u16) -> (r: Result<(Vec<DnsQuestion>, usize), ParseError>)
    requires
        pos <= b@.len(),
    ensures
        match (parse_questions(b@, pos as int, n as nat), r) {
            (Ok((qs, e)), Ok((v, end))) => questions_view(v@) == qs && end as int == e && end
                <= b@.len(),
            (Err(e1), Err(e2)) => e1 == e2,
            _ => false,
        },
{
    let mut out: Vec<DnsQuestion> = Vec::new();
    let mut cur: usize = pos;
    let mut i: u16 = 0;
    proof {
        match parse_questions(b@, pos as int, n as nat) {
            Ok((qs, e)) => {
                assert(questions_view(out@) + qs =~= qs);
            },
            Err(_) => {},
        }
    }
    while i < n
        invariant
            i <= n,
            cur <= b@.len(),
            parse_questions(b@, pos as int, n as nat) == match parse_questions(
                b@,
                cur as int,
                (n - i) as nat,
            ) {
                Ok((qs, e)) => Ok((questions_view(out@) + qs, e)),
                Err(e) => Err(e),
            },
        decreases n - i,
    {
        let ghost before = questions_view(out@);
        proof {
            reveal(parse_question);
        }
        let (qname, p) = match read_name(b, cur) {
            Ok(x) => x,
            Err(e) => {
                return Err(e);
            },
        };
        if b.len() - p < 4 {
            return Err(ParseError::Truncated);
        }
        let qtype = read_u16_at(b, p);
        let qclass = read_u16_at(b, p + 2);
        let q = DnsQuestion { qname, qtype, qclass };
        let ghost qv = q@;
        out.push(q);
        let next: usize = p + 4;
        proof {
            match parse_questions(b@, next as int, (n - i - 1) as nat) {
                Ok((qs, e)) => {
                    assert(questions_view(out@) =~= before.push(qv));
                    assert(questions_view(out@) + qs =~= before + (seq![qv] + qs));
                },
                Err(_) => {},
            }
        }
        cur = next;
        i += 1;
    }
    proof {
        match parse_questions(b@, cur as int, 0) {
            Ok((qs, e)) => {
                assert(questions_view(out@) + qs =~= questions_view(out@));
            },
            Err(_) => {},
        }
    }
    Ok((out, cur))
}

impl DnsPacket {
    /// Decodes a message, or says why it cannot: `parse_packet` gives both.
    /// Bytes after the last record are ignored.
    pub fn parse(bytes: &[u8]) -> (r: Result<DnsPacket, ParseError>)
        ensures
            match (parse_packet(bytes@), r) {
                (Ok(p), Ok(q)) => q@ == p,
                (Err(e1), Err(e2)) => e1 == e2,
                _ => false,
            },
    {
        if bytes.len() < 12 {
            return Err(ParseError::Truncated);
        }
        let id = read_u16_at(bytes, 0);
        let flags = read_u16_at(bytes, 2);
        let qd = read_u16_at(bytes, 4);
        let an = read_u16_at(bytes, 6);
        let ns = read_u16_at(bytes, 8);
        let ar = read_u16_at(bytes, 10);
        let (questions, at_an) = match read_questions(bytes, 12, qd) {
            Ok(x) => x,
            Err(e) => {
                return Err(e);
            },
        };
        let (answers, at_ns) = match read_records(bytes, at_an, an) {
            Ok(x) => x,
            Err(e) => {
                return Err(e);
            },
        };
        let (authorities, at_ar) = match read_records(bytes, at_ns, ns) {
            Ok(x) => x,
            Err(e) => {
                return Err(e);
            },
        };
        let (additionals, _) = match read_records(bytes, at_ar, ar) {
            Ok(x) => x,
            Err(e) => {
                return Err(e);
            },
        };
        Ok(DnsPacket { id, flags, questions, answers, authorities, additionals })
    }
}


/// A window of `b` that holds `y + z` holds `y`, then `z`.
proof fn lemma_split(b: Seq<u8>, pos: int, y: Seq<u8>, z: Seq<u8>)
    requires
        0 <= pos,
        pos + y.len() + z.len() <= b.len(),
        b.subrange(pos, pos + y.len() + z.len()) == y + z,
    ensures
        b.subrange(pos, pos + y.len()) == y,
        b.subrange(pos + y.len(), pos + y.len() + z.len()) == z,
{
    let w = b.subrange(pos, pos + y.len() + z.len());
    assert forall|k: int| 0 <= k < y.len() implies b.subrange(pos, pos + y.len())[k] == y[k] by {
        assert(w[k] == (y + z)[k]);
    }
    assert forall|k: int| 0 <= k < z.len() implies b.subrange(
        pos + y.len(),
        pos + y.len() + z.len(),
    )[k] == z[k] by {
        assert(w[y.len() + k] == (y + z)[y.len() + k]);
    }
    assert(b.subrange(pos, pos + y.len()) =~= y);
    assert(b.subrange(pos + y.len(), pos + y.len() + z.len()) =~= z);
}

proof fn lemma_be16_read(b: Seq<u8>, p: int, x: u16)
    requires
        0 <= p,
        p + 2 <= b.len(),
        b.subrange(p, p + 2) == be16(x),
    ensures
        read_u16(b, p) == x as int,
{
    assert(b[p] == b.subrange(p, p + 2)[0]);
    assert(b[p + 1] == b.subrange(p, p + 2)[1]);
    assert(b[p] as int == x as int / 0x100);
    assert(b[p + 1] as int == x as int % 0x100);
}

proof fn lemma_labels_bytes_first(ls: Seq<Seq<char>>)
    requires
        ls.len() > 0,
    ensures
        labels_bytes(ls) == label_bytes(ls[0]) + labels_bytes(ls.drop_first()),
    decreases ls.len(),
{
    if ls.len() == 1 {
        assert(ls.drop_last() =~= Seq::<Seq<char>>::empty());
        assert(ls.drop_first() =~= Seq::<Seq<char>>::empty());
        assert(labels_bytes(ls) =~= label_bytes(ls[0]) + labels_bytes(ls.drop_first()));
    } else {
        lemma_labels_bytes_first(ls.drop_last());
        assert(ls.drop_last().drop_first() =~= ls.drop_first().drop_last());
        assert(ls.drop_first().last() == ls.last());
        assert(labels_bytes(ls) =~= label_bytes(ls[0]) + labels_bytes(ls.drop_first()));
    }
}

/// An uncompressed name of valid labels decodes to itself, ending where
/// its encoding ends.
proof fn lemma_parse_name_bytes(b: Seq<u8>, pos: int, ls: Seq<Seq<char>>, bound: int)
    requires
        0 <= pos,
        0 <= bound,
        pos + name_bytes(ls).len() <= b.len(),
        b.subrange(pos, pos + name_bytes(ls).len()) == name_bytes(ls),
        forall|i: int| 0 <= i < ls.len() ==> label_ok(#[trigger] ls[i]),
    ensures
        parse_labels(b, pos, bound) == Ok::<Seq<Seq<char>>, ParseError>(ls),
        name_end(b, pos) == Some(pos + name_bytes(ls).len()),
    decreases ls.len(),
{
    let nb = name_bytes(ls);
    assert(b[pos] == b.subrange(pos, pos + nb.len())[0]);
    if ls.len() == 0 {
        assert(labels_bytes(ls) =~= Seq::<u8>::empty());
        assert(nb =~= seq![0u8]);
        assert(ls =~= Seq::<Seq<char>>::empty());
    } else {
        lemma_labels_bytes_first(ls);
        let l0 = ls[0];
        let rest = ls.drop_first();
        let enc = encode_utf8(l0);
        let n = enc.len();
        assert(label_ok(l0));
        assert(nb =~= label_bytes(l0) + name_bytes(rest));
        assert(label_bytes(l0) =~= seq![n as u8] + enc);
        lemma_split(b, pos, label_bytes(l0), name_bytes(rest));
        lemma_split(b, pos, seq![n as u8], enc);
        assert(b[pos] == seq![n as u8][0]);
        assert(b[pos] as int == n);
        encode_utf8_valid_utf8(l0);
        encode_utf8_decode_utf8(l0);
        assert(forall|i: int| 0 <= i < rest.len() ==> rest[i] == ls[i + 1]);
        lemma_parse_name_bytes(b, pos + 1 + n, rest, bound);
        assert(seq![l0] + rest =~= ls);
    }
}

proof fn lemma_parse_record_bytes(b: Seq<u8>, pos: int, r: RecordView)
    requires
        0 <= pos,
        pos + record_bytes(r).len() <= b.len(),
        b.subrange(pos, pos + record_bytes(r).len()) == record_bytes(r),
        record_ok(r),
    ensures
        parse_record(b, pos) == Ok::<(Option<RecordView>, int), ParseError>(
            (Some(r), pos + record_bytes(r).len()),
        ),
{
    reveal(parse_record);
    let nm = name_bytes(record_name(r));
    let rd = rdata_bytes(r);
    let tail = be16(record_type(r)) + be16(CLASS_IN) + be32(record_ttl(r)) + be16(rd.len() as u16);
    assert(record_bytes(r) =~= nm + (tail + rd));
    lemma_split(b, pos, nm, tail + rd);
    let p = pos + nm.len();
    lemma_parse_name_bytes(b, pos, record_name(r), pos);
    lemma_split(b, p, tail, rd);
    assert(tail =~= be16(record_type(r)) + (be16(CLASS_IN) + (be32(record_ttl(r)) + be16(
        rd.len() as u16,
    ))));
    lemma_split(b, p, be16(record_type(r)), be16(CLASS_IN) + (be32(record_ttl(r)) + be16(rd.len() as u16)));
    lemma_split(b, p + 2, be16(CLASS_IN), be32(record_ttl(r)) + be16(rd.len() as u16));
    lemma_split(b, p + 4, be32(record_ttl(r)), be16(rd.len() as u16));
    lemma_be16_read(b, p, record_type(r));
    lemma_be16_read(b, p + 8, rd.len() as u16);
    lemma_be32_read(record_ttl(r));
    let d = p + 10;
    match r {
        RecordView::A { name, ttl, ip } => {
            assert(rd.len() == 4);
        },
        RecordView::Ptr { name, ttl, ptr_name } => {
            assert(name_ok(ptr_name));
            assert(rd.len() < 0x10000);
            lemma_parse_name_bytes(b, d, ptr_name, d);
        },
        RecordView::Srv { name, ttl, priority, weight, port, target } => {
            assert(name_ok(target));
            assert(rd =~= be16(priority) + (be16(weight) + (be16(port) + name_bytes(target))));
            assert(rd.len() < 0x10000);
            lemma_split(b, d, be16(priority), be16(weight) + (be16(port) + name_bytes(target)));
            lemma_split(b, d + 2, be16(weight), be16(port) + name_bytes(target));
            lemma_split(b, d + 4, be16(port), name_bytes(target));
            lemma_be16_read(b, d, priority);
            lemma_be16_read(b, d + 2, weight);
            lemma_be16_read(b, d + 4, port);
            lemma_parse_name_bytes(b, d + 6, target, d + 6);
        },
    }
}

proof fn lemma_flatten_first(m: Seq<Seq<u8>>)
    requires
        m.len() > 0,
    ensures
        m.flatten() == m[0] + m.drop_first().flatten(),
{
}

proof fn lemma_parse_records_bytes(b: Seq<u8>, pos: int, rs: Seq<RecordView>)
    requires
        0 <= pos,
        pos + records_bytes(rs).len() <= b.len(),
        b.subrange(pos, pos + records_bytes(rs).len()) == records_bytes(rs),
        forall|i: int| 0 <= i < rs.len() ==> record_ok(#[trigger] rs[i]),
    ensures
        parse_records(b, pos, rs.len()) == Ok::<(Seq<RecordView>, int), ParseError>(
            (rs, pos + records_bytes(rs).len()),
        ),
    decreases rs.len(),
{
    if rs.len() == 0 {
        assert(records_bytes(rs) =~= Seq::<u8>::empty());
        assert(rs =~= Seq::<RecordView>::empty());
    } else {
        let m = rs.map_values(|r: RecordView| record_bytes(r));
        lemma_flatten_first(m);
        assert(m.drop_first() =~= rs.drop_first().map_values(|r: RecordView| record_bytes(r)));
        assert(records_bytes(rs) == record_bytes(rs[0]) + records_bytes(rs.drop_first()));
        lemma_split(b, pos, record_bytes(rs[0]), records_bytes(rs.drop_first()));
        assert(record_ok(rs[0]));
        lemma_parse_record_bytes(b, pos, rs[0]);
        assert(forall|i: int| 0 <= i < rs.drop_first().len() ==> rs.drop_first()[i] == rs[i + 1]);
        lemma_parse_records_bytes(b, pos + record_bytes(rs[0]).len(), rs.drop_first());
        assert(seq![rs[0]] + rs.drop_first() =~= rs);
    }
}

proof fn lemma_parse_questions_bytes(b: Seq<u8>, pos: int, qs: Seq<QuestionView>)
    requires
        0 <= pos,
        pos + questions_bytes(qs).len() <= b.len(),
        b.subrange(pos, pos + questions_bytes(qs).len()) == questions_bytes(qs),
        forall|i: int| 0 <= i < qs.len() ==> name_ok(#[trigger] qs[i].qname),
    ensures
        parse_questions(b, pos, qs.len()) == Ok::<(Seq<QuestionView>, int), ParseError>(
            (qs, pos + questions_bytes(qs).len()),
        ),
    decreases qs.len(),
{
    if qs.len() == 0 {
        assert(questions_bytes(qs) =~= Seq::<u8>::empty());
        assert(qs =~= Seq::<QuestionView>::empty());
    } else {
        let m = qs.map_values(|q: QuestionView| question_bytes(q));
        lemma_flatten_first(m);
        assert(m.drop_first() =~= qs.drop_first().map_values(|q: QuestionView| question_bytes(q)));
        let q = qs[0];
        reveal(parse_question);
        assert(questions_bytes(qs) == question_bytes(q) + questions_bytes(qs.drop_first()));
        lemma_split(b, pos, question_bytes(q), questions_bytes(qs.drop_first()));
        let nm = name_bytes(q.qname);
        assert(question_bytes(q) =~= nm + (be16(q.qtype) + be16(q.qclass)));
        lemma_split(b, pos, nm, be16(q.qtype) + be16(q.qclass));
        assert(name_ok(q.qname));
        lemma_parse_name_bytes(b, pos, q.qname, pos);
        lemma_split(b, pos + nm.len(), be16(q.qtype), be16(q.qclass));
        lemma_be16_read(b, pos + nm.len(), q.qtype);
        lemma_be16_read(b, pos + nm.len() + 2, q.qclass);
        assert(forall|i: int| 0 <= i < qs.drop_first().len() ==> qs.drop_first()[i] == qs[i + 1]);
        lemma_parse_questions_bytes(b, pos + question_bytes(q).len(), qs.drop_first());
        assert(seq![q] + qs.drop_first() =~= qs);
    }
}

proof fn lemma_header(b: Seq<u8>, a: u16, f: u16, c1: u16, c2: u16, c3: u16, c4: u16)
    requires
        12 <= b.len(),
        b.subrange(0, 12) == be16(a) + be16(f) + be16(c1) + be16(c2) + be16(c3) + be16(c4),
    ensures
        read_u16(b, 0) == a as int,
        read_u16(b, 2) == f as int,
        read_u16(b, 4) == c1 as int,
        read_u16(b, 6) == c2 as int,
        read_u16(b, 8) == c3 as int,
        read_u16(b, 10) == c4 as int,
{
    let h = b.subrange(0, 12);
    assert(b.subrange(0, 2) =~= be16(a)) by {
        assert(forall|k: int| 0 <= k < 2 ==> b.subrange(0, 2)[k] == h[k]);
    }
    assert(b.subrange(2, 4) =~= be16(f)) by {
        assert(forall|k: int| 0 <= k < 2 ==> b.subrange(2, 4)[k] == h[2 + k]);
    }
    assert(b.subrange(4, 6) =~= be16(c1)) by {
        assert(forall|k: int| 0 <= k < 2 ==> b.subrange(4, 6)[k] == h[4 + k]);
    }
    assert(b.subrange(6, 8) =~= be16(c2)) by {
        assert(forall|k: int| 0 <= k < 2 ==> b.subrange(6, 8)[k] == h[6 + k]);
    }
    assert(b.subrange(8, 10) =~= be16(c3)) by {
        assert(forall|k: int| 0 <= k < 2 ==> b.subrange(8, 10)[k] == h[8 + k]);
    }
    assert(b.subrange(10, 12) =~= be16(c4)) by {
        assert(forall|k: int| 0 <= k < 2 ==> b.subrange(10, 12)[k] == h[10 + k]);
    }
    lemma_be16_read(b, 0, a);
    lemma_be16_read(b, 2, f);
    lemma_be16_read(b, 4, c1);
    lemma_be16_read(b, 6, c2);
    lemma_be16_read(b, 8, c3);
    lemma_be16_read(b, 10, c4);
}

proof fn lemma_parse_sections(
    b: Seq<u8>,
    at_an: int,
    an: Seq<RecordView>,
    ns: Seq<RecordView>,
    ar: Seq<RecordView>,
)
    requires
        0 <= at_an,
        at_an + records_bytes(an).len() + (records_bytes(ns) + records_bytes(ar)).len() <= b.len(),
        b.subrange(at_an, at_an + records_bytes(an).len() + (records_bytes(ns) + records_bytes(ar)).len())
            == records_bytes(an) + (records_bytes(ns) + records_bytes(ar)),
        forall|i: int| 0 <= i < an.len() ==> record_ok(#[trigger] an[i]),
        forall|i: int| 0 <= i < ns.len() ==> record_ok(#[trigger] ns[i]),
        forall|i: int| 0 <= i < ar.len() ==> record_ok(#[trigger] ar[i]),
    ensures
        parse_records(b, at_an, an.len()) == Ok::<(Seq<RecordView>, int), ParseError>(
            (an, at_an + records_bytes(an).len()),
        ),
        parse_records(b, at_an + records_bytes(an).len(), ns.len()) == Ok::<
            (Seq<RecordView>, int),
            ParseError,
        >((ns, at_an + records_bytes(an).len() + records_bytes(ns).len())),
        parse_records(b, at_an + records_bytes(an).len() + records_bytes(ns).len(), ar.len()) == Ok::<
            (Seq<RecordView>, int),
            ParseError,
        >((ar, at_an + records_bytes(an).len() + records_bytes(ns).len() + records_bytes(ar).len())),
{
    let ab = records_bytes(an);
    let nb = records_bytes(ns);
    let rb = records_bytes(ar);
    lemma_split(b, at_an, ab, nb + rb);
    lemma_parse_records_bytes(b, at_an, an);
    let at_ns: int = at_an + ab.len() as int;
    lemma_split(b, at_ns, nb, rb);
    lemma_parse_records_bytes(b, at_ns, ns);
    let at_ar: int = at_ns + nb.len() as int;
    lemma_parse_records_bytes(b, at_ar, ar);
}

proof fn lemma_parse_packet_parts(b: Seq<u8>, p: PacketView, at_an: int, at_ns: int, at_ar: int, at_end: int)
    requires
        12 <= b.len(),
        read_u16(b, 0) == p.id as int,
        read_u16(b, 2) == p.flags as int,
        read_u16(b, 4) == p.questions.len(),
        read_u16(b, 6) == p.answers.len(),
        read_u16(b, 8) == p.authorities.len(),
        read_u16(b, 10) == p.additionals.len(),
        parse_questions(b, 12, p.questions.len()) == Ok::<(Seq<QuestionView>, int), ParseError>(
            (p.questions, at_an),
        ),
        parse_records(b, at_an, p.answers.len()) == Ok::<(Seq<RecordView>, int), ParseError>(
            (p.answers, at_ns),
        ),
        parse_records(b, at_ns, p.authorities.len()) == Ok::<(Seq<RecordView>, int), ParseError>(
            (p.authorities, at_ar),
        ),
        parse_records(b, at_ar, p.additionals.len()) == Ok::<(Seq<RecordView>, int), ParseError>(
            (p.additionals, at_end),
        ),
    ensures
        parse_packet(b) == Ok::<PacketView, ParseError>(p),
{
}

proof fn lemma_packet_header(p: PacketView)
    ensures
        12 <= packet_bytes(p).len(),
        read_u16(packet_bytes(p), 0) == p.id as int,
        read_u16(packet_bytes(p), 2) == p.flags as int,
        read_u16(packet_bytes(p), 4) == p.questions.len() as u16 as int,
        read_u16(packet_bytes(p), 6) == p.answers.len() as u16 as int,
        read_u16(packet_bytes(p), 8) == p.authorities.len() as u16 as int,
        read_u16(packet_bytes(p), 10) == p.additionals.len() as u16 as int,
        packet_bytes(p).subrange(12, packet_bytes(p).len() as int) == questions_bytes(p.questions)
            + (records_bytes(p.answers) + (records_bytes(p.authorities) + records_bytes(
            p.additionals,
        ))),
{
    let b = packet_bytes(p);
    let h = header_bytes(p);
    let rest = questions_bytes(p.questions) + (records_bytes(p.answers) + (records_bytes(
        p.authorities,
    ) + records_bytes(p.additionals)));
    assert(b == h + rest);
    assert(b.subrange(0, b.len() as int) =~= b);
    lemma_split(b, 0, h, rest);
    lemma_header(
        b,
        p.id,
        p.flags,
        p.questions.len() as u16,
        p.answers.len() as u16,
        p.authorities.len() as u16,
        p.additionals.len() as u16,
    );
}

/// Where the answers of the encoded message start.
spec fn answers_at(p: PacketView) -> int {
    12 + questions_bytes(p.questions).len() as int
}

/// Where the authority records of the encoded message start.
spec fn authorities_at(p: PacketView) -> int {
    answers_at(p) + records_bytes(p.answers).len() as int
}

/// Where the additional records of the encoded message start.
spec fn additionals_at(p: PacketView) -> int {
    authorities_at(p) + records_bytes(p.authorities).len() as int
}

proof fn lemma_packet_questions(p: PacketView, b: Seq<u8>)
    requires
        forall|i: int| 0 <= i < p.questions.len() ==> name_ok(#[trigger] p.questions[i].qname),
        12 <= b.len(),
        b.subrange(12, b.len() as int) == questions_bytes(p.questions) + (records_bytes(p.answers) + (
        records_bytes(p.authorities) + records_bytes(p.additionals))),
    ensures
        parse_questions(b, 12, p.questions.len()) == Ok::<(Seq<QuestionView>, int), ParseError>(
            (p.questions, answers_at(p)),
        ),
        answers_at(p) <= b.len(),
        b.subrange(answers_at(p), b.len() as int) == records_bytes(p.answers) + (records_bytes(
            p.authorities,
        ) + records_bytes(p.additionals)),
{
    let qb = questions_bytes(p.questions);
    let rest = records_bytes(p.answers) + (records_bytes(p.authorities) + records_bytes(
        p.additionals,
    ));
    assert(b.subrange(12, b.len() as int).len() == qb.len() + rest.len());
    lemma_split(b, 12, qb, rest);
    lemma_parse_questions_bytes(b, 12, p.questions);
}

proof fn lemma_packet_records(p: PacketView, b: Seq<u8>)
    requires
        forall|i: int| 0 <= i < p.answers.len() ==> record_ok(#[trigger] p.answers[i]),
        forall|i: int| 0 <= i < p.authorities.len() ==> record_ok(#[trigger] p.authorities[i]),
        forall|i: int| 0 <= i < p.additionals.len() ==> record_ok(#[trigger] p.additionals[i]),
        0 <= answers_at(p) <= b.len(),
        b.subrange(answers_at(p), b.len() as int) == records_bytes(p.answers) + (records_bytes(
            p.authorities,
        ) + records_bytes(p.additionals)),
    ensures
        parse_records(b, answers_at(p), p.answers.len()) == Ok::<(Seq<RecordView>, int), ParseError>(
            (p.answers, authorities_at(p)),
        ),
        parse_records(b, authorities_at(p), p.authorities.len()) == Ok::<
            (Seq<RecordView>, int),
            ParseError,
        >((p.authorities, additionals_at(p))),
        parse_records(b, additionals_at(p), p.additionals.len()) == Ok::<
            (Seq<RecordView>, int),
            ParseError,
        >((p.additionals, additionals_at(p) + records_bytes(p.additionals).len())),
{
    let start = answers_at(p);
    let rest = records_bytes(p.answers) + (records_bytes(p.authorities) + records_bytes(
        p.additionals,
    ));
    assert(b.subrange(start, b.len() as int).len() == rest.len());
    lemma_parse_sections(b, start, p.answers, p.authorities, p.additionals);
}

/// Decoding undoes encoding: every message whose names are valid (labels
/// of 1 to 63 bytes, at most 255 bytes in all), whose addresses hold four
/// bytes and whose sections hold fewer than 65536 entries decodes from its
/// encoding to itself.
pub proof fn lemma_parse_serialize(p: PacketView)
    requires
        packet_ok(p),
    ensures
        parse_packet(packet_bytes(p)) == Ok::<PacketView, ParseError>(p),
{
    lemma_packet_header(p);
    lemma_packet_questions(p, packet_bytes(p));
    lemma_packet_records(p, packet_bytes(p));
    lemma_parse_packet_parts(
        packet_bytes(p),
        p,
        answers_at(p),
        authorities_at(p),
        additionals_at(p),
        additionals_at(p) + records_bytes(p.additionals).len(),
    );
}

impl DnsPacket {
    /// The message on the wire, names uncompressed; each count is the
    /// number of entries modulo 65536.
    pub fn serialize(&self) -> (r: Vec<u8>)
        ensures
            r@ == packet_bytes(self@),
    {
        let mut out: Vec<u8> = Vec::new();
        push_u16(&mut out, self.id);
        push_u16(&mut out, self.flags);
        push_u16(&mut out, self.questions.len() as u16);
        push_u16(&mut out, self.answers.len() as u16);
        push_u16(&mut out, self.authorities.len() as u16);
        push_u16(&mut out, self.additionals.len() as u16);
        push_questions(&mut out, &self.questions);
        push_records(&mut out, &self.answers);
        push_records(&mut out, &self.authorities);
        push_records(&mut out, &self.additionals);
        assert(out@ =~= packet_bytes(self@));
        out
    }
}

} // verus!
