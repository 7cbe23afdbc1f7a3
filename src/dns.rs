//! DNS messages as multicast DNS uses them: names, questions, A, PTR and
//! SRV records, and their wire encoding.
use vstd::prelude::*;
use vstd::utf8::encode_utf8;
use crate::errors::MdnsError;
use crate::names::{join_dots, join_labels, split_dots, split_labels, strings_view};

verus! {

/// Record type of an IPv4 address record.
pub const TYPE_A: u16 = 1;

/// Record type of a pointer record.
pub const TYPE_PTR: u16 = 12;

/// Record type of a text record.
pub const TYPE_TXT: u16 = 16;

/// Record type of a service record.
pub const TYPE_SRV: u16 = 33;

/// The Internet class.
pub const CLASS_IN: u16 = 1;

/// The response bit of the header flags.
pub const FLAG_RESPONSE: u16 = 0x8000;

/// Flags of an authoritative response.
pub const FLAGS_RESPONSE: u16 = 0x8400;

/// A domain name as its labels, without the root.
#[derive(Debug)]
pub struct DnsName {
    pub labels: Vec<String>,
}

impl View for DnsName {
    type V = Seq<Seq<char>>;

    open spec fn view(&self) -> Seq<Seq<char>> {
        strings_view(self.labels@)
    }
}

impl Clone for DnsName {
    fn clone(&self) -> (r: Self)
        ensures
            r@ == self@,
    {
        let mut labels: Vec<String> = Vec::new();
        let mut i: usize = 0;
        while i < self.labels.len()
            invariant
                i <= self.labels.len(),
                labels@.len() == i,
                strings_view(labels@) == self@.subrange(0, i as int),
            decreases self.labels.len() - i,
        {
            labels.push(self.labels[i].clone());
            i += 1;
            assert(strings_view(labels@) =~= self@.subrange(0, i as int));
        }
        assert(self@.subrange(0, i as int) =~= self@);
        DnsName { labels }
    }
}

/// A label as it stands on the wire: its UTF-8 length, then its bytes.
pub open spec fn label_bytes(l: Seq<char>) -> Seq<u8> {
    seq![encode_utf8(l).len() as u8] + encode_utf8(l)
}

/// The labels on the wire, without the terminating zero.
pub open spec fn labels_bytes(ls: Seq<Seq<char>>) -> Seq<u8>
    decreases ls.len(),
{
    if ls.len() == 0 {
        Seq::empty()
    } else {
        labels_bytes(ls.drop_last()) + label_bytes(ls.last())
    }
}

/// A name on the wire, uncompressed.
pub open spec fn name_bytes(ls: Seq<Seq<char>>) -> Seq<u8> {
    labels_bytes(ls) + seq![0u8]
}

/// A label of 1 to 63 bytes.
pub open spec fn label_ok(l: Seq<char>) -> bool {
    1 <= encode_utf8(l).len() <= 63
}

/// Every label holds 1 to 63 bytes and the encoded name at most 255.
pub open spec fn name_ok(ls: Seq<Seq<char>>) -> bool {
    &&& forall|i: int| 0 <= i < ls.len() ==> label_ok(#[trigger] ls[i])
    &&& name_bytes(ls).len() <= 255
}

impl DnsName {
    /// The name of a dotted text; empty pieces between dots are dropped.
    /// Fails when a label exceeds 63 bytes or the encoded name 255 bytes.
    pub fn new(s: &str) -> (r: Result<DnsName, MdnsError>)
        ensures
            r is Ok <==> name_ok(split_dots(s@)),
            r is Ok ==> r->Ok_0@ == split_dots(s@),
    {
        let labels = split_labels(s);
        let name = DnsName { labels };
        if name.is_valid() {
            Ok(name)
        } else {
            Err(MdnsError::InvalidName)
        }
    }

    /// Whether every label holds 1 to 63 bytes and the encoded name at most 255.
    pub fn is_valid(&self) -> (r: bool)
        ensures
            r == name_ok(self@),
    {
        let ghost ls = self@;
        let mut total: usize = 0;
        let mut i: usize = 0;
        while i < self.labels.len()
            invariant
                i <= self.labels.len(),
                ls == self@,
                forall|j: int| 0 <= j < i ==> label_ok(#[trigger] ls[j]),
                total as int == if labels_bytes(ls.subrange(0, i as int)).len() < 256 {
                    labels_bytes(ls.subrange(0, i as int)).len() as int
                } else {
                    256
                },
            decreases self.labels.len() - i,
        {
            let label = self.labels[i].as_str();
            let n = label.as_bytes().len();
            assert(ls[i as int] == label@);
            if n == 0 || n > 63 {
                return false;
            }
            let ghost before = ls.subrange(0, i as int);
            assert(ls.subrange(0, i + 1).drop_last() =~= before);
            assert(labels_bytes(ls.subrange(0, i + 1)).len() == labels_bytes(before).len() + n + 1);
            total = if total + n + 1 < 256 {
                total + n + 1
            } else {
                256
            };
            i += 1;
        }
        assert(ls.subrange(0, i as int) =~= ls);
        total + 1 <= 255
    }

    /// The labels joined by `'.'`.
    pub fn to_string(&self) -> (r: String)
        ensures
            r@ == join_dots(self@),
    {
        join_labels(&self.labels)
    }
}

/// A resource record of a supported type.
#[derive(Debug)]
pub enum DnsRecord {
    A { name: DnsName, ttl: u32, ip: [u8; 4] },
    PTR { name: DnsName, ttl: u32, ptr_name: DnsName },
    SRV { name: DnsName, ttl: u32, priority: u16, weight: u16, port: u16, target: DnsName },
}

/// What a record states.
pub enum RecordView {
    A { name: Seq<Seq<char>>, ttl: u32, ip: Seq<u8> },
    Ptr { name: Seq<Seq<char>>, ttl: u32, ptr_name: Seq<Seq<char>> },
    Srv {
        name: Seq<Seq<char>>,
        ttl: u32,
        priority: u16,
        weight: u16,
        port: u16,
        target: Seq<Seq<char>>,
    },
}

impl View for DnsRecord {
    type V = RecordView;

    open spec fn view(&self) -> RecordView {
        match self {
            DnsRecord::A { name, ttl, ip } => RecordView::A { name: name@, ttl: *ttl, ip: ip@ },
            DnsRecord::PTR { name, ttl, ptr_name } => RecordView::Ptr {
                name: name@,
                ttl: *ttl,
                ptr_name: ptr_name@,
            },
            DnsRecord::SRV { name, ttl, priority, weight, port, target } => RecordView::Srv {
                name: name@,
                ttl: *ttl,
                priority: *priority,
                weight: *weight,
                port: *port,
                target: target@,
            },
        }
    }
}

impl Clone for DnsRecord {
    fn clone(&self) -> (r: Self)
        ensures
            r@ == self@,
    {
        match self {
            DnsRecord::A { name, ttl, ip } => DnsRecord::A { name: name.clone(), ttl: *ttl, ip: *ip },
            DnsRecord::PTR { name, ttl, ptr_name } => DnsRecord::PTR {
                name: name.clone(),
                ttl: *ttl,
                ptr_name: ptr_name.clone(),
            },
            DnsRecord::SRV { name, ttl, priority, weight, port, target } => DnsRecord::SRV {
                name: name.clone(),
                ttl: *ttl,
                priority: *priority,
                weight: *weight,
                port: *port,
                target: target.clone(),
            },
        }
    }
}

/// A question of a query.
#[derive(Debug)]
pub struct DnsQuestion {
    pub qname: DnsName,
    pub qtype: u16,
    pub qclass: u16,
}

/// What a question asks.
pub struct QuestionView {
    pub qname: Seq<Seq<char>>,
    pub qtype: u16,
    pub qclass: u16,
}

impl View for DnsQuestion {
    type V = QuestionView;

    open spec fn view(&self) -> QuestionView {
        QuestionView { qname: self.qname@, qtype: self.qtype, qclass: self.qclass }
    }
}

impl Clone for DnsQuestion {
    fn clone(&self) -> (r: Self)
        ensures
            r@ == self@,
    {
        DnsQuestion { qname: self.qname.clone(), qtype: self.qtype, qclass: self.qclass }
    }
}

/// A DNS message.
#[derive(Debug)]
pub struct DnsPacket {
    pub id: u16,
    pub flags: u16,
    pub questions: Vec<DnsQuestion>,
    pub answers: Vec<DnsRecord>,
    pub authorities: Vec<DnsRecord>,
    pub additionals: Vec<DnsRecord>,
}

/// What a message holds.
pub struct PacketView {
    pub id: u16,
    pub flags: u16,
    pub questions: Seq<QuestionView>,
    pub answers: Seq<RecordView>,
    pub authorities: Seq<RecordView>,
    pub additionals: Seq<RecordView>,
}

/// The views of a sequence of records.
pub open spec fn records_view(v: Seq<DnsRecord>) -> Seq<RecordView> {
    v.map_values(|r: DnsRecord| r@)
}

/// The views of a sequence of questions.
pub open spec fn questions_view(v: Seq<DnsQuestion>) -> Seq<QuestionView> {
    v.map_values(|q: DnsQuestion| q@)
}

impl View for DnsPacket {
    type V = PacketView;

    open spec fn view(&self) -> PacketView {
        PacketView {
            id: self.id,
            flags: self.flags,
            questions: questions_view(self.questions@),
            answers: records_view(self.answers@),
            authorities: records_view(self.authorities@),
            additionals: records_view(self.additionals@),
        }
    }
}

/// Copies a list of records.
pub fn clone_records(v: &Vec<DnsRecord>) -> (r: Vec<DnsRecord>)
    ensures
        records_view(r@) == records_view(v@),
{
    let mut out: Vec<DnsRecord> = Vec::new();
    let mut i: usize = 0;
    while i < v.len()
        invariant
            i <= v.len(),
            out@.len() == i,
            records_view(out@) == records_view(v@).subrange(0, i as int),
        decreases v.len() - i,
    {
        out.push(v[i].clone());
        i += 1;
        assert(records_view(out@) =~= records_view(v@).subrange(0, i as int));
    }
    assert(records_view(v@).subrange(0, i as int) =~= records_view(v@));
    out
}

impl Clone for DnsPacket {
    fn clone(&self) -> (r: Self)
        ensures
            r@ == self@,
    {
        let mut questions: Vec<DnsQuestion> = Vec::new();
        let mut i: usize = 0;
        while i < self.questions.len()
            invariant
                i <= self.questions.len(),
                questions@.len() == i,
                questions_view(questions@) == questions_view(self.questions@).subrange(0, i as int),
            decreases self.questions.len() - i,
        {
            questions.push(self.questions[i].clone());
            i += 1;
            assert(questions_view(questions@) =~= questions_view(self.questions@).subrange(
                0,
                i as int,
            ));
        }
        assert(questions_view(self.questions@).subrange(0, i as int) =~= questions_view(
            self.questions@,
        ));
        DnsPacket {
            id: self.id,
            flags: self.flags,
            questions,
            answers: clone_records(&self.answers),
            authorities: clone_records(&self.authorities),
            additionals: clone_records(&self.additionals),
        }
    }
}

impl DnsPacket {
    /// An empty message with id 0 and no flags.
    pub fn new() -> (r: DnsPacket)
        ensures
            r@ == (PacketView {
                id: 0,
                flags: 0,
                questions: Seq::empty(),
                answers: Seq::empty(),
                authorities: Seq::empty(),
                additionals: Seq::empty(),
            }),
    {
        let r = DnsPacket {
            id: 0,
            flags: 0,
            questions: Vec::new(),
            answers: Vec::new(),
            authorities: Vec::new(),
            additionals: Vec::new(),
        };
        assert(r@.questions =~= Seq::empty());
        assert(r@.answers =~= Seq::empty());
        assert(r@.authorities =~= Seq::empty());
        assert(r@.additionals =~= Seq::empty());
        r
    }

    /// Whether the response bit of the flags is set.
    pub fn is_response(&self) -> (r: bool)
        ensures
            r == (self.flags & FLAG_RESPONSE != 0),
    {
        self.flags & FLAG_RESPONSE != 0
    }
}

} // verus!
