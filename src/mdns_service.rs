//! The discovery service: its registry, query cache and back-off state, and
//! the decisions it takes on each packet and each loop turn. Sockets, timers
//! and tasks belong to the program that runs it.
use vstd::prelude::*;
use crate::back_off::{BackoffIntervals, BackoffState};
use crate::dns::{
    records_view, DnsName, DnsPacket, DnsQuestion, DnsRecord, PacketView,
    QuestionView, RecordView, CLASS_IN, FLAGS_RESPONSE, TYPE_PTR,
};
use crate::errors::MdnsError;
use crate::ipv4::{dotted, ipv4_text};
use crate::names::{
    ends_with, extract_service_type, join_dots, service_type_of, split_dots, split_labels,
    str_ends_with, strings_view, trim_end_dots, trim_leading_dot, trim_start_dots,
    trim_trailing_dot,
};
use crate::records::{
    lookup_node, on_node, services_view, upsert_node, upsert_service,
    MdnsRegistry, NodeRecord, NodeView, ServiceRecord, ServiceView,
};

verus! {

/// The port of multicast DNS.
pub const MDNS_PORT: u16 = 5353;

/// The ttl given to records whose service has none.
pub const DEFAULT_TTL: u32 = 120;

/// Two identical questions closer than this many milliseconds get one answer.
pub const DEBOUNCE_MS: u64 = 500;

/// What the service reports to its listeners.
#[derive(Debug)]
pub enum MdnsEvent {
    Discovered(DnsRecord),
}

impl View for MdnsEvent {
    type V = RecordView;

    open spec fn view(&self) -> RecordView {
        match self {
            MdnsEvent::Discovered(r) => r@,
        }
    }
}

impl Clone for MdnsEvent {
    fn clone(&self) -> (r: Self)
        ensures
            r@ == self@,
    {
        match self {
            MdnsEvent::Discovered(rec) => MdnsEvent::Discovered(rec.clone()),
        }
    }
}

/// The views of a sequence of events.
pub open spec fn events_view(v: Seq<MdnsEvent>) -> Seq<RecordView> {
    v.map_values(|e: MdnsEvent| e@)
}

/// The name used when the service was given no origin.
pub open spec fn unknown_origin() -> Seq<char> {
    "UnknownOrigin.local"@
}

/// The origin, or the name used when there is none.
pub open spec fn origin_or_default(origin: Option<Seq<char>>) -> Seq<char> {
    match origin {
        Some(o) => o,
        None => unknown_origin(),
    }
}

/// The ttl of a service's records.
pub open spec fn ttl_or_default(ttl: Option<u32>) -> u32 {
    match ttl {
        Some(t) => t,
        None => DEFAULT_TTL,
    }
}

/// The id of a node's default service.
pub open spec fn default_service_id(origin: Seq<char>, default_type: Seq<char>) -> Seq<char> {
    trim_end_dots(origin) + seq!['.'] + trim_start_dots(default_type)
}

/// The node that `s` is linked to, given the nodes before the link: the
/// existing node of its node id (or a new one at `0.0.0.0`), with the
/// service's id added once.
pub open spec fn linked_node(nodes: Seq<NodeView>, s: ServiceView) -> NodeView {
    let nid = trim_end_dots(s.node_id);
    let base = match lookup_node(nodes, nid) {
        Some(n) => n,
        None => NodeView { id: nid, ip_address: "0.0.0.0"@, ttl: s.ttl, services: Seq::empty() },
    };
    if base.services.contains(s.id) {
        base
    } else {
        NodeView { services: base.services.push(s.id), ..base }
    }
}

/// Another node than `id` already holds address `ip`.
pub open spec fn ip_conflict(nodes: Seq<NodeView>, ip: Seq<char>, id: Seq<char>) -> bool {
    exists|i: int| 0 <= i < nodes.len() && nodes[i].ip_address == ip && nodes[i].id != id
}

/// The nodes after a node announced itself as `id` from address `ip`
/// with `ttl` (a known node takes both, keeping its services), or `None`
/// when the address belongs to another node.
pub open spec fn node_update(nodes: Seq<NodeView>, id: Seq<char>, ip: Seq<char>, ttl: Option<u32>) -> Option<
    Seq<NodeView>,
> {
    let nid = trim_end_dots(id);
    if ip_conflict(nodes, ip, nid) {
        None
    } else {
        match lookup_node(nodes, nid) {
            Some(n) => Some(upsert_node(nodes, NodeView { ip_address: ip, ttl: ttl, ..n })),
            None => Some(
                upsert_node(nodes, NodeView { id: nid, ip_address: ip, ttl: ttl, services: Seq::empty() }),
            ),
        }
    }
}

/// The service that a service record of a response describes.
pub open spec fn srv_service(
    name: Seq<Seq<char>>,
    ttl: u32,
    priority: u16,
    weight: u16,
    port: u16,
    target: Seq<Seq<char>>,
) -> ServiceView {
    let id = join_dots(name);
    let origin = trim_end_dots(join_dots(target));
    ServiceView {
        id: id,
        service_type: service_type_of(id),
        port: port,
        ttl: Some(ttl),
        origin: origin,
        priority: Some(priority),
        weight: Some(weight),
        node_id: origin,
    }
}

/// The registry tables after one answer of a response from address `src`.
pub open spec fn apply_answer(
    services: Seq<ServiceView>,
    nodes: Seq<NodeView>,
    a: RecordView,
    src: Seq<u8>,
) -> (Seq<ServiceView>, Seq<NodeView>) {
    match a {
        RecordView::A { name, ttl, ip } => match node_update(
            nodes,
            join_dots(name),
            dotted(src),
            Some(ttl),
        ) {
            Some(n2) => (services, n2),
            None => (services, nodes),
        },
        RecordView::Srv { name, ttl, priority, weight, port, target } => {
            let rec = srv_service(name, ttl, priority, weight, port, target);
            (upsert_service(services, rec), upsert_node(nodes, linked_node(nodes, rec)))
        },
        RecordView::Ptr { .. } => (services, nodes),
    }
}

/// The registry tables after all answers of a response from address `src`.
pub open spec fn apply_answers(
    services: Seq<ServiceView>,
    nodes: Seq<NodeView>,
    answers: Seq<RecordView>,
    src: Seq<u8>,
) -> (Seq<ServiceView>, Seq<NodeView>)
    decreases answers.len(),
{
    if answers.len() == 0 {
        (services, nodes)
    } else {
        let (s, n) = apply_answers(services, nodes, answers.drop_last(), src);
        apply_answer(s, n, answers.last(), src)
    }
}

/// An address or service record: the answers that are reported.
pub open spec fn is_discovery(a: RecordView) -> bool {
    a is A || a is Srv
}

/// The answers of a response that are reported as discoveries.
pub open spec fn discovery_events(answers: Seq<RecordView>) -> Seq<RecordView> {
    answers.filter(|a: RecordView| is_discovery(a))
}

/// The answers for one service: a pointer from its type to its id, its
/// service record aimed at `target`, and an address record for `a_name`
/// when an address is given.
pub open spec fn service_answers(
    s: ServiceView,
    target: Seq<char>,
    a_name: Seq<char>,
    ip: Option<Seq<u8>>,
) -> Seq<RecordView> {
    let ttl = ttl_or_default(s.ttl);
    let head = seq![
        RecordView::Ptr { name: split_dots(s.service_type), ttl: ttl, ptr_name: split_dots(s.id) },
        RecordView::Srv {
            name: split_dots(s.id),
            ttl: ttl,
            priority: match s.priority { Some(p) => p, None => 0 },
            weight: match s.weight { Some(w) => w, None => 0 },
            port: s.port,
            target: split_dots(target),
        },
    ];
    match ip {
        Some(addr) => head.push(RecordView::A { name: split_dots(a_name), ttl: ttl, ip: addr }),
        None => head,
    }
}

/// The answers announcing each service of `ms`; the address record of each
/// is named by the service's own origin.
pub open spec fn advertise_answers(ms: Seq<ServiceView>, origin: Seq<char>, ip: Seq<u8>) -> Seq<
    RecordView,
>
    decreases ms.len(),
{
    if ms.len() == 0 {
        Seq::empty()
    } else {
        advertise_answers(ms.drop_last(), origin, ip) + service_answers(
            ms.last(),
            origin,
            ms.last().origin,
            Some(ip),
        )
    }
}

/// The answers to a question matched by each service of `ms`; the address
/// record, present for an IPv4 asker, names `origin` and holds the asker's
/// address.
pub open spec fn query_answers(ms: Seq<ServiceView>, origin: Seq<char>, src: Option<Seq<u8>>) -> Seq<
    RecordView,
>
    decreases ms.len(),
{
    if ms.len() == 0 {
        Seq::empty()
    } else {
        query_answers(ms.drop_last(), origin, src) + service_answers(ms.last(), origin, origin, src)
    }
}

/// A response message holding `answers`.
pub open spec fn response_view(answers: Seq<RecordView>) -> PacketView {
    PacketView {
        id: 0,
        flags: FLAGS_RESPONSE,
        questions: Seq::empty(),
        answers: answers,
        authorities: Seq::empty(),
        additionals: Seq::empty(),
    }
}

/// The query message asking for pointers of `service_type`.
pub open spec fn query_view(service_type: Seq<char>) -> PacketView {
    PacketView {
        id: 0,
        flags: 0,
        questions: seq![QuestionView { qname: split_dots(service_type), qtype: TYPE_PTR, qclass: CLASS_IN }],
        answers: Seq::empty(),
        authorities: Seq::empty(),
        additionals: Seq::empty(),
    }
}

/// Whether a service answers a question for `key`: its id ends with the
/// key, trailing dots of both aside.
pub open spec fn answers_query(key: Seq<char>) -> spec_fn(ServiceView) -> bool {
    |s: ServiceView| ends_with(trim_end_dots(s.id), trim_end_dots(key))
}

/// When each question was last answered, by question text.
#[derive(Debug)]
pub struct QueryCache {
    entries: Vec<(String, u64)>,
}

/// The last index of an entry for `key`, or -1.
pub open spec fn cache_index(c: Seq<(Seq<char>, u64)>, key: Seq<char>) -> int
    decreases c.len(),
{
    if c.len() == 0 {
        -1
    } else if c.last().0 == key {
        c.len() - 1
    } else {
        cache_index(c.drop_last(), key)
    }
}

/// When `key` was last answered, if ever.
pub open spec fn cache_get(c: Seq<(Seq<char>, u64)>, key: Seq<char>) -> Option<u64> {
    let i = cache_index(c, key);
    if i >= 0 {
        Some(c[i].1)
    } else {
        None
    }
}

/// The cache with `key` answered at `now`.
pub open spec fn cache_put(c: Seq<(Seq<char>, u64)>, key: Seq<char>, now: u64) -> Seq<(Seq<char>, u64)> {
    let i = cache_index(c, key);
    if i >= 0 {
        c.update(i, (key, now))
    } else {
        c.push((key, now))
    }
}

/// A question for `key` at `now` repeats one answered less than 500 ms before.
pub open spec fn debounced(c: Seq<(Seq<char>, u64)>, key: Seq<char>, now: u64) -> bool {
    match cache_get(c, key) {
        Some(t) => (now as int) - (t as int) < DEBOUNCE_MS as int,
        None => false,
    }
}

pub proof fn lemma_cache_index_bounds(c: Seq<(Seq<char>, u64)>, key: Seq<char>)
    ensures
        -1 <= cache_index(c, key) < c.len(),
        cache_index(c, key) >= 0 ==> c[cache_index(c, key)].0 == key,
        cache_index(c, key) < 0 ==> forall|j: int| 0 <= j < c.len() ==> c[j].0 != key,
        forall|j: int| cache_index(c, key) < j < c.len() ==> c[j].0 != key,
    decreases c.len(),
{
    if c.len() > 0 {
        lemma_cache_index_bounds(c.drop_last(), key);
        assert(forall|j: int| 0 <= j < c.len() - 1 ==> c.drop_last()[j] == c[j]);
    }
}

impl QueryCache {
    /// The entries, as question text and time in milliseconds.
    pub closed spec fn entries(&self) -> Seq<(Seq<char>, u64)> {
        self.entries@.map_values(|e: (String, u64)| (e.0@, e.1))
    }

    /// An empty cache.
    pub fn new() -> (r: Self)
        ensures
            r.entries() == Seq::<(Seq<char>, u64)>::empty(),
    {
        let r = QueryCache { entries: Vec::new() };
        assert(r.entries() =~= Seq::<(Seq<char>, u64)>::empty());
        r
    }

    /// The number of questions seen.
    pub fn len(&self) -> (r: usize)
        ensures
            r == self.entries().len(),
    {
        self.entries.len()
    }

    fn find(&self, key: &String) -> (r: Option<usize>)
        ensures
            r is Some <==> cache_index(self.entries(), key@) >= 0,
            r is Some ==> r->0 as int == cache_index(self.entries(), key@),
    {
        let mut i: usize = self.entries.len();
        assert(self.entries().subrange(0, i as int) =~= self.entries());
        while i > 0
            invariant
                i <= self.entries@.len(),
                cache_index(self.entries(), key@) == cache_index(
                    self.entries().subrange(0, i as int),
                    key@,
                ),
            decreases i,
        {
            let ghost pre = self.entries().subrange(0, i as int);
            assert(pre.drop_last() =~= self.entries().subrange(0, i - 1));
            if self.entries[i - 1].0 == *key {
                return Some(i - 1);
            }
            i -= 1;
        }
        None
    }

    /// When `key` was last answered.
    pub fn get(&self, key: &str) -> (r: Option<u64>)
        ensures
            r == cache_get(self.entries(), key@),
    {
        let k = String::from_str(key);
        proof {
            lemma_cache_index_bounds(self.entries(), key@);
        }
        match self.find(&k) {
            Some(i) => Some(self.entries[i].1),
            None => None,
        }
    }

    /// Records that `key` was answered at `now`.
    pub fn insert(&mut self, key: String, now: u64)
        ensures
            final(self).entries() == cache_put(old(self).entries(), key@, now),
    {
        let ghost old_c = self.entries();
        let ghost k = key@;
        proof {
            lemma_cache_index_bounds(old_c, k);
        }
        match self.find(&key) {
            Some(i) => {
                self.entries.set(i, (key, now));
                assert(self.entries() =~= old_c.update(i as int, (k, now)));
            },
            None => {
                self.entries.push((key, now));
                assert(self.entries() =~= old_c.push((k, now)));
            },
        }
    }
}

/// The state of the discovery service of one node.
pub struct MdnsService {
    pub registry: MdnsRegistry,
    pub origin: Option<String>,
    pub default_service_type: String,
    pub query_cache: QueryCache,
    pub backoff_state: BackoffState,
    pub backoff_intervals: BackoffIntervals,
    pub events: Vec<MdnsEvent>,
}

impl MdnsService {
    /// The node's origin, if one was given.
    pub open spec fn origin_view(&self) -> Option<Seq<char>> {
        match self.origin {
            Some(o) => Some(o@),
            None => None,
        }
    }

    /// The node's origin, or the name used when there is none.
    pub open spec fn spec_origin(&self) -> Seq<char> {
        origin_or_default(self.origin_view())
    }

    /// The discoveries not yet taken by the listeners.
    pub open spec fn pending_events(&self) -> Seq<RecordView> {
        events_view(self.events@)
    }

    /// The registry is well formed and the intervals lie in range.
    pub open spec fn wf(&self) -> bool {
        self.registry.wf() && self.backoff_intervals.wf()
    }

    /// A service with an empty registry, state `Normal` and both intervals
    /// at 5 s, holding the node's default service: id
    /// `trim_trailing_dot(origin) + "." + trim_leading_dot(default_type)`,
    /// port 5353, the largest ttl, priority and weight 0, and the trimmed
    /// origin as origin and node id.
    pub fn new(origin: Option<String>, default_service_type: &str) -> (r: Result<Self, MdnsError>)
        ensures
            r is Ok,
            r->Ok_0.wf(),
            r->Ok_0.backoff_state == BackoffState::Normal,
            r->Ok_0.backoff_intervals.advertise_s == 5,
            r->Ok_0.backoff_intervals.query_s == 5,
            r->Ok_0.query_cache.entries().len() == 0,
            r->Ok_0.backoff_intervals.in_range(),
            r->Ok_0.origin_view() == match origin { Some(o) => Some(o@), None => None::<Seq<char>> },
            r->Ok_0.default_service_type@ == default_service_type@,
            r->Ok_0.registry.services() == seq![
                default_service(origin_or_default(match origin { Some(o) => Some(o@), None => None }), default_service_type@),
            ],
            r->Ok_0.registry.nodes() == seq![
                default_node(origin_or_default(match origin { Some(o) => Some(o@), None => None }), default_service_type@),
            ],
            r->Ok_0.pending_events() == Seq::<RecordView>::empty(),
    {
        let mut s = MdnsService {
            registry: MdnsRegistry::new(),
            origin,
            default_service_type: String::from_str(default_service_type),
            query_cache: QueryCache::new(),
            backoff_state: BackoffState::Normal,
            backoff_intervals: BackoffIntervals::initial(),
            events: Vec::new(),
        };
        assert(s.pending_events() =~= Seq::<RecordView>::empty());
        let ghost ds = default_service(s.spec_origin(), default_service_type@);
        let res = s.register_default_node_service();
        assert(s.registry.services() =~= seq![ds]);
        proof {
            lemma_trim_end_idempotent(s.spec_origin());
            let ln = linked_node(Seq::<NodeView>::empty(), ds);
            assert(!Seq::<Seq<char>>::empty().contains(ds.id));
            assert(ln.services =~= seq![ds.id]);
            assert(ln == default_node(s.spec_origin(), default_service_type@));
            assert(s.registry.nodes() =~= seq![ln]);
        }
        match res {
            Ok(()) => Ok(s),
            Err(e) => Err(e),
        }
    }

    /// The node's origin, or `"UnknownOrigin.local"`.
    pub fn origin(&self) -> (r: String)
        ensures
            r@ == self.spec_origin(),
    {
        match &self.origin {
            Some(o) => o.clone(),
            None => String::from_str("UnknownOrigin.local"),
        }
    }

    /// Takes the discoveries reported since the last call.
    pub fn take_events(&mut self) -> (r: Vec<MdnsEvent>)
        ensures
            events_view(r@) == old(self).pending_events(),
            final(self).pending_events() == Seq::<RecordView>::empty(),
            final(self).registry == old(self).registry,
            final(self).query_cache == old(self).query_cache,
            final(self).backoff_state == old(self).backoff_state,
            final(self).backoff_intervals == old(self).backoff_intervals,
            final(self).spec_origin() == old(self).spec_origin(),
    {
        let mut r: Vec<MdnsEvent> = Vec::new();
        core::mem::swap(&mut r, &mut self.events);
        assert(self.pending_events() =~= Seq::<RecordView>::empty());
        r
    }

    /// Registers the node's own default service and links it to the node.
    pub fn register_default_node_service(&mut self) -> (r: Result<(), MdnsError>)
        requires
            old(self).wf(),
        ensures
            final(self).wf(),
            r is Ok,
            final(self).registry.services() == upsert_service(
                old(self).registry.services(),
                default_service(old(self).spec_origin(), old(self).default_service_type@),
            ),
            final(self).registry.nodes() == upsert_node(
                old(self).registry.nodes(),
                linked_node(
                    old(self).registry.nodes(),
                    default_service(old(self).spec_origin(), old(self).default_service_type@),
                ),
            ),
            final(self).spec_origin() == old(self).spec_origin(),
            final(self).default_service_type == old(self).default_service_type,
            final(self).backoff_state == old(self).backoff_state,
            final(self).backoff_intervals == old(self).backoff_intervals,
            final(self).query_cache == old(self).query_cache,
            final(self).origin == old(self).origin,
            final(self).events == old(self).events,
    {
        let node_origin = self.origin();
        let trimmed = trim_trailing_dot(node_origin.as_str());
        let mut id = trim_trailing_dot(node_origin.as_str());
        let dot = ".";
        proof {
            reveal_strlit(".");
        }
        id.append(dot);
        let tail = trim_leading_dot(self.default_service_type.as_str());
        id.append(tail.as_str());
        assert(id@ =~= default_service_id(node_origin@, self.default_service_type@));
        proof {
            lemma_trim_end_idempotent(node_origin@);
        }
        let record = ServiceRecord {
            id,
            service_type: self.default_service_type.clone(),
            port: MDNS_PORT,
            ttl: Some(u32::MAX),
            origin: trimmed.clone(),
            priority: Some(0),
            weight: Some(0),
            node_id: trimmed,
        };
        assert(record@ == default_service(self.spec_origin(), self.default_service_type@));
        let linked = record.clone();
        let added = self.registry.add_service(record);
        assert(added is Ok);
        self.link_service_to_node(&linked);
        Ok(())
    }

    /// Registers a service of this node and links it to its node (created
    /// at `0.0.0.0` when unknown); the node id is the origin without its
    /// trailing dots. Reports the service's record as a discovery.
    pub fn register_local_service(
        &mut self,
        id: String,
        service_type: String,
        port: u16,
        ttl: Option<u32>,
        origin: String,
    ) -> (r: Result<(), MdnsError>)
        requires
            old(self).wf(),
        ensures
            final(self).wf(),
            r is Ok,
            final(self).registry.services() == upsert_service(
                old(self).registry.services(),
                local_service(id@, service_type@, port, ttl, origin@),
            ),
            final(self).registry.nodes() == upsert_node(
                old(self).registry.nodes(),
                linked_node(
                    old(self).registry.nodes(),
                    local_service(id@, service_type@, port, ttl, origin@),
                ),
            ),
            final(self).pending_events() == old(self).pending_events().push(
                RecordView::Srv {
                    name: split_dots(id@),
                    ttl: ttl_or_default(ttl),
                    priority: 0,
                    weight: 0,
                    port: port,
                    target: split_dots(origin@),
                },
            ),
            final(self).spec_origin() == old(self).spec_origin(),
            final(self).backoff_state == old(self).backoff_state,
            final(self).backoff_intervals == old(self).backoff_intervals,
            final(self).query_cache == old(self).query_cache,
    {
        let node_id = trim_trailing_dot(origin.as_str());
        proof {
            lemma_trim_end_idempotent(origin@);
        }
        let event_name = DnsName { labels: split_labels(id.as_str()) };
        let event_target = DnsName { labels: split_labels(origin.as_str()) };
        let record = ServiceRecord {
            id,
            service_type,
            port,
            ttl,
            origin,
            priority: Some(0),
            weight: Some(0),
            node_id,
        };
        let linked = record.clone();
        let added = self.registry.add_service(record);
        assert(added is Ok);
        self.link_service_to_node(&linked);
        let ev_ttl = match ttl {
            Some(t) => t,
            None => DEFAULT_TTL,
        };
        let ghost before = self.pending_events();
        self.events.push(
            MdnsEvent::Discovered(
                DnsRecord::SRV {
                    name: event_name,
                    ttl: ev_ttl,
                    priority: 0,
                    weight: 0,
                    port,
                    target: event_target,
                },
            ),
        );
        assert(self.pending_events() =~= before.push(
            RecordView::Srv {
                name: split_dots(linked.id@),
                ttl: ttl_or_default(ttl),
                priority: 0,
                weight: 0,
                port: port,
                target: split_dots(linked.origin@),
            },
        ));
        Ok(())
    }

    /// Links a service to the node of its node id, creating the node at
    /// `0.0.0.0` when unknown, and adding the service's id once.
    fn link_service_to_node(&mut self, service: &ServiceRecord)
        requires
            old(self).wf(),
        ensures
            final(self).wf(),
            final(self).registry.services() == old(self).registry.services(),
            final(self).registry.nodes() == upsert_node(
                old(self).registry.nodes(),
                linked_node(old(self).registry.nodes(), service@),
            ),
            final(self).events == old(self).events,
            final(self).pending_events() == old(self).pending_events(),
            final(self).origin == old(self).origin,
            final(self).default_service_type == old(self).default_service_type,
            final(self).backoff_state == old(self).backoff_state,
            final(self).backoff_intervals == old(self).backoff_intervals,
            final(self).query_cache == old(self).query_cache,
    {
        let node_id = trim_trailing_dot(service.node_id.as_str());
        proof {
            lemma_trim_end_idempotent(service.node_id@);
        }
        proof {
            crate::records::lemma_node_index_bounds(self.registry.nodes(), node_id@);
        }
        let mut node = match self.registry.get_node(node_id.as_str()) {
            Some(n) => n,
            None => {
                let fresh = NodeRecord {
                    id: node_id,
                    ip_address: String::from_str("0.0.0.0"),
                    ttl: service.ttl,
                    services: Vec::new(),
                };
                assert(fresh@.services =~= Seq::<Seq<char>>::empty());
                fresh
            },
        };
        let ghost base = node@;
        if !contains_string(&node.services, &service.id) {
            node.services.push(service.id.clone());
            assert(node@.services =~= base.services.push(service.id@));
        }
        assert(node@ == linked_node(self.registry.nodes(), service@));
        let added = self.registry.add_node(node);
        assert(added is Ok);
    }

    /// Records that node `id` (trailing dots removed) is at address `ip`:
    /// a new node is added; a known node takes the address and the new ttl
    /// and keeps its services. Fails, changing nothing, when another node holds
    /// that address.
    pub fn add_node_to_registry(&mut self, id: &str, ip_address: &str, ttl: Option<u32>) -> (r:
        Result<(), MdnsError>)
        requires
            old(self).wf(),
        ensures
            final(self).wf(),
            r is Ok <==> node_update(old(self).registry.nodes(), id@, ip_address@, ttl) is Some,
            final(self).registry.nodes() == match node_update(
                old(self).registry.nodes(),
                id@,
                ip_address@,
                ttl,
            ) {
                Some(n) => n,
                None => old(self).registry.nodes(),
            },
            final(self).registry.services() == old(self).registry.services(),
            final(self).pending_events() == old(self).pending_events(),
            final(self).origin == old(self).origin,
            final(self).default_service_type == old(self).default_service_type,
            final(self).backoff_state == old(self).backoff_state,
            final(self).backoff_intervals == old(self).backoff_intervals,
            final(self).query_cache == old(self).query_cache,
    {
        let normalized = trim_trailing_dot(id);
        let ip = String::from_str(ip_address);
        proof {
            lemma_trim_end_idempotent(id@);
        }
        match self.find_ip_conflict(&ip, &normalized) {
            Some(holder) => {
                return Err(MdnsError::IpConflict { ip, holder });
            },
            None => {},
        }
        proof {
            crate::records::lemma_node_index_bounds(self.registry.nodes(), normalized@);
        }
        match self.registry.get_node(normalized.as_str()) {
            Some(existing) => {
                let updated = NodeRecord {
                    id: existing.id,
                    ip_address: ip,
                    ttl,
                    services: existing.services,
                };
                let added = self.registry.add_node(updated);
                assert(added is Ok);
            },
            None => {
                let fresh = NodeRecord { id: normalized, ip_address: ip, ttl, services: Vec::new() };
                assert(fresh@.services =~= Seq::<Seq<char>>::empty());
                let added = self.registry.add_node(fresh);
                assert(added is Ok);
            },
        }
        Ok(())
    }

    /// The id of a node other than `id` that holds address `ip`, if any.
    fn find_ip_conflict(&self, ip: &String, id: &String) -> (r: Option<String>)
        ensures
            r is Some <==> ip_conflict(self.registry.nodes(), ip@, id@),
    {
        let nodes = self.registry.list_nodes();
        let ghost ns = self.registry.nodes();
        let mut i: usize = 0;
        while i < nodes.len()
            invariant
                i <= nodes@.len(),
                nodes@.len() == ns.len(),
                ns == self.registry.nodes(),
                forall|k: int| 0 <= k < nodes@.len() ==> nodes@[k]@ == ns[k],
                forall|k: int| 0 <= k < i ==> !(ns[k].ip_address == ip@ && ns[k].id != id@),
            decreases nodes@.len() - i,
        {
            assert(nodes@[i as int]@ == ns[i as int]);
            if nodes[i].ip_address == *ip && !(nodes[i].id == *id) {
                return Some(nodes[i].id.clone());
            }
            i += 1;
        }
        None
    }

    /// The advertisement of this node's services: for each service whose
    /// node is this origin, a pointer from its type to its id, its service
    /// record aimed at the origin, and an address record of its origin at
    /// `local_ip`. Fails when the local address is unknown.
    pub fn create_advertise_packet(&self, local_ip: Option<[u8; 4]>) -> (r: Result<DnsPacket, MdnsError>)
        ensures
            r is Ok <==> local_ip is Some,
            r is Ok ==> r->Ok_0@ == response_view(
                advertise_answers(
                    self.registry.services().filter(on_node(self.spec_origin())),
                    self.spec_origin(),
                    local_ip->0@,
                ),
            ),
    {
        let origin = self.origin();
        let services = self.registry.list_services_by_node(origin.as_str());
        let ip = match local_ip {
            Some(ip) => ip,
            None => {
                return Err(MdnsError::Generic(String::from_str("Failed to get local IP")));
            },
        };
        let mut packet = DnsPacket::new();
        packet.flags = FLAGS_RESPONSE;
        let ghost ms = services_view(services@);
        let mut i: usize = 0;
        while i < services.len()
            invariant
                i <= services@.len(),
                ms == services_view(services@),
                origin@ == self.spec_origin(),
                packet@ == response_view(advertise_answers(ms.subrange(0, i as int), origin@, ip@)),
            decreases services@.len() - i,
        {
            let s = &services[i];
            let ghost before = records_view(packet.answers@);
            let recs = service_records(s, origin.as_str(), s.origin.as_str(), Some(ip));
            let mut recs = recs;
            packet.answers.append(&mut recs);
            assert(ms.subrange(0, i + 1).drop_last() =~= ms.subrange(0, i as int));
            assert(records_view(packet.answers@) =~= advertise_answers(
                ms.subrange(0, i + 1),
                origin@,
                ip@,
            ));
            i += 1;
        }
        assert(ms.subrange(0, i as int) =~= ms);
        Ok(packet)
    }

    /// One turn of the advertise loop: builds the advertisement and moves
    /// the intervals. Gives the packet to send, or `None` when this node has
    /// no services (nothing is sent). Fails, moving nothing, when the local
    /// address is unknown.
    pub fn advertise_services(&mut self, local_ip: Option<[u8; 4]>) -> (r: Result<Option<DnsPacket>, MdnsError>)
        requires
            old(self).wf(),
        ensures
            final(self).wf(),
            r is Ok <==> local_ip is Some,
            r is Ok ==> final(self).backoff_intervals == old(self).backoff_intervals.adjusted(
                old(self).backoff_state,
            ),
            r is Err ==> final(self).backoff_intervals == old(self).backoff_intervals,
            r is Ok ==> match r->Ok_0 {
                Some(p) => p@ == response_view(
                    advertise_answers(
                        old(self).registry.services().filter(on_node(old(self).spec_origin())),
                        old(self).spec_origin(),
                        local_ip->0@,
                    ),
                ) && p@.answers.len() > 0,
                None => advertise_answers(
                    old(self).registry.services().filter(on_node(old(self).spec_origin())),
                    old(self).spec_origin(),
                    local_ip->0@,
                ).len() == 0,
            },
            final(self).registry == old(self).registry,
            final(self).query_cache == old(self).query_cache,
            final(self).backoff_state == old(self).backoff_state,
    {
        let packet = match self.create_advertise_packet(local_ip) {
            Ok(p) => p,
            Err(e) => {
                return Err(e);
            },
        };
        self.adjust_backoff_state();
        if packet.answers.len() == 0 {
            Ok(None)
        } else {
            Ok(Some(packet))
        }
    }

    /// One turn of the query loop: the query for pointers of
    /// `service_type`, and the intervals moved.
    pub fn periodic_query(&mut self, service_type: &str) -> (r: DnsPacket)
        requires
            old(self).wf(),
        ensures
            final(self).wf(),
            r@ == query_view(service_type@),
            final(self).backoff_intervals == old(self).backoff_intervals.adjusted(
                old(self).backoff_state,
            ),
            final(self).registry == old(self).registry,
            final(self).query_cache == old(self).query_cache,
            final(self).backoff_state == old(self).backoff_state,
    {
        let mut packet = DnsPacket::new();
        packet.flags = 0;
        let q = DnsQuestion {
            qname: DnsName { labels: split_labels(service_type) },
            qtype: TYPE_PTR,
            qclass: CLASS_IN,
        };
        packet.questions.push(q);
        assert(packet@.questions =~= query_view(service_type@).questions);
        self.adjust_backoff_state();
        packet
    }

    /// Sets the load state that the next adjustments follow.
    pub fn set_backoff_state(&mut self, state: BackoffState)
        ensures
            final(self).backoff_state == state,
            final(self).backoff_intervals == old(self).backoff_intervals,
            final(self).registry == old(self).registry,
            final(self).query_cache == old(self).query_cache,
    {
        self.backoff_state = state;
    }

    /// Moves both intervals by the rule of the current state, then cuts the
    /// query interval to twice the advertise interval if it exceeds it.
    pub fn adjust_backoff_state(&mut self)
        requires
            old(self).wf(),
        ensures
            final(self).wf(),
            final(self).backoff_intervals == old(self).backoff_intervals.adjusted(
                old(self).backoff_state,
            ),
            final(self).backoff_state == old(self).backoff_state,
            final(self).registry == old(self).registry,
            final(self).query_cache == old(self).query_cache,
            final(self).origin == old(self).origin,
            final(self).events == old(self).events,
    {
        self.backoff_intervals = self.backoff_intervals.adjust(self.backoff_state);
    }

    /// Takes a response received from `src` (`None` for an IPv6 sender, whose
    /// answers are ignored). An address record records its name's node at
    /// the sender's address (not the record's payload; an address held by
    /// another node skips the record); a service record registers the
    /// service, with its type taken from its id and the target without
    /// trailing dots as origin and node id, and links it to that node.
    /// Both are reported as discoveries; other records are ignored.
    pub fn process_response(&mut self, packet: &DnsPacket, src: Option<[u8; 4]>)
        requires
            old(self).wf(),
        ensures
            final(self).wf(),
            match src {
                Some(ip) => {
                    &&& (final(self).registry.services(), final(self).registry.nodes())
                        == apply_answers(
                        old(self).registry.services(),
                        old(self).registry.nodes(),
                        packet@.answers,
                        ip@,
                    )
                    &&& final(self).pending_events() == old(self).pending_events()
                        + discovery_events(packet@.answers)
                },
                None => {
                    &&& final(self).registry == old(self).registry
                    &&& final(self).pending_events() == old(self).pending_events()
                },
            },
            final(self).query_cache == old(self).query_cache,
            final(self).backoff_state == old(self).backoff_state,
            final(self).backoff_intervals == old(self).backoff_intervals,
            final(self).spec_origin() == old(self).spec_origin(),
    {
        let ip = match src {
            Some(ip) => ip,
            None => {
                return;
            },
        };
        let src_text = ipv4_text(ip);
        let ghost answers = packet@.answers;
        let ghost s0 = self.registry.services();
        let ghost n0 = self.registry.nodes();
        let ghost e0 = self.pending_events();
        let mut i: usize = 0;
        while i < packet.answers.len()
            invariant
                self.wf(),
                i <= packet.answers@.len(),
                answers == packet@.answers,
                src_text@ == dotted(ip@),
                (self.registry.services(), self.registry.nodes()) == apply_answers(
                    s0,
                    n0,
                    answers.subrange(0, i as int),
                    ip@,
                ),
                self.pending_events() == e0 + discovery_events(answers.subrange(0, i as int)),
                self.query_cache == old(self).query_cache,
                self.backoff_state == old(self).backoff_state,
                self.backoff_intervals == old(self).backoff_intervals,
                self.origin == old(self).origin,
            decreases packet.answers@.len() - i,
        {
            let ghost pre = answers.subrange(0, i + 1);
            assert(pre.drop_last() =~= answers.subrange(0, i as int));
            assert(pre.last() == packet.answers@[i as int]@);
            let ghost ev_before = self.pending_events();
            let answer = &packet.answers[i];
            proof {
                reveal(Seq::filter);
            }
            match answer {
                DnsRecord::A { name, ttl, ip: _ } => {
                    let node_name = name.to_string();
                    let _ = self.add_node_to_registry(node_name.as_str(), src_text.as_str(), Some(*ttl));
                    self.events.push(MdnsEvent::Discovered(answer.clone()));
                    assert(self.pending_events() =~= ev_before.push(pre.last()));
                },
                DnsRecord::SRV { name, ttl, priority, weight, port, target } => {
                    let srv_id = name.to_string();
                    let target_text = target.to_string();
                    let srv_origin = trim_trailing_dot(target_text.as_str());
                    proof {
                        lemma_trim_end_idempotent(target_text@);
                    }
                    let record = ServiceRecord {
                        id: srv_id.clone(),
                        service_type: extract_service_type(srv_id.as_str()),
                        port: *port,
                        ttl: Some(*ttl),
                        origin: srv_origin.clone(),
                        priority: Some(*priority),
                        weight: Some(*weight),
                        node_id: srv_origin,
                    };
                    assert(record@ == srv_service(name@, *ttl, *priority, *weight, *port, target@));
                    let linked = record.clone();
                    let added = self.registry.add_service(record);
                    assert(added is Ok);
                    self.link_service_to_node(&linked);
                    self.events.push(MdnsEvent::Discovered(answer.clone()));
                    assert(self.pending_events() =~= ev_before.push(pre.last()));
                },
                DnsRecord::PTR { .. } => {},
            }
            i += 1;
        }
        assert(answers.subrange(0, i as int) =~= answers);
    }

    /// Answers one question received from `src` at `now` (milliseconds):
    /// only pointer questions of the Internet class count. A repeat within
    /// 500 ms of the last answered one is dropped; otherwise the question is
    /// recorded as answered now, and every service whose id ends with the
    /// question (trailing dots aside) gets its pointer, its service record
    /// aimed at this node's origin, and, for an IPv4 asker, an address
    /// record of the origin at the asker's address. No matching service
    /// means no response.
    pub fn answer_question(&mut self, q: &DnsQuestion, src: Option<[u8; 4]>, now: u64) -> (r: Option<DnsPacket>)
        requires
            old(self).wf(),
        ensures
            final(self).wf(),
            final(self).query_cache.entries() == question_cache(
                old(self).query_cache.entries(),
                q@,
                now,
            ),
            match question_response(
                old(self).query_cache.entries(),
                old(self).registry.services(),
                old(self).spec_origin(),
                q@,
                match src { Some(ip) => Some(ip@), None => None },
                now,
            ) {
                Some(p) => r is Some && r->0@ == p,
                None => r is None,
            },
            final(self).registry == old(self).registry,
            final(self).backoff_state == old(self).backoff_state,
            final(self).backoff_intervals == old(self).backoff_intervals,
            final(self).origin == old(self).origin,
            final(self).events == old(self).events,
    {
        if !(q.qtype == TYPE_PTR && q.qclass == CLASS_IN) {
            return None;
        }
        let key = q.qname.to_string();
        match self.query_cache.get(key.as_str()) {
            Some(last) => {
                if last > now || now - last < DEBOUNCE_MS {
                    return None;
                }
            },
            None => {},
        }
        self.query_cache.insert(key.clone(), now);
        let all = self.registry.list_services();
        let want = trim_trailing_dot(key.as_str());
        let origin = self.origin();
        let ghost ss = services_view(all@);
        let ghost p = answers_query(key@);
        let ghost sv = match src { Some(ip) => Some(ip@), None => None::<Seq<u8>> };
        let mut answers: Vec<DnsRecord> = Vec::new();
        let mut matched: usize = 0;
        let mut i: usize = 0;
        while i < all.len()
            invariant
                i <= all@.len(),
                ss == services_view(all@),
                ss == old(self).registry.services(),
                p == answers_query(key@),
                sv == match src { Some(ip) => Some(ip@), None => None::<Seq<u8>> },
                want@ == trim_end_dots(key@),
                origin@ == self.spec_origin(),
                matched as int == ss.subrange(0, i as int).filter(p).len(),
                matched <= i,
                records_view(answers@) == query_answers(ss.subrange(0, i as int).filter(p), origin@, sv),
            decreases all@.len() - i,
        {
            let ghost pre = ss.subrange(0, i + 1);
            assert(pre.drop_last() =~= ss.subrange(0, i as int));
            assert(pre.last() == all@[i as int]@);
            proof {
                reveal(Seq::filter);
            }
            assert(p(pre.last()) == ends_with(trim_end_dots(pre.last().id), trim_end_dots(key@)));
            let id_trim = trim_trailing_dot(all[i].id.as_str());
            if str_ends_with(id_trim.as_str(), want.as_str()) {
                let mut recs = service_records(&all[i], origin.as_str(), origin.as_str(), src);
                let ghost before = records_view(answers@);
                answers.append(&mut recs);
                assert(pre.filter(p) == ss.subrange(0, i as int).filter(p).push(pre.last()));
                assert(pre.filter(p).drop_last() =~= ss.subrange(0, i as int).filter(p));
                assert(records_view(answers@) =~= query_answers(pre.filter(p), origin@, sv));
                matched += 1;
            } else {
                assert(!p(pre.last()));
                assert(pre.filter(p) == ss.subrange(0, i as int).filter(p));
            }
            i += 1;
        }
        assert(ss.subrange(0, i as int) =~= ss);
        if matched == 0 {
            return None;
        }
        let mut packet = DnsPacket::new();
        packet.flags = FLAGS_RESPONSE;
        packet.answers = answers;
        Some(packet)
    }

    /// Answers the questions of a query received from `src` at `now`
    /// (milliseconds), in order, as `answer_question` does for each; gives
    /// the responses to send after a short delay.
    pub fn process_query(&mut self, packet: &DnsPacket, src: Option<[u8; 4]>, now: u64) -> (r: Vec<DnsPacket>)
        requires
            old(self).wf(),
        ensures
            final(self).wf(),
            final(self).query_cache.entries() == questions_cache(
                old(self).query_cache.entries(),
                packet@.questions,
                now,
            ),
            responses_view(r@) == questions_responses(
                old(self).query_cache.entries(),
                old(self).registry.services(),
                old(self).spec_origin(),
                packet@.questions,
                match src { Some(ip) => Some(ip@), None => None },
                now,
            ),
            final(self).registry == old(self).registry,
            final(self).backoff_state == old(self).backoff_state,
            final(self).backoff_intervals == old(self).backoff_intervals,
            final(self).spec_origin() == old(self).spec_origin(),
    {
        let ghost qs = packet@.questions;
        let ghost c0 = self.query_cache.entries();
        let ghost sv = match src { Some(ip) => Some(ip@), None => None::<Seq<u8>> };
        let mut out: Vec<DnsPacket> = Vec::new();
        let mut i: usize = 0;
        while i < packet.questions.len()
            invariant
                self.wf(),
                i <= packet.questions@.len(),
                qs == packet@.questions,
                sv == match src { Some(ip) => Some(ip@), None => None::<Seq<u8>> },
                self.query_cache.entries() == questions_cache(c0, qs.subrange(0, i as int), now),
                responses_view(out@) == questions_responses(
                    c0,
                    old(self).registry.services(),
                    old(self).spec_origin(),
                    qs.subrange(0, i as int),
                    sv,
                    now,
                ),
                self.registry == old(self).registry,
                self.backoff_state == old(self).backoff_state,
                self.backoff_intervals == old(self).backoff_intervals,
                self.origin == old(self).origin,
            decreases packet.questions@.len() - i,
        {
            let ghost pre = qs.subrange(0, i + 1);
            assert(pre.drop_last() =~= qs.subrange(0, i as int));
            assert(pre.last() == packet.questions@[i as int]@);
            let ghost before = responses_view(out@);
            let ghost resp = question_response(
                questions_cache(c0, qs.subrange(0, i as int), now),
                old(self).registry.services(),
                old(self).spec_origin(),
                pre.last(),
                sv,
                now,
            );
            assert(questions_responses(c0, old(self).registry.services(), old(self).spec_origin(), pre, sv, now)
                == match resp { Some(p) => before.push(p), None => before });
            match self.answer_question(&packet.questions[i], src, now) {
                Some(p) => {
                    out.push(p);
                    assert(responses_view(out@) =~= before.push(p@));
                },
                None => {},
            }
            i += 1;
        }
        assert(qs.subrange(0, i as int) =~= qs);
        out
    }
}

/// The node's default service, for this origin and default service type.
pub open spec fn default_service(origin: Seq<char>, default_type: Seq<char>) -> ServiceView {
    ServiceView {
        id: default_service_id(origin, default_type),
        service_type: default_type,
        port: MDNS_PORT,
        ttl: Some(u32::MAX),
        origin: trim_end_dots(origin),
        priority: Some(0),
        weight: Some(0),
        node_id: trim_end_dots(origin),
    }
}

/// The node of this origin as its default service leaves it: at
/// `0.0.0.0`, with the largest ttl and the default service alone.
pub open spec fn default_node(origin: Seq<char>, default_type: Seq<char>) -> NodeView {
    NodeView {
        id: trim_end_dots(origin),
        ip_address: "0.0.0.0"@,
        ttl: Some(u32::MAX),
        services: seq![default_service_id(origin, default_type)],
    }
}

/// A service registered locally.
pub open spec fn local_service(
    id: Seq<char>,
    service_type: Seq<char>,
    port: u16,
    ttl: Option<u32>,
    origin: Seq<char>,
) -> ServiceView {
    ServiceView {
        id: id,
        service_type: service_type,
        port: port,
        ttl: ttl,
        origin: origin,
        priority: Some(0),
        weight: Some(0),
        node_id: trim_end_dots(origin),
    }
}

/// The cache after one question at `now`.
pub open spec fn question_cache(c: Seq<(Seq<char>, u64)>, q: QuestionView, now: u64) -> Seq<
    (Seq<char>, u64),
> {
    let key = join_dots(q.qname);
    if q.qtype == TYPE_PTR && q.qclass == CLASS_IN && !debounced(c, key, now) {
        cache_put(c, key, now)
    } else {
        c
    }
}

/// The response to one question at `now`, if any.
pub open spec fn question_response(
    c: Seq<(Seq<char>, u64)>,
    services: Seq<ServiceView>,
    origin: Seq<char>,
    q: QuestionView,
    src: Option<Seq<u8>>,
    now: u64,
) -> Option<PacketView> {
    let key = join_dots(q.qname);
    let ms = services.filter(answers_query(key));
    if q.qtype == TYPE_PTR && q.qclass == CLASS_IN && !debounced(c, key, now) && ms.len() > 0 {
        Some(response_view(query_answers(ms, origin, src)))
    } else {
        None
    }
}

/// The cache after the questions, in order.
pub open spec fn questions_cache(c: Seq<(Seq<char>, u64)>, qs: Seq<QuestionView>, now: u64) -> Seq<
    (Seq<char>, u64),
>
    decreases qs.len(),
{
    if qs.len() == 0 {
        c
    } else {
        question_cache(questions_cache(c, qs.drop_last(), now), qs.last(), now)
    }
}

/// The responses to the questions, in order.
pub open spec fn questions_responses(
    c: Seq<(Seq<char>, u64)>,
    services: Seq<ServiceView>,
    origin: Seq<char>,
    qs: Seq<QuestionView>,
    src: Option<Seq<u8>>,
    now: u64,
) -> Seq<PacketView>
    decreases qs.len(),
{
    if qs.len() == 0 {
        Seq::empty()
    } else {
        let earlier = questions_responses(c, services, origin, qs.drop_last(), src, now);
        match question_response(
            questions_cache(c, qs.drop_last(), now),
            services,
            origin,
            qs.last(),
            src,
            now,
        ) {
            Some(p) => earlier.push(p),
            None => earlier,
        }
    }
}

/// Relies on `SystemTime::now` and `duration_since(UNIX_EPOCH)`: the
/// milliseconds since the epoch, or `None` for a clock set before it.
#[verifier::external_body]
fn unix_millis() -> (r: Option<u128>) {
    match std::time::SystemTime::now().duration_since(std::time::UNIX_EPOCH) {
        Ok(d) => Some(d.as_millis()),
        Err(_) => None,
    }
}

/// Milliseconds as a timestamp: 0 for a clock set before the epoch, and
/// the largest `u64` past what it holds.
pub fn timestamp_from_millis(ms: Option<u128>) -> (r: u64)
    ensures
        r == match ms {
            Some(m) => if m > u64::MAX as u128 {
                u64::MAX
            } else {
                m as u64
            },
            None => 0,
        },
{
    match ms {
        Some(m) => if m > u64::MAX as u128 {
            u64::MAX
        } else {
            m as u64
        },
        None => 0,
    }
}

/// The current time in milliseconds since the epoch, as
/// `timestamp_from_millis` makes it of the clock's reading.
pub fn current_timestamp() -> (r: u64) {
    timestamp_from_millis(unix_millis())
}

/// The views of a sequence of packets.
pub open spec fn responses_view(v: Seq<DnsPacket>) -> Seq<PacketView> {
    v.map_values(|p: DnsPacket| p@)
}

/// Once a question is answered at `t1`, the same question at `t2` is
/// dropped exactly when it comes less than 500 ms later (or earlier than
/// `t1`); from 500 ms on it is answered again.
pub proof fn lemma_debounce_window(c: Seq<(Seq<char>, u64)>, key: Seq<char>, t1: u64, t2: u64)
    ensures
        debounced(cache_put(c, key, t1), key, t2) <==> (t2 as int) - (t1 as int) < 500,
{
    lemma_cache_index_bounds(c, key);
    let c2 = cache_put(c, key, t1);
    lemma_cache_index_bounds(c2, key);
    let i = cache_index(c, key);
    if i >= 0 {
        assert(c2[i].0 == key);
        assert(forall|j: int| 0 <= j < c2.len() && j != i ==> c2[j] == c[j]);
    } else {
        assert(c2.last().0 == key);
    }
    lemma_last_index_unique(c2, key, if i >= 0 { i } else { c.len() as int });
}

/// A pointer question answered at `t1` gets no response when asked again
/// less than 500 ms later; from 500 ms on it is answered again whenever a
/// service matches.
pub proof fn lemma_repeat_question(
    c: Seq<(Seq<char>, u64)>,
    services: Seq<ServiceView>,
    origin: Seq<char>,
    q: QuestionView,
    src: Option<Seq<u8>>,
    t1: u64,
    t2: u64,
)
    requires
        q.qtype == TYPE_PTR,
        q.qclass == CLASS_IN,
        !debounced(c, join_dots(q.qname), t1),
    ensures
        (t2 as int) - (t1 as int) < 500 ==> question_response(
            question_cache(c, q, t1),
            services,
            origin,
            q,
            src,
            t2,
        ) is None,
        (t2 as int) - (t1 as int) >= 500 && services.filter(answers_query(join_dots(q.qname))).len()
            > 0 ==> question_response(question_cache(c, q, t1), services, origin, q, src, t2)
            == Some(
            response_view(
                query_answers(services.filter(answers_query(join_dots(q.qname))), origin, src),
            ),
        ),
{
    lemma_debounce_window(c, join_dots(q.qname), t1, t2);
}

proof fn lemma_last_index_unique(c: Seq<(Seq<char>, u64)>, key: Seq<char>, i: int)
    requires
        0 <= i < c.len(),
        c[i].0 == key,
        forall|j: int| i < j < c.len() ==> c[j].0 != key,
    ensures
        cache_index(c, key) == i,
    decreases c.len(),
{
    if i < c.len() - 1 {
        lemma_last_index_unique(c.drop_last(), key, i);
    }
}

/// An advertisement has no records exactly when the node has no services,
/// and then it is not sent.
pub proof fn lemma_empty_advertisement(ms: Seq<ServiceView>, origin: Seq<char>, ip: Seq<u8>)
    ensures
        advertise_answers(ms, origin, ip).len() == 0 <==> ms.len() == 0,
        advertise_answers(ms, origin, ip).len() == 3 * ms.len(),
    decreases ms.len(),
{
    if ms.len() > 0 {
        lemma_empty_advertisement(ms.drop_last(), origin, ip);
    }
}

/// Removing trailing dots twice removes no more than once.
pub proof fn lemma_trim_end_idempotent(s: Seq<char>)
    ensures
        trim_end_dots(trim_end_dots(s)) == trim_end_dots(s),
    decreases s.len(),
{
    if s.len() > 0 && s.last() == '.' {
        lemma_trim_end_idempotent(s.drop_last());
    }
}

/// Whether `v` holds `s`.
fn contains_string(v: &Vec<String>, s: &String) -> (r: bool)
    ensures
        r == strings_view(v@).contains(s@),
{
    let mut i: usize = 0;
    while i < v.len()
        invariant
            i <= v.len(),
            forall|k: int| 0 <= k < i ==> strings_view(v@)[k] != s@,
        decreases v.len() - i,
    {
        if v[i] == *s {
            assert(strings_view(v@)[i as int] == s@);
            return true;
        }
        i += 1;
    }
    false
}

/// The records for one service: a pointer from its type to its id, its
/// service record aimed at `target`, and, given an address, an address
/// record for `a_name`.
fn service_records(s: &ServiceRecord, target: &str, a_name: &str, ip: Option<[u8; 4]>) -> (r: Vec<
    DnsRecord,
>)
    ensures
        records_view(r@) == service_answers(
            s@,
            target@,
            a_name@,
            match ip { Some(a) => Some(a@), None => None },
        ),
{
    let ttl = match s.ttl {
        Some(t) => t,
        None => DEFAULT_TTL,
    };
    let mut out: Vec<DnsRecord> = Vec::new();
    out.push(
        DnsRecord::PTR {
            name: DnsName { labels: split_labels(s.service_type.as_str()) },
            ttl,
            ptr_name: DnsName { labels: split_labels(s.id.as_str()) },
        },
    );
    out.push(
        DnsRecord::SRV {
            name: DnsName { labels: split_labels(s.id.as_str()) },
            ttl,
            priority: match s.priority {
                Some(p) => p,
                None => 0,
            },
            weight: match s.weight {
                Some(w) => w,
                None => 0,
            },
            port: s.port,
            target: DnsName { labels: split_labels(target) },
        },
    );
    match ip {
        Some(addr) => {
            out.push(DnsRecord::A { name: DnsName { labels: split_labels(a_name) }, ttl, ip: addr });
        },
        None => {},
    }
    assert(records_view(out@) =~= service_answers(
        s@,
        target@,
        a_name@,
        match ip { Some(a) => Some(a@), None => None },
    ));
    out
}

} // verus!
