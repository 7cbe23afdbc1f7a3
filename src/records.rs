//! The registry of discovered nodes and of the services they offer.
use vstd::prelude::*;
use crate::errors::MdnsError;
use crate::names::{strings_view, trim_end_dots, trim_trailing_dot};

verus! {

/// A service offered by a node.
#[derive(Debug)]
pub struct ServiceRecord {
    pub id: String,
    pub service_type: String,
    pub port: u16,
    pub ttl: Option<u32>,
    pub origin: String,
    pub priority: Option<u16>,
    pub weight: Option<u16>,
    pub node_id: String,
}

/// What a service record states.
pub struct ServiceView {
    pub id: Seq<char>,
    pub service_type: Seq<char>,
    pub port: u16,
    pub ttl: Option<u32>,
    pub origin: Seq<char>,
    pub priority: Option<u16>,
    pub weight: Option<u16>,
    pub node_id: Seq<char>,
}

impl ServiceView {
    /// The node id is the origin without its trailing dots.
    pub open spec fn consistent(self) -> bool {
        self.node_id == trim_end_dots(self.origin)
    }
}

impl View for ServiceRecord {
    type V = ServiceView;

    open spec fn view(&self) -> ServiceView {
        ServiceView {
            id: self.id@,
            service_type: self.service_type@,
            port: self.port,
            ttl: self.ttl,
            origin: self.origin@,
            priority: self.priority,
            weight: self.weight,
            node_id: self.node_id@,
        }
    }
}

impl Clone for ServiceRecord {
    fn clone(&self) -> (r: Self)
        ensures
            r@ == self@,
    {
        ServiceRecord {
            id: self.id.clone(),
            service_type: self.service_type.clone(),
            port: self.port,
            ttl: self.ttl,
            origin: self.origin.clone(),
            priority: self.priority,
            weight: self.weight,
            node_id: self.node_id.clone(),
        }
    }
}

/// A node of the network and the ids of its services.
#[derive(Debug)]
pub struct NodeRecord {
    pub id: String,
    pub ip_address: String,
    pub ttl: Option<u32>,
    pub services: Vec<String>,
}

/// What a node record states.
pub struct NodeView {
    pub id: Seq<char>,
    pub ip_address: Seq<char>,
    pub ttl: Option<u32>,
    pub services: Seq<Seq<char>>,
}

/// No id occurs twice.
pub open spec fn no_duplicates(s: Seq<Seq<char>>) -> bool {
    forall|i: int, j: int| 0 <= i < j < s.len() ==> s[i] != s[j]
}

impl NodeView {
    /// The id carries no trailing dot, and no service id occurs twice.
    pub open spec fn consistent(self) -> bool {
        self.id == trim_end_dots(self.id) && no_duplicates(self.services)
    }
}

/// Whether some id occurs twice in `v`.
pub fn has_duplicates(v: &Vec<String>) -> (r: bool)
    ensures
        r == !no_duplicates(strings_view(v@)),
{
    let ghost s = strings_view(v@);
    let mut j: usize = 0;
    while j < v.len()
        invariant
            j <= v@.len(),
            s == strings_view(v@),
            forall|a: int, b: int| 0 <= a < b < j ==> s[a] != s[b],
        decreases v@.len() - j,
    {
        let mut i: usize = 0;
        while i < j
            invariant
                i <= j < v@.len(),
                s == strings_view(v@),
                forall|a: int, b: int| 0 <= a < b < j ==> s[a] != s[b],
                forall|a: int| 0 <= a < i ==> s[a] != s[j as int],
            decreases j - i,
        {
            if v[i] == v[j] {
                assert(s[i as int] == s[j as int]);
                return true;
            }
            i += 1;
        }
        j += 1;
    }
    false
}

impl View for NodeRecord {
    type V = NodeView;

    open spec fn view(&self) -> NodeView {
        NodeView {
            id: self.id@,
            ip_address: self.ip_address@,
            ttl: self.ttl,
            services: strings_view(self.services@),
        }
    }
}

/// Copies a list of strings.
pub fn clone_strings(v: &Vec<String>) -> (r: Vec<String>)
    ensures
        strings_view(r@) == strings_view(v@),
{
    let mut out: Vec<String> = Vec::new();
    let mut i: usize = 0;
    while i < v.len()
        invariant
            i <= v.len(),
            out@.len() == i,
            strings_view(out@) == strings_view(v@).subrange(0, i as int),
        decreases v.len() - i,
    {
        out.push(v[i].clone());
        i += 1;
        assert(strings_view(out@) =~= strings_view(v@).subrange(0, i as int));
    }
    assert(strings_view(v@).subrange(0, i as int) =~= strings_view(v@));
    out
}

impl Clone for NodeRecord {
    fn clone(&self) -> (r: Self)
        ensures
            r@ == self@,
    {
        NodeRecord {
            id: self.id.clone(),
            ip_address: self.ip_address.clone(),
            ttl: self.ttl,
            services: clone_strings(&self.services),
        }
    }
}

/// The views of a sequence of service records.
pub open spec fn services_view(v: Seq<ServiceRecord>) -> Seq<ServiceView> {
    v.map_values(|s: ServiceRecord| s@)
}

/// The views of a sequence of node records.
pub open spec fn nodes_view(v: Seq<NodeRecord>) -> Seq<NodeView> {
    v.map_values(|n: NodeRecord| n@)
}

/// The last index of a service with this id, or -1.
pub open spec fn service_index(s: Seq<ServiceView>, id: Seq<char>) -> int
    decreases s.len(),
{
    if s.len() == 0 {
        -1
    } else if s.last().id == id {
        s.len() - 1
    } else {
        service_index(s.drop_last(), id)
    }
}

/// The last index of a node with this id, or -1.
pub open spec fn node_index(s: Seq<NodeView>, id: Seq<char>) -> int
    decreases s.len(),
{
    if s.len() == 0 {
        -1
    } else if s.last().id == id {
        s.len() - 1
    } else {
        node_index(s.drop_last(), id)
    }
}

/// `s` with `rec` replacing the service of the same id, or appended.
pub open spec fn upsert_service(s: Seq<ServiceView>, rec: ServiceView) -> Seq<ServiceView> {
    let i = service_index(s, rec.id);
    if i >= 0 {
        s.update(i, rec)
    } else {
        s.push(rec)
    }
}

/// `s` with `rec` replacing the node of the same id, or appended.
pub open spec fn upsert_node(s: Seq<NodeView>, rec: NodeView) -> Seq<NodeView> {
    let i = node_index(s, rec.id);
    if i >= 0 {
        s.update(i, rec)
    } else {
        s.push(rec)
    }
}

/// The service of this id, if any.
pub open spec fn lookup_service(s: Seq<ServiceView>, id: Seq<char>) -> Option<ServiceView> {
    let i = service_index(s, id);
    if i >= 0 {
        Some(s[i])
    } else {
        None
    }
}

/// The node of this id, if any.
pub open spec fn lookup_node(s: Seq<NodeView>, id: Seq<char>) -> Option<NodeView> {
    let i = node_index(s, id);
    if i >= 0 {
        Some(s[i])
    } else {
        None
    }
}

/// Whether a service belongs to the node named by `origin`, dots aside.
pub open spec fn on_node(origin: Seq<char>) -> spec_fn(ServiceView) -> bool {
    |s: ServiceView| trim_end_dots(s.node_id) == trim_end_dots(origin)
}

pub proof fn lemma_service_index_bounds(s: Seq<ServiceView>, id: Seq<char>)
    ensures
        -1 <= service_index(s, id) < s.len(),
        service_index(s, id) >= 0 ==> s[service_index(s, id)].id == id,
        service_index(s, id) < 0 ==> forall|j: int| 0 <= j < s.len() ==> s[j].id != id,
    decreases s.len(),
{
    if s.len() > 0 {
        lemma_service_index_bounds(s.drop_last(), id);
        assert(forall|j: int| 0 <= j < s.len() - 1 ==> s.drop_last()[j] == s[j]);
    }
}

pub proof fn lemma_node_index_bounds(s: Seq<NodeView>, id: Seq<char>)
    ensures
        -1 <= node_index(s, id) < s.len(),
        node_index(s, id) >= 0 ==> s[node_index(s, id)].id == id,
        node_index(s, id) < 0 ==> forall|j: int| 0 <= j < s.len() ==> s[j].id != id,
    decreases s.len(),
{
    if s.len() > 0 {
        lemma_node_index_bounds(s.drop_last(), id);
        assert(forall|j: int| 0 <= j < s.len() - 1 ==> s.drop_last()[j] == s[j]);
    }
}

/// The services and nodes known to this peer, each keyed by its id.
#[derive(Debug)]
pub struct MdnsRegistry {
    services: Vec<ServiceRecord>,
    nodes: Vec<NodeRecord>,
}

impl MdnsRegistry {
    /// The services, in order of first registration.
    pub closed spec fn services(&self) -> Seq<ServiceView> {
        services_view(self.services@)
    }

    /// The nodes, in order of first registration.
    pub closed spec fn nodes(&self) -> Seq<NodeView> {
        nodes_view(self.nodes@)
    }

    /// Ids are unique in each table, every service's node id is its origin
    /// without trailing dots, and no node id ends with a dot.
    pub open spec fn wf(&self) -> bool {
        &&& forall|i: int, j: int|
            0 <= i < j < self.services().len() ==> #[trigger] self.services()[i].id
                != #[trigger] self.services()[j].id
        &&& forall|i: int, j: int|
            0 <= i < j < self.nodes().len() ==> #[trigger] self.nodes()[i].id
                != #[trigger] self.nodes()[j].id
        &&& forall|i: int| 0 <= i < self.services().len() ==> (#[trigger] self.services()[i]).consistent()
        &&& forall|i: int| 0 <= i < self.nodes().len() ==> (#[trigger] self.nodes()[i]).consistent()
    }

    /// An empty registry.
    pub fn new() -> (r: Self)
        ensures
            r.wf(),
            r.services() == Seq::<ServiceView>::empty(),
            r.nodes() == Seq::<NodeView>::empty(),
    {
        let r = MdnsRegistry { services: Vec::new(), nodes: Vec::new() };
        assert(r.services() =~= Seq::<ServiceView>::empty());
        assert(r.nodes() =~= Seq::<NodeView>::empty());
        r
    }

    fn find_service(&self, id: &String) -> (r: Option<usize>)
        ensures
            r is Some <==> service_index(self.services(), id@) >= 0,
            r is Some ==> r->0 as int == service_index(self.services(), id@),
    {
        let mut i: usize = self.services.len();
        assert(self.services().subrange(0, i as int) =~= self.services());
        while i > 0
            invariant
                i <= self.services@.len(),
                service_index(self.services(), id@) == service_index(
                    self.services().subrange(0, i as int),
                    id@,
                ),
            decreases i,
        {
            let ghost pre = self.services().subrange(0, i as int);
            assert(pre.drop_last() =~= self.services().subrange(0, i - 1));
            if self.services[i - 1].id == *id {
                return Some(i - 1);
            }
            i -= 1;
        }
        None
    }

    fn find_node(&self, id: &String) -> (r: Option<usize>)
        ensures
            r is Some <==> node_index(self.nodes(), id@) >= 0,
            r is Some ==> r->0 as int == node_index(self.nodes(), id@),
    {
        let mut i: usize = self.nodes.len();
        assert(self.nodes().subrange(0, i as int) =~= self.nodes());
        while i > 0
            invariant
                i <= self.nodes@.len(),
                node_index(self.nodes(), id@) == node_index(self.nodes().subrange(0, i as int), id@),
            decreases i,
        {
            let ghost pre = self.nodes().subrange(0, i as int);
            assert(pre.drop_last() =~= self.nodes().subrange(0, i - 1));
            if self.nodes[i - 1].id == *id {
                return Some(i - 1);
            }
            i -= 1;
        }
        None
    }

    /// Inserts the service, or replaces the one with the same id. Fails,
    /// changing nothing, when its node id is not its origin without
    /// trailing dots.
    pub fn add_service(&mut self, service: ServiceRecord) -> (r: Result<(), MdnsError>)
        requires
            old(self).wf(),
        ensures
            final(self).wf(),
            final(self).nodes() == old(self).nodes(),
            r is Ok <==> service@.consistent(),
            r is Ok ==> final(self).services() == upsert_service(old(self).services(), service@),
            r is Err ==> final(self).services() == old(self).services(),
    {
        let trimmed = trim_trailing_dot(service.origin.as_str());
        if !(service.node_id == trimmed) {
            return Err(MdnsError::InvalidRecord);
        }
        let ghost old_s = self.services();
        proof {
            lemma_service_index_bounds(old_s, service@.id);
        }
        match self.find_service(&service.id) {
            Some(i) => {
                let ghost v = service@;
                self.services.set(i, service);
                assert(self.services() =~= old_s.update(i as int, v));
            },
            None => {
                let ghost v = service@;
                self.services.push(service);
                assert(self.services() =~= old_s.push(v));
            },
        }
        Ok(())
    }

    /// The service with this id.
    pub fn get_service(&self, id: &str) -> (r: Option<ServiceRecord>)
        ensures
            match r {
                Some(s) => lookup_service(self.services(), id@) == Some(s@),
                None => lookup_service(self.services(), id@) is None,
            },
    {
        let key = String::from_str(id);
        proof {
            lemma_service_index_bounds(self.services(), id@);
        }
        match self.find_service(&key) {
            Some(i) => Some(self.services[i].clone()),
            None => None,
        }
    }

    /// All services.
    pub fn list_services(&self) -> (r: Vec<ServiceRecord>)
        ensures
            services_view(r@) == self.services(),
    {
        let mut out: Vec<ServiceRecord> = Vec::new();
        let mut i: usize = 0;
        while i < self.services.len()
            invariant
                i <= self.services@.len(),
                out@.len() == i,
                services_view(out@) == self.services().subrange(0, i as int),
            decreases self.services@.len() - i,
        {
            out.push(self.services[i].clone());
            i += 1;
            assert(services_view(out@) =~= self.services().subrange(0, i as int));
        }
        assert(self.services().subrange(0, i as int) =~= self.services());
        out
    }

    /// The services whose node id equals `origin`, trailing dots aside.
    pub fn list_services_by_node(&self, origin: &str) -> (r: Vec<ServiceRecord>)
        ensures
            services_view(r@) == self.services().filter(on_node(origin@)),
    {
        let want = trim_trailing_dot(origin);
        let mut out: Vec<ServiceRecord> = Vec::new();
        let mut i: usize = 0;
        while i < self.services.len()
            invariant
                i <= self.services@.len(),
                want@ == trim_end_dots(origin@),
                services_view(out@) == self.services().subrange(0, i as int).filter(
                    on_node(origin@),
                ),
            decreases self.services@.len() - i,
        {
            let ghost pre = self.services().subrange(0, i + 1);
            assert(pre.drop_last() =~= self.services().subrange(0, i as int));
            assert(pre.last() == self.services@[i as int]@);
            assert(on_node(origin@)(pre.last()) == (trim_end_dots(pre.last().node_id) == trim_end_dots(
                origin@,
            )));
            let have = trim_trailing_dot(self.services[i].node_id.as_str());
            let ghost prev = services_view(out@);
            if have == want {
                let c = self.services[i].clone();
                out.push(c);
                assert(services_view(out@) =~= prev.push(pre.last()));
            } else {
                assert(!on_node(origin@)(pre.last()));
            }
            reveal(Seq::filter);
            assert(pre.filter(on_node(origin@)) == if on_node(origin@)(pre.last()) {
                pre.drop_last().filter(on_node(origin@)).push(pre.last())
            } else {
                pre.drop_last().filter(on_node(origin@))
            });
            assert(services_view(out@) == pre.filter(on_node(origin@)));
            i += 1;
        }
        assert(self.services().subrange(0, i as int) =~= self.services());
        out
    }

    /// Inserts the node, or replaces the one with the same id. Fails,
    /// changing nothing, when its id ends with a dot or a service id occurs
    /// twice in it.
    pub fn add_node(&mut self, node: NodeRecord) -> (r: Result<(), MdnsError>)
        requires
            old(self).wf(),
        ensures
            final(self).wf(),
            final(self).services() == old(self).services(),
            r is Ok <==> node@.consistent(),
            r is Ok ==> final(self).nodes() == upsert_node(old(self).nodes(), node@),
            r is Err ==> final(self).nodes() == old(self).nodes(),
    {
        let trimmed = trim_trailing_dot(node.id.as_str());
        if !(node.id == trimmed) || has_duplicates(&node.services) {
            return Err(MdnsError::InvalidRecord);
        }
        let ghost old_n = self.nodes();
        proof {
            lemma_node_index_bounds(old_n, node@.id);
        }
        match self.find_node(&node.id) {
            Some(i) => {
                let ghost v = node@;
                self.nodes.set(i, node);
                assert(self.nodes() =~= old_n.update(i as int, v));
            },
            None => {
                let ghost v = node@;
                self.nodes.push(node);
                assert(self.nodes() =~= old_n.push(v));
            },
        }
        Ok(())
    }

    /// The node with this id.
    pub fn get_node(&self, id: &str) -> (r: Option<NodeRecord>)
        ensures
            match r {
                Some(n) => lookup_node(self.nodes(), id@) == Some(n@),
                None => lookup_node(self.nodes(), id@) is None,
            },
    {
        let key = String::from_str(id);
        proof {
            lemma_node_index_bounds(self.nodes(), id@);
        }
        match self.find_node(&key) {
            Some(i) => Some(self.nodes[i].clone()),
            None => None,
        }
    }

    /// All nodes.
    pub fn list_nodes(&self) -> (r: Vec<NodeRecord>)
        ensures
            nodes_view(r@) == self.nodes(),
    {
        let mut out: Vec<NodeRecord> = Vec::new();
        let mut i: usize = 0;
        while i < self.nodes.len()
            invariant
                i <= self.nodes@.len(),
                out@.len() == i,
                nodes_view(out@) == self.nodes().subrange(0, i as int),
            decreases self.nodes@.len() - i,
        {
            out.push(self.nodes[i].clone());
            i += 1;
            assert(nodes_view(out@) =~= self.nodes().subrange(0, i as int));
        }
        assert(self.nodes().subrange(0, i as int) =~= self.nodes());
        out
    }
}

/// Whatever sequence of updates a registry went through, every service it
/// hands out carries the node id that its origin names, without trailing dots.
pub proof fn lemma_services_match_origin(reg: &MdnsRegistry, listed: Seq<ServiceView>)
    requires
        reg.wf(),
        listed == reg.services(),
    ensures
        forall|i: int|
            0 <= i < listed.len() ==> (#[trigger] listed[i]).node_id == trim_end_dots(
                listed[i].origin,
            ),
{
}

} // verus!
