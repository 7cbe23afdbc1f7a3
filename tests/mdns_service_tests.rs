use lanpeer::dns::{DnsName, DnsPacket, DnsQuestion, DnsRecord};
use lanpeer::mdns_service::{current_timestamp, timestamp_from_millis, MdnsEvent, MdnsService};
use lanpeer::records::NodeRecord;

fn setup_mdns_service() -> MdnsService {
    MdnsService::new(Some("TestNode.local".to_string()), "_testservice._tcp.local.")
        .expect("Failed to create MdnsService")
}

fn name(s: &str) -> DnsName {
    DnsName::new(s).unwrap()
}

#[test]
fn test_register_default_node_service() {
    let mut service = setup_mdns_service();
    let result = service.register_default_node_service();
    assert!(result.is_ok());

    let node_services = service.registry.list_services();
    assert!(!node_services.is_empty());

    let default_service = node_services
        .iter()
        .find(|s| s.service_type == "_testservice._tcp.local.");
    assert!(default_service.is_some());
}

#[test]
fn default_service_fields() {
    let service = setup_mdns_service();
    let services = service.registry.list_services();
    assert_eq!(services.len(), 1);
    let s = &services[0];
    assert_eq!(s.service_type, "_testservice._tcp.local.");
    assert_eq!(s.id, "TestNode.local._testservice._tcp.local.");
    assert_eq!(s.port, 5353);
    assert_eq!(s.ttl, Some(u32::MAX));
    assert_eq!(s.priority, Some(0));
    assert_eq!(s.weight, Some(0));
    assert_eq!(s.origin, "TestNode.local");
    assert_eq!(s.node_id, "TestNode.local");
    let node = service.registry.get_node("TestNode.local").unwrap();
    assert_eq!(node.ip_address, "0.0.0.0");
    assert_eq!(node.services, vec!["TestNode.local._testservice._tcp.local.".to_string()]);
}

#[test]
fn default_service_without_origin_and_dots() {
    let service = MdnsService::new(None, "..._http._tcp.local.").unwrap();
    let services = service.registry.list_services();
    assert_eq!(services[0].id, "UnknownOrigin.local._http._tcp.local.");
    let trailing = MdnsService::new(Some("Host.local..".to_string()), "_x._udp").unwrap();
    let services = trailing.registry.list_services();
    assert_eq!(services[0].id, "Host.local._x._udp");
    assert_eq!(services[0].node_id, "Host.local");
}

#[test]
fn test_register_local_service() {
    let mut service = setup_mdns_service();
    let result = service.register_local_service(
        "Service123.local".to_string(),
        "_custom._tcp.local.".to_string(),
        8080,
        Some(300),
        "TestNode.local".to_string(),
    );
    assert!(result.is_ok());

    let service_registry = service.registry.list_services();
    let added_service = service_registry.iter().find(|s| s.id == "Service123.local");
    assert!(added_service.is_some());
    assert_eq!(added_service.unwrap().port, 8080);
}

#[test]
fn local_service_links_node_and_reports() {
    let mut service = setup_mdns_service();
    service.take_events();
    service
        .register_local_service(
            "Service123.local".to_string(),
            "_custom._tcp.local.".to_string(),
            8080,
            Some(300),
            "TestNode.local".to_string(),
        )
        .unwrap();
    assert_eq!(service.registry.get_service("Service123.local").unwrap().port, 8080);
    let node = service.registry.get_node("TestNode.local").unwrap();
    assert!(node.services.contains(&"Service123.local".to_string()));
    assert_eq!(node.services.len(), 2);
    let events = service.take_events();
    assert_eq!(events.len(), 1);
    match &events[0] {
        MdnsEvent::Discovered(DnsRecord::SRV { name, ttl, port, target, .. }) => {
            assert_eq!(name.to_string(), "Service123.local");
            assert_eq!(*ttl, 300);
            assert_eq!(*port, 8080);
            assert_eq!(target.to_string(), "TestNode.local");
        }
        other => panic!("unexpected event {:?}", other),
    }
    assert!(service.take_events().is_empty());
}

#[test]
fn registering_again_replaces_by_id() {
    let mut service = setup_mdns_service();
    for port in [1000u16, 2000u16] {
        service
            .register_local_service("Dup.local".to_string(), "_d._tcp".to_string(), port, None, "TestNode.local.".to_string())
            .unwrap();
    }
    let services = service.registry.list_services();
    assert_eq!(services.len(), 2);
    let dup = service.registry.get_service("Dup.local").unwrap();
    assert_eq!(dup.port, 2000);
    assert_eq!(dup.node_id, "TestNode.local");
    assert_eq!(dup.origin, "TestNode.local.");
    let node = service.registry.get_node("TestNode.local").unwrap();
    assert_eq!(node.services.iter().filter(|s| s.as_str() == "Dup.local").count(), 1);
}

#[test]
fn test_advertise_services() {
    let mut service = setup_mdns_service();
    let result = service.advertise_services(Some([192, 168, 1, 2]));
    assert!(result.is_ok());
}

#[test]
fn advertise_without_local_address_fails() {
    let mut service = setup_mdns_service();
    assert!(service.create_advertise_packet(None).is_err());
    assert!(service.advertise_services(None).is_err());
    assert_eq!(service.backoff_intervals.advertise_s, 5);
}

#[test]
fn test_create_advertise_packet() {
    let service = setup_mdns_service();
    let packet = service
        .create_advertise_packet(Some([10, 0, 0, 7]))
        .expect("Failed to create advertise packet");

    assert!(!packet.answers.is_empty());
    assert!(packet.answers.iter().any(|record| matches!(record, DnsRecord::PTR { .. })));
    assert!(packet.answers.iter().any(|record| matches!(record, DnsRecord::SRV { .. })));
}

#[test]
fn advertise_packet_contents() {
    let service = setup_mdns_service();
    let packet = service.create_advertise_packet(Some([10, 0, 0, 7])).unwrap();
    assert_eq!(packet.flags, 0x8400);
    assert_eq!(packet.answers.len(), 3);
    match &packet.answers[0] {
        DnsRecord::PTR { name, ttl, ptr_name } => {
            assert_eq!(name.to_string(), "_testservice._tcp.local");
            assert_eq!(*ttl, u32::MAX);
            assert_eq!(ptr_name.to_string(), "TestNode.local._testservice._tcp.local");
        }
        other => panic!("unexpected {:?}", other),
    }
    match &packet.answers[1] {
        DnsRecord::SRV { name, port, priority, weight, target, .. } => {
            assert_eq!(name.to_string(), "TestNode.local._testservice._tcp.local");
            assert_eq!(*port, 5353);
            assert_eq!((*priority, *weight), (0, 0));
            assert_eq!(target.to_string(), "TestNode.local");
        }
        other => panic!("unexpected {:?}", other),
    }
    match &packet.answers[2] {
        DnsRecord::A { name, ip, .. } => {
            assert_eq!(name.to_string(), "TestNode.local");
            assert_eq!(*ip, [10, 0, 0, 7]);
        }
        other => panic!("unexpected {:?}", other),
    }
}

#[test]
fn advertise_with_no_local_services_sends_nothing() {
    let mut service = MdnsService::new(Some("Other.local".to_string()), "_s._tcp").unwrap();
    service.origin = Some("Elsewhere.local".to_string());
    let packet = service.create_advertise_packet(Some([10, 0, 0, 1])).unwrap();
    assert!(packet.answers.is_empty());
    let step = service.advertise_services(Some([10, 0, 0, 1])).unwrap();
    assert!(step.is_none());
}

#[test]
fn test_process_response() {
    let mut service = setup_mdns_service();
    let packet = DnsPacket {
        id: 0,
        flags: 0x8400,
        questions: Vec::new(),
        answers: vec![
            DnsRecord::A { name: name("TestNode.local"), ttl: 300, ip: [192, 168, 1, 100] },
            DnsRecord::SRV {
                name: name("TestService.local"),
                ttl: 300,
                priority: 10,
                weight: 10,
                port: 8080,
                target: name("TestNode.local"),
            },
        ],
        authorities: Vec::new(),
        additionals: Vec::new(),
    };

    service.process_response(&packet, Some([192, 168, 1, 100]));
    let nodes = service.registry.list_nodes();
    assert!(!nodes.is_empty());
}

#[test]
fn response_records_node_and_service() {
    let mut service = setup_mdns_service();
    service.take_events();
    let packet = DnsPacket {
        id: 0,
        flags: 0x8400,
        questions: Vec::new(),
        answers: vec![
            DnsRecord::A { name: name("TestNode.local"), ttl: 300, ip: [10, 9, 8, 7] },
            DnsRecord::PTR { name: name("_x._tcp.local"), ttl: 1, ptr_name: name("Y.local") },
            DnsRecord::SRV {
                name: name("TestService.local"),
                ttl: 300,
                priority: 10,
                weight: 10,
                port: 8080,
                target: name("TestNode.local"),
            },
        ],
        authorities: Vec::new(),
        additionals: Vec::new(),
    };
    service.process_response(&packet, Some([192, 168, 1, 100]));
    let node = service.registry.get_node("TestNode.local").unwrap();
    assert_eq!(node.ip_address, "192.168.1.100");
    assert_eq!(node.ttl, Some(300));
    assert!(node.services.contains(&"TestService.local".to_string()));
    let s = service.registry.get_service("TestService.local").unwrap();
    assert_eq!(s.port, 8080);
    assert_eq!(s.priority, Some(10));
    assert_eq!(s.node_id, "TestNode.local");
    assert_eq!(s.service_type, "TestService.local");
    assert_eq!(service.take_events().len(), 2);
}

#[test]
fn response_from_ipv6_sender_is_ignored() {
    let mut service = setup_mdns_service();
    let packet = DnsPacket {
        id: 0,
        flags: 0x8400,
        questions: Vec::new(),
        answers: vec![DnsRecord::A { name: name("Far.local"), ttl: 1, ip: [1, 2, 3, 4] }],
        authorities: Vec::new(),
        additionals: Vec::new(),
    };
    service.process_response(&packet, None);
    assert!(service.registry.get_node("Far.local").is_none());
}

#[test]
fn ip_conflict_is_reported_and_skipped() {
    let mut service = setup_mdns_service();
    service.add_node_to_registry("Alpha.local.", "10.0.0.1", Some(5)).unwrap();
    let err = service.add_node_to_registry("Beta.local", "10.0.0.1", Some(5));
    assert!(matches!(err, Err(lanpeer::errors::MdnsError::IpConflict { .. })));
    assert!(service.registry.get_node("Beta.local").is_none());
    service.add_node_to_registry("Alpha.local", "10.0.0.2", Some(9)).unwrap();
    let alpha = service.registry.get_node("Alpha.local").unwrap();
    assert_eq!(alpha.ip_address, "10.0.0.2");
    assert_eq!(alpha.ttl, Some(9));
}

fn ptr_query(qname: &str) -> DnsPacket {
    DnsPacket {
        id: 1,
        flags: 0,
        questions: vec![DnsQuestion { qname: name(qname), qtype: 12, qclass: 1 }],
        answers: Vec::new(),
        authorities: Vec::new(),
        additionals: Vec::new(),
    }
}

#[test]
fn test_process_query_debounce() {
    let mut service = setup_mdns_service();
    let src = Some([192, 168, 1, 50]);
    let query_packet = ptr_query("_testservice._tcp.local.");
    let t0 = current_timestamp();

    let query_cache_before = service.query_cache.len();

    let first = service.process_query(&query_packet, src, t0);
    let query_cache_after_first = service.query_cache.len();
    assert!(query_cache_after_first > query_cache_before, "First query should be stored.");
    assert_eq!(first.len(), 1);

    let second = service.process_query(&query_packet, src, t0 + 100);
    let query_cache_after_second = service.query_cache.len();
    assert_eq!(
        query_cache_after_second, query_cache_after_first,
        "Duplicate query should be ignored due to debounce."
    );
    assert!(second.is_empty());

    let query_key = "_testservice._tcp.local".to_string();
    service.query_cache.insert(query_key.clone(), t0 - 1000);

    let third = service.process_query(&query_packet, src, t0 + 600);
    assert_eq!(service.query_cache.get(&query_key), Some(t0 + 600), "Query should be processed after debounce expiry.");
    assert_eq!(third.len(), 1);
}

#[test]
fn debounce_boundary_at_500_ms() {
    let mut service = setup_mdns_service();
    let q = ptr_query("_testservice._tcp.local");
    assert_eq!(service.process_query(&q, None, 10_000).len(), 1);
    assert!(service.process_query(&q, None, 10_499).is_empty());
    assert_eq!(service.process_query(&q, None, 10_500).len(), 1);
}

#[test]
fn query_response_contents() {
    let mut service = setup_mdns_service();
    let responses = service.process_query(&ptr_query("_testservice._tcp.local."), Some([192, 168, 1, 50]), 1);
    assert_eq!(responses.len(), 1);
    let r = &responses[0];
    assert_eq!(r.flags, 0x8400);
    assert_eq!(r.answers.len(), 3);
    match &r.answers[2] {
        DnsRecord::A { name, ip, .. } => {
            assert_eq!(name.to_string(), "TestNode.local");
            assert_eq!(*ip, [192, 168, 1, 50]);
        }
        other => panic!("unexpected {:?}", other),
    }
    let v6 = service.process_query(&ptr_query("_testservice._tcp.local"), None, 100_000);
    assert_eq!(v6[0].answers.len(), 2);
}

#[test]
fn query_without_match_or_of_other_type_gives_nothing() {
    let mut service = setup_mdns_service();
    assert!(service.process_query(&ptr_query("_none._tcp.local"), None, 1).is_empty());
    assert_eq!(service.query_cache.len(), 1);
    let mut other = ptr_query("_testservice._tcp.local");
    other.questions[0].qtype = 1;
    assert!(service.process_query(&other, None, 1).is_empty());
    assert_eq!(service.query_cache.len(), 1);
}

#[test]
fn periodic_query_packet_and_backoff() {
    let mut service = setup_mdns_service();
    service.set_backoff_state(lanpeer::back_off::BackoffState::Backoff);
    let q = service.periodic_query("_testservice._tcp.local.");
    assert_eq!(q.flags, 0);
    assert_eq!(q.questions.len(), 1);
    assert_eq!(q.questions[0].qtype, 12);
    assert_eq!(q.questions[0].qclass, 1);
    assert_eq!(q.questions[0].qname.to_string(), "_testservice._tcp.local");
    assert_eq!(service.backoff_intervals.advertise_s, 8);
    assert_eq!(service.backoff_intervals.query_s, 8);
}

#[test]
fn current_timestamp_is_recent() {
    let t = current_timestamp();
    assert!(t > 1_600_000_000_000);
}

#[test]
fn known_node_takes_new_ttl() {
    let mut service = setup_mdns_service();
    service.add_node_to_registry("Alpha.local", "10.0.0.1", Some(5)).unwrap();
    service.add_node_to_registry("Alpha.local", "10.0.0.1", Some(120)).unwrap();
    let alpha = service.registry.get_node("Alpha.local").unwrap();
    assert_eq!(alpha.ip_address, "10.0.0.1");
    assert_eq!(alpha.ttl, Some(120));
}

#[test]
fn node_with_repeated_services_is_refused() {
    let mut service = setup_mdns_service();
    let node = NodeRecord {
        id: "Twice.local".to_string(),
        ip_address: "10.1.1.1".to_string(),
        ttl: None,
        services: vec!["a".to_string(), "b".to_string(), "a".to_string()],
    };
    assert!(service.registry.add_node(node).is_err());
    assert!(service.registry.get_node("Twice.local").is_none());
}

#[test]
fn registering_default_again_adds_nothing() {
    let mut service = setup_mdns_service();
    service.register_default_node_service().unwrap();
    assert_eq!(service.registry.list_services().len(), 1);
    let node = service.registry.get_node("TestNode.local").unwrap();
    assert_eq!(node.services.len(), 1);
}

#[test]
fn timestamps_from_clock_readings() {
    assert_eq!(timestamp_from_millis(None), 0);
    assert_eq!(timestamp_from_millis(Some(1_700_000_000_123)), 1_700_000_000_123);
    assert_eq!(timestamp_from_millis(Some(u64::MAX as u128 + 5)), u64::MAX);
}
