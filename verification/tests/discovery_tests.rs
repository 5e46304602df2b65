use brewmble::discovery::{
    browse_service_name, clean_node_id, discovery_row, endpoint, entry_addresses, entry_host,
    entry_id, entry_instance, DiscoverSession, HostAddress, ServiceEntry, TargetCollector,
    DISCOVERY_HEADER,
};

fn entry(fullname: &str, service_type: &str, host: &str, port: u16, addrs: &[(bool, &str)], id: Option<&str>) -> ServiceEntry {
    ServiceEntry {
        fullname: fullname.to_string(),
        service_type: service_type.to_string(),
        hostname: host.to_string(),
        port,
        addresses: addrs
            .iter()
            .map(|(v4, t)| HostAddress { ipv4: *v4, text: t.to_string() })
            .collect(),
        id_property: id.map(|i| i.to_string()),
    }
}

#[test]
fn test_clean_node_id() {
    assert_eq!(clean_node_id("id=raspi1"), "raspi1");
    assert_eq!(clean_node_id("raspi1"), "raspi1");
    assert_eq!(clean_node_id(""), "");
}

#[test]
fn test_entry_helpers() {
    // The service as mDNS reports it for instance "cobblerd-node1" of type
    // "_cobbler._tcp.local." on host "node1.local." at 1.2.3.4:8080 with id=node1.
    let info = entry(
        "cobblerd-node1._cobbler._tcp.local.",
        "_cobbler._tcp.local.",
        "node1.local.",
        8080,
        &[(true, "1.2.3.4")],
        Some("id=node1"),
    );

    assert_eq!(entry_id(&info), "node1");
    assert_eq!(entry_host(&info), "node1.local");
    assert_eq!(entry_addresses(&info), "1.2.3.4");
    assert_eq!(entry_instance(&info), "cobblerd-node1");
}

#[test]
fn addresses_list_ipv4_first() {
    let info = entry(
        "x",
        "t",
        "h",
        1,
        &[(false, "fe80::1"), (true, "10.0.0.2"), (false, "::1"), (true, "10.0.0.1")],
        None,
    );
    assert_eq!(entry_addresses(&info), "10.0.0.2,10.0.0.1,fe80::1,::1");
    assert_eq!(entry_id(&info), "");
    assert_eq!(entry_instance(&info), "x");
}

#[test]
fn discovery_rows_and_service_name() {
    assert_eq!(browse_service_name(), "_brewmble._tcp.local.");
    assert_eq!(endpoint("10.0.0.1", 8080), "10.0.0.1:8080");
    let info = entry(
        "brewmbled-pi._brewmble._tcp.local.",
        "_brewmble._tcp.local.",
        "pi.local.",
        8081,
        &[(true, "10.0.0.5")],
        Some("id=pi"),
    );
    assert_eq!(discovery_row(&info), "pi\tpi.local\t10.0.0.5\t8081\tbrewmbled-pi");
    assert_eq!(DISCOVERY_HEADER, "ID\tHOST\tADDRESS\tPORT\tINSTANCE");
}

#[test]
fn discover_session_lists_each_service_once() {
    let a = entry("a._s.local.", "_s.local.", "a.local.", 80, &[(true, "10.0.0.1")], Some("id=a"));
    let b = entry("b._s.local.", "_s.local.", "b.local.", 81, &[], None);
    let mut s = DiscoverSession::new();
    let first = s.on_resolved(&a).unwrap();
    assert!(first.header);
    assert_eq!(first.row, "a\ta.local\t10.0.0.1\t80\ta");
    assert!(s.on_resolved(&a).is_none());
    let second = s.on_resolved(&b).unwrap();
    assert!(!second.header);
    assert_eq!(s.discovered, vec![("10.0.0.1:80".to_string(), "a".to_string())]);
    assert_eq!(s.seen.len(), 2);
}

#[test]
fn target_collector_deduplicates() {
    let a = entry("a", "s", "h", 80, &[(true, "10.0.0.1"), (false, "fe80::1")], None);
    let mut c = TargetCollector::new();
    c.on_resolved(&a);
    c.on_resolved(&a);
    assert_eq!(c.targets, vec!["10.0.0.1:80".to_string(), "fe80::1:80".to_string()]);
}
