use dns_lookup::address::{AddressFamily, IpAddress};
use dns_lookup::error::ResolutionError;
use dns_lookup::hint::{build_hints, ResolutionHint};
use dns_lookup::resolution::{
    begin, system_resolve_ipv4, system_resolve_ipv6, Reply, Request, Stage, TEXT_CAPACITY,
};

/// What a scripted system would answer to one resolution.
struct Script {
    status: i32,
    list: bool,
    nodes: Vec<(i32, Vec<u8>)>,
    description: String,
}

/// What a driver saw while it followed the requests of a resolution.
struct Record {
    lookups: usize,
    renders: usize,
    releases: usize,
    describes: usize,
    rendered_after_release: bool,
    described: Option<i32>,
    outcome: Result<Vec<IpAddress>, ResolutionError>,
}

fn buffer(text: &[u8]) -> Vec<u8> {
    let mut data = vec![0u8; TEXT_CAPACITY];
    data[..text.len()].copy_from_slice(text);
    data
}

fn drive(start: Stage, script: &Script) -> Record {
    let mut record = Record {
        lookups: 0,
        renders: 0,
        releases: 0,
        describes: 0,
        rendered_after_release: false,
        described: None,
        outcome: Ok(vec![]),
    };
    let mut stage = start;
    let mut node = 0;
    loop {
        let reply = match stage.request() {
            None => break,
            Some(Request::Lookup(_)) => {
                record.lookups += 1;
                Reply::Lookup { status: script.status, list: script.list }
            }
            Some(Request::Render { capacity, numeric_host }) => {
                assert_eq!(capacity, 100);
                assert!(numeric_host);
                record.renders += 1;
                if record.releases > 0 {
                    record.rendered_after_release = true;
                }
                let (status, data) = script.nodes[node].clone();
                node += 1;
                Reply::Rendered { status, data, last: node == script.nodes.len() }
            }
            Some(Request::Release) => {
                record.releases += 1;
                Reply::Released
            }
            Some(Request::Describe(code)) => {
                record.describes += 1;
                record.described = Some(code);
                Reply::Described(script.description.clone())
            }
        };
        stage = stage.advance(reply);
    }
    match stage {
        Stage::Done(outcome) => record.outcome = outcome,
        other => panic!("the resolution stopped at {:?}", other),
    }
    record
}

#[test]
fn hint_sets_the_family_and_nothing_else() {
    assert_eq!(
        build_hints(AddressFamily::IPv4),
        ResolutionHint { flags: 0, family: AddressFamily::IPv4, socktype: 0, protocol: 0 }
    );
    assert_eq!(
        build_hints(AddressFamily::IPv6),
        ResolutionHint { flags: 0, family: AddressFamily::IPv6, socktype: 0, protocol: 0 }
    );
}

#[test]
fn a_plain_host_name_is_never_invalid() {
    for host in ["google.com", "localhost", "", "a b", "xn--bcher-kva.example", "büro.example", "0"] {
        assert_eq!(
            system_resolve_ipv4(host),
            Ok(Stage::Lookup(build_hints(AddressFamily::IPv4)))
        );
        assert_eq!(
            system_resolve_ipv6(host),
            Ok(Stage::Lookup(build_hints(AddressFamily::IPv6)))
        );
    }
}

#[test]
fn a_host_name_with_a_zero_byte_is_refused_before_any_request() {
    for host in ["goo\0gle.com", "\0", "google.com\0", "\0google.com", "a\0b\0c"] {
        assert_eq!(system_resolve_ipv4(host), Err(ResolutionError::InvalidInput));
        assert_eq!(system_resolve_ipv6(host), Err(ResolutionError::InvalidInput));
        assert_eq!(begin(host, AddressFamily::IPv4), Err(ResolutionError::InvalidInput));
        assert_eq!(begin(host, AddressFamily::IPv6), Err(ResolutionError::InvalidInput));
    }
}

#[test]
fn begin_asks_for_a_lookup_with_the_hint_of_the_family() {
    let stage = begin("example.org", AddressFamily::IPv6).unwrap();
    assert_eq!(stage.request(), Some(Request::Lookup(build_hints(AddressFamily::IPv6))));
    let stage = begin("example.org", AddressFamily::IPv4).unwrap();
    assert_eq!(stage.request(), Some(Request::Lookup(build_hints(AddressFamily::IPv4))));
}

#[test]
fn messages_say_what_went_wrong() {
    assert_eq!(ResolutionError::InvalidInput.message(), "Null terminator in host name");
    assert_eq!(
        ResolutionError::ResolverFailure("Name or service not known".to_string()).message(),
        "Name or service not known"
    );
    assert_eq!(ResolutionError::ResolverFailure(String::new()).message(), "");
}

#[test]
fn a_walk_collects_the_addresses_in_the_order_of_the_nodes() {
    let script = Script {
        status: 0,
        list: true,
        nodes: vec![
            (0, buffer(b"142.250.74.46")),
            (0, buffer(b"2a00:1450:400f:80d::200e")),
            (0, buffer(b"142.250.74.46")),
        ],
        description: String::new(),
    };
    let record = drive(system_resolve_ipv4("example.org").unwrap(), &script);
    assert_eq!(
        record.outcome,
        Ok(vec![
            IpAddress::V4(142, 250, 74, 46),
            IpAddress::V6(0x2a00, 0x1450, 0x400f, 0x80d, 0, 0, 0, 0x200e),
            IpAddress::V4(142, 250, 74, 46),
        ])
    );
    assert_eq!(record.lookups, 1);
    assert_eq!(record.renders, 3);
    assert_eq!(record.releases, 1);
    assert_eq!(record.describes, 0);
    assert!(!record.rendered_after_release);
}

#[test]
fn a_hinted_family_does_not_filter_the_addresses() {
    let script = Script {
        status: 0,
        list: true,
        nodes: vec![(0, buffer(b"::1")), (0, buffer(b"127.0.0.1"))],
        description: String::new(),
    };
    let record = drive(system_resolve_ipv4("localhost").unwrap(), &script);
    assert_eq!(
        record.outcome,
        Ok(vec![IpAddress::V6(0, 0, 0, 0, 0, 0, 0, 1), IpAddress::V4(127, 0, 0, 1)])
    );
    let record = drive(system_resolve_ipv6("localhost").unwrap(), &script);
    assert_eq!(
        record.outcome,
        Ok(vec![IpAddress::V6(0, 0, 0, 0, 0, 0, 0, 1), IpAddress::V4(127, 0, 0, 1)])
    );
}

#[test]
fn text_that_is_no_address_is_passed_over() {
    let script = Script {
        status: 0,
        list: true,
        nodes: vec![
            (0, buffer(b"fe80::1%eth0")),
            (0, buffer(b"10.1.2.3")),
            (0, buffer(b"not an address")),
        ],
        description: String::new(),
    };
    let record = drive(system_resolve_ipv6("example.org").unwrap(), &script);
    assert_eq!(record.outcome, Ok(vec![IpAddress::V4(10, 1, 2, 3)]));
    assert_eq!(record.renders, 3);
    assert_eq!(record.releases, 1);
}

#[test]
fn a_walk_with_no_readable_text_succeeds_with_nothing() {
    let script = Script {
        status: 0,
        list: true,
        nodes: vec![
            (0, buffer(b"fe80::1%eth0")),
            (0, buffer(b"")),
            (0, vec![0xff, 0xfe, 0x00]),
            (0, buffer(b"1.2.3.4.5")),
        ],
        description: String::new(),
    };
    let record = drive(system_resolve_ipv4("example.org").unwrap(), &script);
    assert_eq!(record.outcome, Ok(vec![]));
    assert_eq!(record.renders, 4);
    assert_eq!(record.releases, 1);
    assert_eq!(record.describes, 0);
}

#[test]
fn a_failed_lookup_without_a_list_is_described_and_nothing_released() {
    let script = Script {
        status: -2,
        list: false,
        nodes: vec![],
        description: "Name or service not known".to_string(),
    };
    let record = drive(system_resolve_ipv4("nothing.invalid").unwrap(), &script);
    assert_eq!(
        record.outcome,
        Err(ResolutionError::ResolverFailure("Name or service not known".to_string()))
    );
    match &record.outcome {
        Err(error) => assert!(!error.message().is_empty()),
        Ok(_) => unreachable!(),
    }
    assert_eq!(record.described, Some(-2));
    assert_eq!(record.lookups, 1);
    assert_eq!(record.renders, 0);
    assert_eq!(record.releases, 0);
    assert_eq!(record.describes, 1);
}

#[test]
fn a_failed_lookup_that_left_a_list_releases_it_once() {
    let script = Script {
        status: -3,
        list: true,
        nodes: vec![(0, buffer(b"1.2.3.4"))],
        description: "Temporary failure in name resolution".to_string(),
    };
    let record = drive(system_resolve_ipv6("nothing.invalid").unwrap(), &script);
    assert_eq!(
        record.outcome,
        Err(ResolutionError::ResolverFailure("Temporary failure in name resolution".to_string()))
    );
    assert_eq!(record.described, Some(-3));
    assert_eq!(record.renders, 0);
    assert_eq!(record.releases, 1);
    assert_eq!(record.describes, 1);
}

#[test]
fn a_lookup_that_succeeds_without_a_list_fails_at_once() {
    let script = Script { status: 0, list: false, nodes: vec![], description: String::new() };
    let record = drive(system_resolve_ipv4("example.org").unwrap(), &script);
    assert_eq!(
        record.outcome,
        Err(ResolutionError::ResolverFailure("null pointer error".to_string()))
    );
    assert_eq!(record.renders, 0);
    assert_eq!(record.releases, 0);
    assert_eq!(record.describes, 0);
}

#[test]
fn a_failed_rendering_ends_the_walk_and_drops_what_was_collected() {
    let script = Script {
        status: 0,
        list: true,
        nodes: vec![
            (0, buffer(b"1.2.3.4")),
            (-12, buffer(b"")),
            (0, buffer(b"5.6.7.8")),
        ],
        description: "Result too large for supplied buffer".to_string(),
    };
    let record = drive(system_resolve_ipv4("example.org").unwrap(), &script);
    assert_eq!(
        record.outcome,
        Err(ResolutionError::ResolverFailure("Result too large for supplied buffer".to_string()))
    );
    assert_eq!(record.described, Some(-12));
    assert_eq!(record.renders, 2);
    assert_eq!(record.releases, 1);
    assert_eq!(record.describes, 1);
    assert!(!record.rendered_after_release);
}

#[test]
fn a_failed_rendering_of_the_last_node_fails_the_resolution() {
    let script = Script {
        status: 0,
        list: true,
        nodes: vec![(0, buffer(b"1.2.3.4")), (1, buffer(b"5.6.7.8"))],
        description: "failure".to_string(),
    };
    let record = drive(system_resolve_ipv4("example.org").unwrap(), &script);
    assert_eq!(record.outcome, Err(ResolutionError::ResolverFailure("failure".to_string())));
    assert_eq!(record.described, Some(1));
    assert_eq!(record.releases, 1);
}

#[test]
fn each_step_leads_to_the_stage_that_it_should() {
    let start = begin("example.org", AddressFamily::IPv4).unwrap();
    let walk = start.advance(Reply::Lookup { status: 0, list: true });
    assert_eq!(walk, Stage::Render(vec![]));
    assert_eq!(walk.request(), Some(Request::Render { capacity: 100, numeric_host: true }));
    let walk = walk.advance(Reply::Rendered { status: 0, data: buffer(b"9.9.9.9"), last: false });
    assert_eq!(walk, Stage::Render(vec![IpAddress::V4(9, 9, 9, 9)]));
    let walk = walk.advance(Reply::Rendered { status: 0, data: buffer(b"?"), last: false });
    assert_eq!(walk, Stage::Render(vec![IpAddress::V4(9, 9, 9, 9)]));
    let closing = walk.advance(Reply::Rendered { status: 0, data: buffer(b"::9"), last: true });
    assert_eq!(
        closing,
        Stage::Release(Ok(vec![IpAddress::V4(9, 9, 9, 9), IpAddress::V6(0, 0, 0, 0, 0, 0, 0, 9)]))
    );
    assert_eq!(closing.request(), Some(Request::Release));
    let done = closing.advance(Reply::Released);
    assert_eq!(
        done,
        Stage::Done(Ok(vec![IpAddress::V4(9, 9, 9, 9), IpAddress::V6(0, 0, 0, 0, 0, 0, 0, 9)]))
    );
    assert_eq!(done.request(), None);

    let failing = Stage::Render(vec![IpAddress::V4(9, 9, 9, 9)]).advance(Reply::Rendered {
        status: -4,
        data: buffer(b"8.8.8.8"),
        last: true,
    });
    assert_eq!(failing, Stage::Release(Err(-4)));
    let describing = failing.advance(Reply::Released);
    assert_eq!(describing, Stage::Describe(-4));
    assert_eq!(describing.request(), Some(Request::Describe(-4)));
    assert_eq!(
        describing.advance(Reply::Described("Non-recoverable failure".to_string())),
        Stage::Done(Err(ResolutionError::ResolverFailure("Non-recoverable failure".to_string())))
    );
}

#[test]
fn an_answer_that_was_not_asked_for_changes_nothing() {
    let hint = build_hints(AddressFamily::IPv4);
    assert_eq!(Stage::Lookup(hint).advance(Reply::Released), Stage::Lookup(hint));
    assert_eq!(
        Stage::Lookup(hint).advance(Reply::Described("x".to_string())),
        Stage::Lookup(hint)
    );
    assert_eq!(
        Stage::Lookup(hint).advance(Reply::Rendered { status: 0, data: buffer(b"1.1.1.1"), last: true }),
        Stage::Lookup(hint)
    );
    assert_eq!(Stage::Render(vec![]).advance(Reply::Released), Stage::Render(vec![]));
    assert_eq!(
        Stage::Render(vec![]).advance(Reply::Lookup { status: 0, list: true }),
        Stage::Render(vec![])
    );
    assert_eq!(
        Stage::Release(Err(3)).advance(Reply::Described("x".to_string())),
        Stage::Release(Err(3))
    );
    assert_eq!(
        Stage::Release(Ok(vec![])).advance(Reply::Rendered { status: 0, data: buffer(b"1.1.1.1"), last: true }),
        Stage::Release(Ok(vec![]))
    );
    assert_eq!(Stage::Describe(3).advance(Reply::Released), Stage::Describe(3));
    assert_eq!(Stage::Done(Ok(vec![])).advance(Reply::Released), Stage::Done(Ok(vec![])));
    assert_eq!(
        Stage::Done(Err(ResolutionError::InvalidInput)).advance(Reply::Lookup { status: 0, list: true }),
        Stage::Done(Err(ResolutionError::InvalidInput))
    );
}

#[test]
fn test_dns_lookup() {
    let script = Script {
        status: 0,
        list: true,
        nodes: vec![(0, buffer(b"142.250.74.46")), (0, buffer(b"142.250.74.78"))],
        description: String::new(),
    };
    match drive(system_resolve_ipv4("google.com").unwrap(), &script).outcome {
        Ok(x) => {
            if x.len() == 0 {
                panic!("Found zero records for google.com");
            }
        }
        Err(e) => panic!("Error occured looking up google.com {:?}", e),
    };
}
