use mapped_tcp_socket::addr::{MappedAddr, SockAddr};
use mapped_tcp_socket::config::{Ifv4, MappingContext, NatError};
use mapped_tcp_socket::coordinator::{MappingTcpSocket, Registry};

fn ctx_of(res: Result<u64, NatError>) -> u64 {
    match res {
        Ok(context) => context,
        Err(e) => panic!("start failed: {:?}", e),
    }
}

#[test]
fn two_interfaces_one_reflection_success() {
    // Scenario: 2 interfaces, no gateways, 1 reflection peer that succeeds
    // with address E: the final list is [local1(false), local2(false),
    // E(true)] and the continuation fires once the single outstanding
    // reflection settles.
    let mut reg = Registry::new();
    let mc = MappingContext::new(
        vec![
            Ifv4 { ip: 0xC0A80101, has_gateway: false },
            Ifv4 { ip: 0xC0A80202, has_gateway: false },
        ],
        vec![SockAddr { ip: 0x08080808, port: 3478 }],
    );
    assert!(reg.can_allocate());
    let child_ids = vec![7u64];
    let res = MappingTcpSocket::start(&mut reg, &mc, Some((99, 4000)), true, &child_ids);
    let context = ctx_of(res);
    assert_eq!(reg.outstanding(context), Some(1));
    assert!(reg.contains(context));

    let e = SockAddr { ip: 0x01020304, port: 45000 };
    let term = MappingTcpSocket::handle_stun_resp(&mut reg, context, 7, Ok(e));
    let term = term.expect("last settlement must fire the continuation");
    assert_eq!(term.socket, 99);
    assert_eq!(
        term.mapped_addrs,
        vec![
            MappedAddr { addr: SockAddr { ip: 0xC0A80101, port: 4000 }, via_reflection: false },
            MappedAddr { addr: SockAddr { ip: 0xC0A80202, port: 4000 }, via_reflection: false },
            MappedAddr { addr: e, via_reflection: true },
        ]
    );
    assert_eq!(term.stop_children, Vec::<u64>::new());
    assert!(!reg.contains(context));

    // The continuation cannot fire again: the coordinator is gone.
    assert!(MappingTcpSocket::timeout(&mut reg, context).is_none());
}

#[test]
fn failing_gateway_terminates_only_via_timer() {
    // Scenario: 1 interface with a gateway that fails its mapping request,
    // 0 reflection peers: the worker reports nothing, so outstanding never
    // reaches zero by settlement; only the timer terminates, and the final
    // list holds the optimistic entry alone.
    let mut reg = Registry::new();
    let mc = MappingContext::new(vec![Ifv4 { ip: 0x0A000001, has_gateway: true }], vec![]);
    let res = MappingTcpSocket::start(&mut reg, &mc, Some((5, 1234)), true, &vec![]);
    let context = ctx_of(res);
    assert_eq!(reg.outstanding(context), Some(1));

    // The failed gateway worker delivers nothing; the timer fires.
    let term = MappingTcpSocket::timeout(&mut reg, context)
        .expect("the timer must terminate a registered coordinator");
    assert_eq!(term.socket, 5);
    assert_eq!(
        term.mapped_addrs,
        vec![MappedAddr { addr: SockAddr { ip: 0x0A000001, port: 1234 }, via_reflection: false }]
    );
    assert_eq!(term.stop_children, Vec::<u64>::new());
    assert!(!reg.contains(context));
}

#[test]
fn nothing_configured_waits_for_timer() {
    // Scenario: 0 interfaces, 0 reflection peers: outstanding is zero at
    // the end of start; termination is not immediate but deterministic via
    // the timer, which hands back the socket and an empty candidate list.
    let mut reg = Registry::new();
    let mc = MappingContext::new(vec![], vec![]);
    let res = MappingTcpSocket::start(&mut reg, &mc, Some((42, 7000)), true, &vec![]);
    let context = ctx_of(res);
    assert_eq!(reg.outstanding(context), Some(0));
    assert!(reg.contains(context));

    let term = MappingTcpSocket::timeout(&mut reg, context).expect("timer terminates");
    assert_eq!(term.socket, 42);
    assert_eq!(term.mapped_addrs, Vec::<MappedAddr>::new());
    assert!(!reg.contains(context));
}

#[test]
fn continuation_fires_once_under_interleaving() {
    // 2 gateway workers and 2 reflection children, settling in mixed order
    // with mixed outcomes: the continuation fires exactly once, at the
    // last settlement.
    let mut reg = Registry::new();
    let mc = MappingContext::new(
        vec![
            Ifv4 { ip: 0x0A000001, has_gateway: true },
            Ifv4 { ip: 0x0A000002, has_gateway: true },
        ],
        vec![
            SockAddr { ip: 0x08080808, port: 3478 },
            SockAddr { ip: 0x08080404, port: 3478 },
        ],
    );
    let res = MappingTcpSocket::start(&mut reg, &mc, Some((1, 2000)), true, &vec![10, 11]);
    let context = ctx_of(res);
    assert_eq!(reg.outstanding(context), Some(4));

    let g1 = SockAddr { ip: 0x51000001, port: 2000 };
    let g2 = SockAddr { ip: 0x51000002, port: 2001 };
    let r1 = SockAddr { ip: 0x52000001, port: 2002 };

    let mut fires: u32 = 0;
    if MappingTcpSocket::handle_stun_resp(&mut reg, context, 11, Err(())).is_some() {
        fires += 1;
    }
    if MappingTcpSocket::handle_igd_resp(&mut reg, context, g1).is_some() {
        fires += 1;
    }
    if MappingTcpSocket::handle_stun_resp(&mut reg, context, 10, Ok(r1)).is_some() {
        fires += 1;
    }
    assert_eq!(fires, 0);
    assert_eq!(reg.outstanding(context), Some(1));

    let term = MappingTcpSocket::handle_igd_resp(&mut reg, context, g2)
        .expect("last settlement fires the continuation");
    fires += 1;
    assert_eq!(fires, 1);
    assert_eq!(
        term.mapped_addrs,
        vec![
            MappedAddr { addr: SockAddr { ip: 0x0A000001, port: 2000 }, via_reflection: false },
            MappedAddr { addr: SockAddr { ip: 0x0A000002, port: 2000 }, via_reflection: false },
            MappedAddr { addr: g1, via_reflection: false },
            MappedAddr { addr: r1, via_reflection: true },
            MappedAddr { addr: g2, via_reflection: false },
        ]
    );

    // Anything arriving later finds no coordinator and changes nothing.
    assert!(MappingTcpSocket::handle_igd_resp(&mut reg, context, g1).is_none());
    assert!(MappingTcpSocket::handle_stun_resp(&mut reg, context, 10, Ok(r1)).is_none());
    assert!(MappingTcpSocket::timeout(&mut reg, context).is_none());
    assert!(MappingTcpSocket::terminate(&mut reg, context).is_none());
}

#[test]
fn timer_with_outstanding_children_stops_them() {
    // The timer fires while a gateway worker and one reflection child are
    // still outstanding: termination still happens exactly once and owes
    // the remaining reflection child a stop signal.
    let mut reg = Registry::new();
    let mc = MappingContext::new(
        vec![Ifv4 { ip: 0x0A000001, has_gateway: true }],
        vec![
            SockAddr { ip: 0x08080808, port: 3478 },
            SockAddr { ip: 0x08080404, port: 3478 },
        ],
    );
    let res = MappingTcpSocket::start(&mut reg, &mc, Some((8, 9000)), true, &vec![20, 21]);
    let context = ctx_of(res);
    assert_eq!(reg.outstanding(context), Some(3));

    let r = SockAddr { ip: 0x52000001, port: 9100 };
    assert!(MappingTcpSocket::handle_stun_resp(&mut reg, context, 20, Ok(r)).is_none());
    assert_eq!(reg.outstanding(context), Some(2));

    let term = MappingTcpSocket::timeout(&mut reg, context).expect("timer terminates");
    assert_eq!(term.stop_children, vec![21]);
    assert_eq!(
        term.mapped_addrs,
        vec![
            MappedAddr { addr: SockAddr { ip: 0x0A000001, port: 9000 }, via_reflection: false },
            MappedAddr { addr: r, via_reflection: true },
        ]
    );
    assert!(MappingTcpSocket::timeout(&mut reg, context).is_none());
}

#[test]
fn stale_callbacks_mutate_nothing() {
    // Callbacks for a context not (or no longer) present in the registry
    // cause no state mutation and no duplicate continuation invocation.
    let mut reg = Registry::new();
    let addr = SockAddr { ip: 1, port: 2 };
    assert!(MappingTcpSocket::handle_igd_resp(&mut reg, 123, addr).is_none());
    assert!(MappingTcpSocket::handle_stun_resp(&mut reg, 123, 4, Ok(addr)).is_none());
    assert!(MappingTcpSocket::timeout(&mut reg, 123).is_none());
    assert!(MappingTcpSocket::terminate(&mut reg, 123).is_none());
    assert!(!reg.contains(123));

    // A live coordinator elsewhere in the registry is untouched by them.
    let mc = MappingContext::new(vec![], vec![SockAddr { ip: 9, port: 9 }]);
    let res = MappingTcpSocket::start(&mut reg, &mc, Some((3, 100)), true, &vec![5]);
    let context = ctx_of(res);
    assert!(MappingTcpSocket::handle_igd_resp(&mut reg, context + 100, addr).is_none());
    assert_eq!(reg.outstanding(context), Some(1));
}

#[test]
fn stale_gateway_result_beyond_count_is_dropped() {
    // A gateway result for a coordinator that counts no outstanding
    // gateway worker is stale: it neither joins the candidates nor
    // terminates anything.
    let mut reg = Registry::new();
    let mc = MappingContext::new(vec![Ifv4 { ip: 7, has_gateway: false }], vec![]);
    let res = MappingTcpSocket::start(&mut reg, &mc, Some((6, 500)), true, &vec![30]);
    let context = ctx_of(res);
    assert_eq!(reg.outstanding(context), Some(1));

    let bogus = SockAddr { ip: 0x7F000001, port: 1 };
    assert!(MappingTcpSocket::handle_igd_resp(&mut reg, context, bogus).is_none());
    assert_eq!(reg.outstanding(context), Some(1));

    let term = MappingTcpSocket::handle_stun_resp(&mut reg, context, 30, Err(()))
        .expect("last settlement fires the continuation");
    assert_eq!(
        term.mapped_addrs,
        vec![MappedAddr { addr: SockAddr { ip: 7, port: 500 }, via_reflection: false }]
    );
}

#[test]
fn optimistic_seed_survives_every_failure() {
    // One optimistic, non-reflected entry per configured interface is in
    // the final list even when every external discovery attempt fails.
    let mut reg = Registry::new();
    let mc = MappingContext::new(
        vec![
            Ifv4 { ip: 0x0A000001, has_gateway: true },
            Ifv4 { ip: 0x0A000002, has_gateway: false },
            Ifv4 { ip: 0x0A000003, has_gateway: true },
        ],
        vec![SockAddr { ip: 0x08080808, port: 3478 }],
    );
    let res = MappingTcpSocket::start(&mut reg, &mc, Some((2, 6000)), true, &vec![40]);
    let context = ctx_of(res);
    assert_eq!(reg.outstanding(context), Some(3));

    assert!(MappingTcpSocket::handle_stun_resp(&mut reg, context, 40, Err(())).is_none());
    let term = MappingTcpSocket::timeout(&mut reg, context).expect("timer terminates");
    assert_eq!(
        term.mapped_addrs,
        vec![
            MappedAddr { addr: SockAddr { ip: 0x0A000001, port: 6000 }, via_reflection: false },
            MappedAddr { addr: SockAddr { ip: 0x0A000002, port: 6000 }, via_reflection: false },
            MappedAddr { addr: SockAddr { ip: 0x0A000003, port: 6000 }, via_reflection: false },
        ]
    );
}

#[test]
fn setup_failures_abort_before_any_child() {
    let mut reg = Registry::new();
    let mc = MappingContext::new(vec![Ifv4 { ip: 1, has_gateway: true }], vec![]);

    let res = MappingTcpSocket::start(&mut reg, &mc, None, true, &vec![]);
    assert_eq!(res, Err(NatError::SocketBind));

    let res = MappingTcpSocket::start(&mut reg, &mc, Some((1, 80)), false, &vec![]);
    assert_eq!(res, Err(NatError::TimerRegister));

    // Nothing was registered on either failure.
    assert!(MappingTcpSocket::timeout(&mut reg, 0).is_none());
    assert!(MappingTcpSocket::timeout(&mut reg, 1).is_none());
}

#[test]
fn duplicate_child_identities_collapse() {
    let mut reg = Registry::new();
    let mc = MappingContext::new(vec![], vec![SockAddr { ip: 9, port: 9 }]);
    let res = MappingTcpSocket::start(&mut reg, &mc, Some((4, 300)), true, &vec![50, 50]);
    let context = ctx_of(res);
    assert_eq!(reg.outstanding(context), Some(1));

    let term = MappingTcpSocket::handle_stun_resp(&mut reg, context, 50, Err(()))
        .expect("the only child settled");
    assert_eq!(term.mapped_addrs, Vec::<MappedAddr>::new());
    assert_eq!(term.socket, 4);
}

#[test]
fn coordinators_are_independent() {
    // Two coordinators live in one registry; each terminates on its own
    // events only.
    let mut reg = Registry::new();
    let mc1 = MappingContext::new(vec![], vec![SockAddr { ip: 9, port: 9 }]);
    let mc2 = MappingContext::new(vec![Ifv4 { ip: 5, has_gateway: false }], vec![]);
    let c1 = ctx_of(MappingTcpSocket::start(&mut reg, &mc1, Some((1, 10)), true, &vec![60]));
    let c2 = ctx_of(MappingTcpSocket::start(&mut reg, &mc2, Some((2, 20)), true, &vec![]));
    assert_ne!(c1, c2);

    let term = MappingTcpSocket::handle_stun_resp(&mut reg, c1, 60, Err(()))
        .expect("first coordinator settles");
    assert_eq!(term.socket, 1);
    assert!(!reg.contains(c1));
    assert!(reg.contains(c2));
    assert_eq!(reg.outstanding(c2), Some(0));

    let term = MappingTcpSocket::timeout(&mut reg, c2).expect("second terminates via timer");
    assert_eq!(term.socket, 2);
    assert_eq!(
        term.mapped_addrs,
        vec![MappedAddr { addr: SockAddr { ip: 5, port: 20 }, via_reflection: false }]
    );
}

#[test]
fn mapped_addr_constructors() {
    let a = SockAddr::new(0x7F000001, 8080);
    assert_eq!(a.ip, 0x7F000001);
    assert_eq!(a.port, 8080);
    let m = MappedAddr::new(a, true);
    assert_eq!(m.addr, a);
    assert!(m.via_reflection);
}
