//! The mathematical model of the coordinator: views of the live state, the
//! transition taken for each delivered event, and the folds over event
//! traces that the delivery laws are stated on.

use vstd::prelude::*;
use crate::addr::{MappedAddr, SockAddr};
use crate::config::Ifv4;

verus! {

/// The abstract state of one live coordinator: its identity, the socket
/// handle it owns until handoff, the outstanding-children accounting and the
/// accumulated candidate list.
pub ghost struct CoordView {
    pub token: u64,
    pub context: u64,
    pub socket: Option<u64>,
    pub igd_children: nat,
    pub stun_children: Seq<u64>,
    pub mapped_addrs: Seq<MappedAddr>,
}

impl CoordView {
    /// Validity of a registered coordinator: it still owns the socket, its
    /// reflection children are pairwise distinct, and its outstanding count
    /// fits the machine.
    pub open spec fn wf(self) -> bool {
        &&& self.socket is Some
        &&& self.stun_children.no_duplicates()
        &&& self.igd_children + self.stun_children.len() <= usize::MAX
    }

    /// How many children have not yet settled.
    pub open spec fn outstanding(self) -> nat {
        self.igd_children + self.stun_children.len()
    }

    /// All children have settled.
    pub open spec fn settled(self) -> bool {
        self.outstanding() == 0
    }
}

/// What termination hands back to the embedding program: the timer token to
/// cancel, the socket, the final candidate list for the continuation, and
/// the reflection children still outstanding, each owed a best-effort stop
/// signal.
pub ghost struct TermView {
    pub token: u64,
    pub socket: u64,
    pub mapped_addrs: Seq<MappedAddr>,
    pub stop_children: Seq<u64>,
}

/// The termination record of a coordinator in state `c`.
pub open spec fn term_of(c: CoordView) -> TermView {
    TermView {
        token: c.token,
        socket: c.socket.unwrap(),
        mapped_addrs: c.mapped_addrs,
        stop_children: c.stun_children,
    }
}

/// A candidate entry as appended by the handlers.
pub open spec fn mapped(addr: SockAddr, via_reflection: bool) -> MappedAddr {
    MappedAddr { addr, via_reflection }
}

/// One event addressed to a coordinator, as delivered by the embedding
/// program: a gateway worker's successful mapping, a reflection child's
/// settlement, the timer firing, or an explicit external termination.
pub ghost enum Event {
    Gateway { ext_addr: SockAddr },
    Reflection { child: u64, res: Result<SockAddr, ()> },
    Timeout,
    Terminate,
}

/// The transition for a gateway worker's result: resolved against the
/// registry first, so an event for an absent (already terminated)
/// coordinator changes nothing. A result beyond the workers still counted
/// outstanding is stale and changes nothing either. Otherwise one worker is
/// accounted settled, the reported address joins the candidates as a
/// non-reflected entry, and the coordinator terminates exactly when nothing
/// is left outstanding.
pub open spec fn step_igd(m: Map<u64, CoordView>, context: u64, ext_addr: SockAddr) -> (
    Map<u64, CoordView>,
    Option<TermView>,
) {
    if !m.contains_key(context) {
        (m, None)
    } else {
        let c = m[context];
        if c.igd_children == 0 {
            (m, None)
        } else {
            let c2 = CoordView {
                igd_children: (c.igd_children - 1) as nat,
                mapped_addrs: c.mapped_addrs.push(mapped(ext_addr, false)),
                ..c
            };
            if c2.settled() {
                (m.remove(context), Some(term_of(c2)))
            } else {
                (m.insert(context, c2), None)
            }
        }
    }
}

/// The transition for a reflection child's settlement: resolved against the
/// registry first, so an event for an absent coordinator changes nothing.
/// The child leaves the outstanding set at the point its result is
/// processed; a successful result joins the candidates as a reflected
/// entry, a failed one contributes nothing; the coordinator terminates
/// exactly when nothing is left outstanding.
pub open spec fn step_stun(
    m: Map<u64, CoordView>,
    context: u64,
    child: u64,
    res: Result<SockAddr, ()>,
) -> (Map<u64, CoordView>, Option<TermView>) {
    if !m.contains_key(context) {
        (m, None)
    } else {
        let c = m[context];
        let c2 = CoordView {
            stun_children: c.stun_children.remove_value(child),
            mapped_addrs: if res is Ok {
                c.mapped_addrs.push(mapped(res->Ok_0, true))
            } else {
                c.mapped_addrs
            },
            ..c
        };
        if c2.settled() {
            (m.remove(context), Some(term_of(c2)))
        } else {
            (m.insert(context, c2), None)
        }
    }
}

/// The transition for the timer firing or an explicit termination:
/// unconditional for a registered coordinator, whatever is still
/// outstanding; nothing for an absent one.
pub open spec fn step_terminate(m: Map<u64, CoordView>, context: u64) -> (
    Map<u64, CoordView>,
    Option<TermView>,
) {
    if !m.contains_key(context) {
        (m, None)
    } else {
        (m.remove(context), Some(term_of(m[context])))
    }
}

/// The transition for any one delivered event.
pub open spec fn step(m: Map<u64, CoordView>, context: u64, e: Event) -> (
    Map<u64, CoordView>,
    Option<TermView>,
) {
    match e {
        Event::Gateway { ext_addr } => step_igd(m, context, ext_addr),
        Event::Reflection { child, res } => step_stun(m, context, child, res),
        Event::Timeout => step_terminate(m, context),
        Event::Terminate => step_terminate(m, context),
    }
}

/// The optimistic candidate seed: one non-reflected entry per configured
/// local interface, carrying the interface address and the resolved bound
/// port, included whether or not any external confirmation ever arrives.
pub open spec fn seed_addrs(ifv4s: Seq<Ifv4>, port: u16) -> Seq<MappedAddr> {
    ifv4s.map(|i: int, f: Ifv4| mapped(SockAddr { ip: f.ip, port }, false))
}

/// How many configured interfaces carry a gateway: one gateway mapping
/// worker is spawned, and counted outstanding, for each.
pub open spec fn gateway_count(ifv4s: Seq<Ifv4>) -> nat
    decreases ifv4s.len(),
{
    if ifv4s.len() == 0 {
        0
    } else {
        gateway_count(ifv4s.drop_last()) + if ifv4s.last().has_gateway {
            1nat
        } else {
            0nat
        }
    }
}

/// The identities of the started reflection children, first occurrences
/// kept in order: inserting into the outstanding set collapses duplicates.
pub open spec fn dedup_ids(ids: Seq<u64>) -> Seq<u64>
    decreases ids.len(),
{
    if ids.len() == 0 {
        Seq::empty()
    } else {
        let d = dedup_ids(ids.drop_last());
        if d.contains(ids.last()) {
            d
        } else {
            d.push(ids.last())
        }
    }
}

/// The state a coordinator starts in: it owns the bound socket, counts one
/// gateway worker per interface with a gateway, holds the started
/// reflection children outstanding, and is seeded with the optimistic
/// candidates.
pub open spec fn started_coord(
    token: u64,
    context: u64,
    socket: u64,
    port: u16,
    ifv4s: Seq<Ifv4>,
    child_ids: Seq<u64>,
) -> CoordView {
    CoordView {
        token,
        context,
        socket: Some(socket),
        igd_children: gateway_count(ifv4s),
        stun_children: dedup_ids(child_ids),
        mapped_addrs: seed_addrs(ifv4s, port),
    }
}

/// No interface counts more than one gateway worker.
pub proof fn lemma_gateway_count_bound(ifv4s: Seq<Ifv4>)
    ensures
        gateway_count(ifv4s) <= ifv4s.len(),
    decreases ifv4s.len(),
{
    if ifv4s.len() > 0 {
        lemma_gateway_count_bound(ifv4s.drop_last());
    }
}

/// The outstanding set of reflection children holds each identity at most
/// once, and no more identities than were handed in.
pub proof fn lemma_dedup_ids_ensures(ids: Seq<u64>)
    ensures
        dedup_ids(ids).no_duplicates(),
        dedup_ids(ids).len() <= ids.len(),
        forall|x: u64| dedup_ids(ids).contains(x) <==> ids.contains(x),
    decreases ids.len(),
{
    if ids.len() > 0 {
        lemma_dedup_ids_ensures(ids.drop_last());
        let d = dedup_ids(ids.drop_last());
        assert forall|x: u64| ids.contains(x) implies dedup_ids(ids).contains(x) by {
            let i = choose|i: int| 0 <= i < ids.len() && ids[i] == x;
            if i < ids.len() - 1 {
                assert(ids.drop_last()[i] == x);
                assert(ids.drop_last().contains(x));
                let j = choose|j: int| 0 <= j < d.len() && d[j] == x;
                assert(dedup_ids(ids)[j] == x);
            } else {
                if d.contains(ids.last()) {
                } else {
                    assert(dedup_ids(ids).last() == x);
                }
            }
        }
        assert forall|x: u64| dedup_ids(ids).contains(x) implies ids.contains(x) by {
            if d.contains(x) {
                assert(ids.drop_last().contains(x));
                let i = choose|i: int| 0 <= i < ids.drop_last().len() && ids.drop_last()[i] == x;
                assert(ids[i] == x);
            } else {
                let j = choose|j: int| 0 <= j < dedup_ids(ids).len() && dedup_ids(ids)[j] == x;
                if j < d.len() {
                } else {
                    assert(x == ids.last());
                }
            }
        }
    }
}

/// The registry after a whole trace of delivered events, each addressed to
/// some coordinator.
pub open spec fn run(m: Map<u64, CoordView>, events: Seq<(u64, Event)>) -> Map<u64, CoordView>
    decreases events.len(),
{
    if events.len() == 0 {
        m
    } else {
        run(step(m, events[0].0, events[0].1).0, events.drop_first())
    }
}

/// How many events of a trace fire the continuation of the coordinator at
/// `context`: those whose step yields a termination record for it.
pub open spec fn fire_count(m: Map<u64, CoordView>, events: Seq<(u64, Event)>, context: u64) -> nat
    decreases events.len(),
{
    if events.len() == 0 {
        0
    } else {
        let fired: nat = if events[0].0 == context && step(m, events[0].0, events[0].1).1 is Some {
            1
        } else {
            0
        };
        fired + fire_count(step(m, events[0].0, events[0].1).0, events.drop_first(), context)
    }
}

} // verus!
