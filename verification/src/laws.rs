//! The delivery laws of the coordinator, proved over the transition model:
//! single delivery of the continuation under any interleaving, the
//! bounded-wait guarantee of the timer, the harmlessness of stale
//! callbacks, and the persistence of the optimistic candidate seed.

use vstd::prelude::*;
use crate::addr::{MappedAddr, SockAddr};
use crate::config::Ifv4;
use crate::model::{
    fire_count, run, seed_addrs, started_coord, step, step_igd, step_stun, step_terminate, term_of,
    CoordView, Event, TermView,
};

verus! {

/// An event addressed to a context no longer present in the registry — a
/// worker or child callback, a timer, or a termination that arrives after
/// the coordinator was torn down — changes no state and fires no
/// continuation.
pub proof fn lemma_stale_event_is_noop(m: Map<u64, CoordView>, context: u64, e: Event)
    requires
        !m.contains_key(context),
    ensures
        step(m, context, e).0 == m,
        step(m, context, e).1 is None,
{
}

/// An event addressed to one coordinator neither touches nor removes any
/// other: delivery is by identity.
pub proof fn lemma_step_frame(m: Map<u64, CoordView>, k: u64, e: Event, other: u64)
    requires
        other != k,
    ensures
        step(m, k, e).0.contains_key(other) == m.contains_key(other),
        m.contains_key(other) ==> step(m, k, e).0[other] == m[other],
{
}

/// A step that does not fire the continuation of a registered coordinator
/// leaves it registered: the only exit from the registry is the one that
/// hands the termination record out.
pub proof fn lemma_no_fire_keeps_registered(m: Map<u64, CoordView>, k: u64, e: Event, context: u64)
    requires
        m.contains_key(context),
        k == context ==> step(m, k, e).1 is None,
    ensures
        step(m, k, e).0.contains_key(context),
{
    if k != context {
        lemma_step_frame(m, k, e, context);
    }
}

/// A step that fires the continuation removes the coordinator from the
/// registry, and only an event addressed to a registered coordinator can
/// fire it.
pub proof fn lemma_fire_deregisters(m: Map<u64, CoordView>, k: u64, e: Event, context: u64)
    ensures
        k == context && step(m, k, e).1 is Some ==> m.contains_key(context) && !step(
            m,
            k,
            e,
        ).0.contains_key(context),
{
}

/// Once a coordinator is absent from the registry, no trace of further
/// events — whatever it holds and in whatever order — ever fires its
/// continuation or brings it back.
pub proof fn lemma_absent_never_fires(
    m: Map<u64, CoordView>,
    events: Seq<(u64, Event)>,
    context: u64,
)
    requires
        !m.contains_key(context),
    ensures
        fire_count(m, events, context) == 0,
        !run(m, events).contains_key(context),
    decreases events.len(),
{
    if events.len() > 0 {
        let r = step(m, events[0].0, events[0].1);
        if events[0].0 != context {
            lemma_step_frame(m, events[0].0, events[0].1, context);
        }
        lemma_absent_never_fires(r.0, events.drop_first(), context);
    }
}

/// Single delivery, the at-most-once half: over any trace of events — any
/// number of gateway and reflection results, successes or failures, timer
/// and termination events, in any interleaving — the continuation of any
/// one coordinator fires at most once.
pub proof fn lemma_fires_at_most_once(
    m: Map<u64, CoordView>,
    events: Seq<(u64, Event)>,
    context: u64,
)
    ensures
        fire_count(m, events, context) <= 1,
    decreases events.len(),
{
    if events.len() > 0 {
        let r = step(m, events[0].0, events[0].1);
        if events[0].0 == context && r.1 is Some {
            lemma_fire_deregisters(m, events[0].0, events[0].1, context);
            lemma_absent_never_fires(r.0, events.drop_first(), context);
        } else {
            lemma_fires_at_most_once(r.0, events.drop_first(), context);
        }
    }
}

/// Single delivery, exactly once: a trace that ends with the coordinator's
/// timer firing — which the timer facility guarantees — fires the
/// continuation of a registered coordinator exactly once, whatever events
/// for it and for others came before.
pub proof fn lemma_fires_exactly_once(
    m: Map<u64, CoordView>,
    events: Seq<(u64, Event)>,
    context: u64,
)
    requires
        m.contains_key(context),
    ensures
        fire_count(m, events.push((context, Event::Timeout)), context) == 1,
    decreases events.len(),
{
    let full = events.push((context, Event::Timeout));
    assert(fire_count(m, full, context) == (if full[0].0 == context && step(m, full[0].0, full[0].1).1 is Some {
        1nat
    } else {
        0nat
    }) + fire_count(step(m, full[0].0, full[0].1).0, full.drop_first(), context));
    if events.len() == 0 {
        assert(full[0] == (context, Event::Timeout));
        assert(full.drop_first() =~= Seq::<(u64, Event)>::empty());
        assert(step(m, context, Event::Timeout).1 is Some);
        assert(fire_count(step(m, full[0].0, full[0].1).0, full.drop_first(), context) == 0);
    } else {
        let r = step(m, events[0].0, events[0].1);
        assert(full[0] == events[0]);
        assert(full.drop_first() =~= events.drop_first().push((context, Event::Timeout)));
        if events[0].0 == context && r.1 is Some {
            lemma_fire_deregisters(m, events[0].0, events[0].1, context);
            lemma_absent_never_fires(r.0, full.drop_first(), context);
        } else {
            lemma_no_fire_keeps_registered(m, events[0].0, events[0].1, context);
            lemma_fires_exactly_once(r.0, events.drop_first(), context);
        }
    }
}

/// The bounded-wait guarantee: for a registered coordinator the timer event
/// terminates unconditionally, however many children are still
/// outstanding, and the termination record owes a stop signal to exactly
/// the reflection children that had not settled.
pub proof fn lemma_timer_bounds_the_wait(m: Map<u64, CoordView>, context: u64)
    requires
        m.contains_key(context),
    ensures
        step(m, context, Event::Timeout).0 == m.remove(context),
        step(m, context, Event::Timeout).1 == Some(term_of(m[context])),
        term_of(m[context]).stop_children == m[context].stun_children,
{
}

/// Termination on the settlement path happens at the first moment nothing
/// is left outstanding: a child's result fires the continuation exactly
/// when it settles the last outstanding child, and not before.
pub proof fn lemma_fires_exactly_when_settled(
    m: Map<u64, CoordView>,
    context: u64,
    ext_addr: SockAddr,
    child: u64,
    res: Result<SockAddr, ()>,
)
    requires
        m.contains_key(context),
    ensures
        step_stun(m, context, child, res).1 is Some <==> m[context].igd_children == 0
            && m[context].stun_children.remove_value(child).len() == 0,
        m[context].igd_children > 0 ==> (step_igd(m, context, ext_addr).1 is Some
            <==> m[context].igd_children == 1 && m[context].stun_children.len() == 0),
{
}

/// A child's identity is out of the outstanding set at the point its
/// result is processed: processing the settlement removes it, so no later
/// event can settle it again.
pub proof fn lemma_settled_child_leaves_outstanding(
    m: Map<u64, CoordView>,
    context: u64,
    child: u64,
    res: Result<SockAddr, ()>,
)
    requires
        m.contains_key(context),
        m[context].stun_children.no_duplicates(),
    ensures
        step_stun(m, context, child, res).0.contains_key(context)
            ==> !step_stun(m, context, child, res).0[context].stun_children.contains(child),
{
    let s = m[context].stun_children;
    s.index_of_first_ensures(child);
    if let Some(i) = s.index_of_first(child) {
        s.remove_ensures(i);
        let r = s.remove(i);
        assert forall|j: int| 0 <= j < r.len() implies r[j] != child by {
            if j < i {
            } else {
                assert(r[j] == s[j + 1]);
            }
        }
    }
}

/// A delivered event never increases what is outstanding: each child
/// settles at most once and nothing is ever re-armed.
pub proof fn lemma_outstanding_monotone(m: Map<u64, CoordView>, k: u64, e: Event, context: u64)
    requires
        m.contains_key(context),
        step(m, k, e).0.contains_key(context),
    ensures
        step(m, k, e).0[context].outstanding() <= m[context].outstanding(),
{
    if k != context {
        lemma_step_frame(m, k, e, context);
    } else {
        if let Event::Reflection { child, res } = e {
            m[context].stun_children.index_of_first_ensures(child);
        }
    }
}

/// The candidate list always carries the optimistic seed: one non-reflected
/// entry per configured local interface, in configuration order, as its
/// prefix.
pub open spec fn optimistically_seeded(c: CoordView, ifv4s: Seq<Ifv4>, port: u16) -> bool {
    &&& c.mapped_addrs.len() >= ifv4s.len()
    &&& c.mapped_addrs.take(ifv4s.len() as int) == seed_addrs(ifv4s, port)
}

/// The same, of a termination record: whatever settled or failed, the
/// continuation receives at least the optimistic entries.
pub open spec fn term_optimistically_seeded(t: TermView, ifv4s: Seq<Ifv4>, port: u16) -> bool {
    &&& t.mapped_addrs.len() >= ifv4s.len()
    &&& t.mapped_addrs.take(ifv4s.len() as int) == seed_addrs(ifv4s, port)
}

/// A coordinator starts optimistically seeded, whether or not any external
/// confirmation ever arrives.
pub proof fn lemma_started_coord_seeded(
    token: u64,
    context: u64,
    socket: u64,
    port: u16,
    ifv4s: Seq<Ifv4>,
    child_ids: Seq<u64>,
)
    ensures
        optimistically_seeded(started_coord(token, context, socket, port, ifv4s, child_ids), ifv4s, port),
{
    assert(seed_addrs(ifv4s, port).take(ifv4s.len() as int) =~= seed_addrs(ifv4s, port));
}

/// The optimistic seed persists: every event leaves it the prefix of the
/// candidate list — handlers only append — and a terminating event hands
/// it to the continuation inside the termination record.
pub proof fn lemma_seed_preserved(
    m: Map<u64, CoordView>,
    k: u64,
    e: Event,
    context: u64,
    ifv4s: Seq<Ifv4>,
    port: u16,
)
    requires
        m.contains_key(context) ==> optimistically_seeded(m[context], ifv4s, port),
    ensures
        step(m, k, e).0.contains_key(context) ==> optimistically_seeded(
            step(m, k, e).0[context],
            ifv4s,
            port,
        ),
        k == context && step(m, k, e).1 is Some ==> term_optimistically_seeded(
            step(m, k, e).1.unwrap(),
            ifv4s,
            port,
        ),
{
    if k != context {
        lemma_step_frame(m, k, e, context);
    } else if m.contains_key(context) {
        let c = m[context];
        assert forall|x: MappedAddr| c.mapped_addrs.len() >= ifv4s.len() implies c.mapped_addrs.push(
            x,
        ).take(ifv4s.len() as int) =~= c.mapped_addrs.take(ifv4s.len() as int) by {}
    }
}

/// The seed persists over any whole trace of events, ending registered or
/// not.
pub proof fn lemma_seed_preserved_run(
    m: Map<u64, CoordView>,
    events: Seq<(u64, Event)>,
    context: u64,
    ifv4s: Seq<Ifv4>,
    port: u16,
)
    requires
        m.contains_key(context) ==> optimistically_seeded(m[context], ifv4s, port),
    ensures
        run(m, events).contains_key(context) ==> optimistically_seeded(
            run(m, events)[context],
            ifv4s,
            port,
        ),
    decreases events.len(),
{
    if events.len() > 0 {
        lemma_seed_preserved(m, events[0].0, events[0].1, context, ifv4s, port);
        lemma_seed_preserved_run(
            step(m, events[0].0, events[0].1).0,
            events.drop_first(),
            context,
            ifv4s,
            port,
        );
    }
}

} // verus!
