//! The live coordinator state machine and the registry it is reachable
//! through.
//!
//! Every event from the outside — a gateway worker's result, a reflection
//! child's settlement, the timer, an explicit termination — is delivered by
//! context and resolved against the registry first: an event for a context
//! no longer present changes nothing, which is what makes a late callback
//! for an already terminated coordinator harmless. Each handler's effect is
//! exactly the corresponding transition of [`crate::model`].

use vstd::prelude::*;
use std::collections::HashMap;
use crate::addr::{MappedAddr, SockAddr};
use crate::config::{MappingContext, NatError};
use crate::model::{
    dedup_ids, gateway_count, mapped, seed_addrs, started_coord, step_igd, step_stun,
    step_terminate, term_of, CoordView, TermView,
};
use crate::model::lemma_dedup_ids_ensures;
use crate::model::lemma_gateway_count_bound;

verus! {

broadcast use vstd::std_specs::hash::group_hash_axioms;

/// What a terminating coordinator hands back for the embedding program to
/// act on: cancel the timer registered under `token`, issue a best-effort
/// stop signal to each identity in `stop_children`, and invoke the caller's
/// continuation exactly once with the socket and the candidate list.
pub struct Terminated {
    pub token: u64,
    pub socket: u64,
    pub mapped_addrs: Vec<MappedAddr>,
    pub stop_children: Vec<u64>,
}

impl View for Terminated {
    type V = TermView;

    open spec fn view(&self) -> TermView {
        TermView {
            token: self.token,
            socket: self.socket,
            mapped_addrs: self.mapped_addrs@,
            stop_children: self.stop_children@,
        }
    }
}

/// The in-progress mapping of one TCP socket: its identity, the socket it
/// owns until handoff, the outstanding gateway-worker count, the
/// outstanding reflection-child identities, and the accumulated candidates.
pub struct MappingTcpSocket {
    token: u64,
    context: u64,
    socket: Option<u64>,
    igd_children: usize,
    stun_children: Vec<u64>,
    mapped_addrs: Vec<MappedAddr>,
}

impl View for MappingTcpSocket {
    type V = CoordView;

    closed spec fn view(&self) -> CoordView {
        CoordView {
            token: self.token,
            context: self.context,
            socket: self.socket,
            igd_children: self.igd_children as nat,
            stun_children: self.stun_children@,
            mapped_addrs: self.mapped_addrs@,
        }
    }
}

/// The registry of live coordinators, keyed by context, together with the
/// identity allocator. A coordinator is reachable here exactly while it is
/// active: termination removes it, so any later event addressed to it finds
/// nothing and changes nothing.
pub struct Registry {
    states: HashMap<u64, MappingTcpSocket>,
    next_id: u64,
}

impl View for Registry {
    type V = Map<u64, CoordView>;

    closed spec fn view(&self) -> Map<u64, CoordView> {
        Map::new(
            |k: u64| self.states@.contains_key(k),
            |k: u64| self.states@[k]@,
        )
    }
}

impl Registry {
    /// Every registered coordinator is valid, and registered under an
    /// identity the allocator has already moved past.
    pub closed spec fn wf(&self) -> bool {
        &&& forall|k: u64| self@.contains_key(k) ==> (#[trigger] self@[k]).wf()
        &&& forall|k: u64| self@.contains_key(k) ==> k < self.next_id
    }

    /// The allocator can still hand out the token and context a new
    /// coordinator needs.
    pub closed spec fn can_alloc(&self) -> bool {
        self.next_id <= u64::MAX - 2
    }

    pub fn new() -> (r: Registry)
        ensures
            r@ == Map::<u64, CoordView>::empty(),
            r.wf(),
            r.can_alloc(),
    {
        let r = Registry { states: HashMap::new(), next_id: 0 };
        proof {
            assert(r@ =~= Map::<u64, CoordView>::empty());
        }
        r
    }

    /// Whether a fresh identity pair is still available; `start` requires
    /// this, so callers test it first.
    pub fn can_allocate(&self) -> (r: bool)
        ensures
            r == self.can_alloc(),
    {
        self.next_id <= u64::MAX - 2
    }

    /// Whether the coordinator at `context` is still registered, that is,
    /// still active.
    pub fn contains(&self, context: u64) -> (r: bool)
        ensures
            r == self@.contains_key(context),
    {
        self.states.contains_key(&context)
    }

    /// How many children of the coordinator at `context` have not yet
    /// settled, or nothing if no such coordinator is registered.
    pub fn outstanding(&self, context: u64) -> (r: Option<usize>)
        requires
            self.wf(),
        ensures
            match r {
                Some(n) => self@.contains_key(context) && n == self@[context].outstanding(),
                None => !self@.contains_key(context),
            },
    {
        match self.states.get(&context) {
            Some(state) => {
                proof {
                    assert(self@.contains_key(context) && self@[context] == state@);
                }
                Some(state.igd_children + state.stun_children.len())
            },
            None => None,
        }
    }
}

/// Appends `id` to the outstanding set unless it is already there.
fn insert_child(children: &mut Vec<u64>, id: u64)
    ensures
        final(children)@ == if old(children)@.contains(id) {
            old(children)@
        } else {
            old(children)@.push(id)
        },
{
    let n = children.len();
    let mut i: usize = 0;
    while i < n
        invariant
            n == children.len(),
            0 <= i <= n,
            forall|j: int| 0 <= j < i ==> children@[j] != id,
        decreases n - i,
    {
        if children[i] == id {
            return ;
        }
        i += 1;
    }
    children.push(id);
}

/// Removes the first occurrence of `id` from the outstanding set, if any.
fn remove_child(children: &mut Vec<u64>, id: u64)
    ensures
        final(children)@ == old(children)@.remove_value(id),
{
    let n = children.len();
    let mut i: usize = 0;
    while i < n
        invariant
            n == children.len(),
            children@ == old(children)@,
            0 <= i <= n,
            forall|j: int| 0 <= j < i ==> children@[j] != id,
        decreases n - i,
    {
        if children[i] == id {
            proof {
                old(children)@.index_of_first_ensures(id);
            }
            children.remove(i);
            return ;
        }
        i += 1;
    }
    proof {
        old(children)@.index_of_first_ensures(id);
    }
}

/// Takes a coordinator that has left the registry apart into its
/// termination record.
fn into_terminated(state: MappingTcpSocket) -> (t: Terminated)
    requires
        state@.wf(),
    ensures
        t@ == term_of(state@),
{
    let MappingTcpSocket { token, context: _, socket, igd_children: _, stun_children, mapped_addrs } =
        state;
    let socket = socket.unwrap();
    Terminated { token, socket, mapped_addrs, stop_children: stun_children }
}

impl MappingTcpSocket {
    /// Starts mapping a TCP socket.
    ///
    /// The embedding program performs the fallible setup first — reuse-bind
    /// a local wildcard socket and resolve its port (`bind`), and acquire
    /// the one-shot timer (`timer_ok`) — then attempts, per configured
    /// peer, to connect a second reuse-bound socket and start a reflection
    /// child on it, handing in the identities of the children that started
    /// (`child_ids`); a peer whose connect or start failed is silently
    /// skipped and simply absent from `child_ids`.
    ///
    /// A setup failure aborts with the typed error before any child is
    /// tracked and leaves the registry untouched. Otherwise the coordinator
    /// is registered under a fresh context, seeded with one optimistic
    /// non-reflected candidate per configured interface, and counting one
    /// gateway worker per interface that carries a gateway; the context is
    /// returned for the embedding program to address events to.
    pub fn start(
        reg: &mut Registry,
        mc: &MappingContext,
        bind: Option<(u64, u16)>,
        timer_ok: bool,
        child_ids: &Vec<u64>,
    ) -> (res: Result<u64, NatError>)
        requires
            old(reg).wf(),
            old(reg).can_alloc(),
            mc.ifv4s@.len() + child_ids@.len() <= usize::MAX,
        ensures
            final(reg).wf(),
            res is Err ==> *final(reg) == *old(reg),
            bind is None ==> res == Err::<u64, NatError>(NatError::SocketBind),
            bind is Some && !timer_ok ==> res == Err::<u64, NatError>(NatError::TimerRegister),
            bind is Some && timer_ok ==> res is Ok && {
                let context = res->Ok_0;
                &&& !old(reg)@.contains_key(context)
                &&& final(reg)@ == old(reg)@.insert(
                    context,
                    started_coord(
                        (context - 1) as u64,
                        context,
                        (bind->0).0,
                        (bind->0).1,
                        mc.ifv4s@,
                        child_ids@,
                    ),
                )
            },
    {
        let (socket, port) = match bind {
            Some(bound) => bound,
            None => {
                return Err(NatError::SocketBind);
            },
        };
        if !timer_ok {
            return Err(NatError::TimerRegister);
        }
        let token = reg.next_id;
        let context = reg.next_id + 1;
        reg.next_id = reg.next_id + 2;

        let ifv4_count = mc.ifv4s.len();
        let mut igd_children: usize = 0;
        let mut i: usize = 0;
        while i < ifv4_count
            invariant
                ifv4_count == mc.ifv4s@.len(),
                0 <= i <= ifv4_count,
                igd_children == gateway_count(mc.ifv4s@.take(i as int)),
                igd_children <= i,
            decreases ifv4_count - i,
        {
            proof {
                assert(mc.ifv4s@.take(i + 1).drop_last() =~= mc.ifv4s@.take(i as int));
                assert(mc.ifv4s@.take(i + 1).last() == mc.ifv4s@[i as int]);
            }
            if mc.ifv4s[i].has_gateway {
                igd_children += 1;
            }
            i += 1;
        }
        proof {
            assert(mc.ifv4s@.take(ifv4_count as int) =~= mc.ifv4s@);
        }

        let mut mapped_addrs: Vec<MappedAddr> = Vec::new();
        let mut i: usize = 0;
        while i < ifv4_count
            invariant
                ifv4_count == mc.ifv4s@.len(),
                0 <= i <= ifv4_count,
                mapped_addrs@.len() == i,
                forall|j: int| 0 <= j < i ==> mapped_addrs@[j] == mapped(
                    SockAddr { ip: mc.ifv4s@[j].ip, port },
                    false,
                ),
            decreases ifv4_count - i,
        {
            mapped_addrs.push(MappedAddr::new(SockAddr::new(mc.ifv4s[i].ip, port), false));
            i += 1;
        }
        proof {
            assert(mapped_addrs@ =~= seed_addrs(mc.ifv4s@, port));
        }

        let child_count = child_ids.len();
        let mut stun_children: Vec<u64> = Vec::new();
        let mut i: usize = 0;
        while i < child_count
            invariant
                child_count == child_ids@.len(),
                0 <= i <= child_count,
                stun_children@ == dedup_ids(child_ids@.take(i as int)),
                stun_children@.len() <= i,
            decreases child_count - i,
        {
            proof {
                assert(child_ids@.take(i + 1).drop_last() =~= child_ids@.take(i as int));
                assert(child_ids@.take(i + 1).last() == child_ids@[i as int]);
            }
            insert_child(&mut stun_children, child_ids[i]);
            i += 1;
        }
        proof {
            assert(child_ids@.take(child_count as int) =~= child_ids@);
        }

        let state = MappingTcpSocket {
            token,
            context,
            socket: Some(socket),
            igd_children,
            stun_children,
            mapped_addrs,
        };
        proof {
            lemma_gateway_count_bound(mc.ifv4s@);
            lemma_dedup_ids_ensures(child_ids@);
            assert(state@ == started_coord(token, context, socket, port, mc.ifv4s@, child_ids@));
            assert(state@.wf());
        }
        reg.states.insert(context, state);
        proof {
            assert(reg@ =~= old(reg)@.insert(
                context,
                started_coord(token, context, socket, port, mc.ifv4s@, child_ids@),
            ));
        }
        Ok(context)
    }

    /// Delivers a gateway worker's successfully mapped external address to
    /// the coordinator at `context`. One worker is accounted settled and
    /// the address joins the candidates as a non-reflected entry; the
    /// coordinator terminates exactly when nothing is left outstanding. An
    /// event for an absent context — a worker that outlived its
    /// coordinator — changes nothing, as does a result beyond the workers
    /// still counted.
    pub fn handle_igd_resp(reg: &mut Registry, context: u64, ext_addr: SockAddr) -> (res: Option<
        Terminated,
    >)
        requires
            old(reg).wf(),
        ensures
            final(reg).wf(),
            final(reg)@ == step_igd(old(reg)@, context, ext_addr).0,
            match res {
                Some(t) => step_igd(old(reg)@, context, ext_addr).1 == Some(t@),
                None => step_igd(old(reg)@, context, ext_addr).1 is None,
            },
            !old(reg)@.contains_key(context) ==> final(reg)@ == old(reg)@ && res is None,
    {
        let mut state = match reg.states.remove(&context) {
            Some(state) => state,
            None => {
                proof {
                    assert(reg@ =~= old(reg)@);
                }
                return None;
            },
        };
        if state.igd_children == 0 {
            reg.states.insert(context, state);
            proof {
                assert(reg@ =~= old(reg)@);
            }
            return None;
        }
        state.igd_children = state.igd_children - 1;
        state.mapped_addrs.push(MappedAddr::new(ext_addr, false));
        if state.igd_children == 0 && state.stun_children.len() == 0 {
            proof {
                assert(reg@ =~= step_igd(old(reg)@, context, ext_addr).0);
            }
            Some(into_terminated(state))
        } else {
            reg.states.insert(context, state);
            proof {
                assert(reg@ =~= step_igd(old(reg)@, context, ext_addr).0);
            }
            None
        }
    }

    /// Delivers a reflection child's settlement to the coordinator at
    /// `context`. The child leaves the outstanding set at the point its
    /// result is processed; a successful result joins the candidates as a
    /// reflected entry, a failed one contributes nothing; the coordinator
    /// terminates exactly when nothing is left outstanding. An event for an
    /// absent context changes nothing.
    pub fn handle_stun_resp(
        reg: &mut Registry,
        context: u64,
        child: u64,
        res: Result<SockAddr, ()>,
    ) -> (out: Option<Terminated>)
        requires
            old(reg).wf(),
        ensures
            final(reg).wf(),
            final(reg)@ == step_stun(old(reg)@, context, child, res).0,
            match out {
                Some(t) => step_stun(old(reg)@, context, child, res).1 == Some(t@),
                None => step_stun(old(reg)@, context, child, res).1 is None,
            },
            !old(reg)@.contains_key(context) ==> final(reg)@ == old(reg)@ && out is None,
    {
        let mut state = match reg.states.remove(&context) {
            Some(state) => state,
            None => {
                proof {
                    assert(reg@ =~= old(reg)@);
                }
                return None;
            },
        };
        proof {
            state.stun_children@.index_of_first_ensures(child);
        }
        remove_child(&mut state.stun_children, child);
        if let Ok(our_ext_addr) = res {
            state.mapped_addrs.push(MappedAddr::new(our_ext_addr, true));
        }
        if state.igd_children == 0 && state.stun_children.len() == 0 {
            proof {
                assert(reg@ =~= step_stun(old(reg)@, context, child, res).0);
            }
            Some(into_terminated(state))
        } else {
            reg.states.insert(context, state);
            proof {
                assert(reg@ =~= step_stun(old(reg)@, context, child, res).0);
            }
            None
        }
    }

    /// The timer fired for the coordinator at `context`: terminate it
    /// unconditionally, whatever is still outstanding — the bounded-wait
    /// guarantee. A timer outliving its coordinator changes nothing.
    pub fn timeout(reg: &mut Registry, context: u64) -> (res: Option<Terminated>)
        requires
            old(reg).wf(),
        ensures
            final(reg).wf(),
            final(reg)@ == step_terminate(old(reg)@, context).0,
            match res {
                Some(t) => step_terminate(old(reg)@, context).1 == Some(t@),
                None => step_terminate(old(reg)@, context).1 is None,
            },
            !old(reg)@.contains_key(context) ==> final(reg)@ == old(reg)@ && res is None,
    {
        Self::terminate(reg, context)
    }

    /// Terminates the coordinator at `context`, if it is still registered:
    /// removes it from the registry, so every later event addressed to it
    /// changes nothing, and hands back its termination record — the timer
    /// token to cancel, the children still owed a stop signal, and the
    /// socket with the candidate list for the continuation. The unique path
    /// to the continuation: a coordinator no longer registered yields
    /// nothing.
    pub fn terminate(reg: &mut Registry, context: u64) -> (res: Option<Terminated>)
        requires
            old(reg).wf(),
        ensures
            final(reg).wf(),
            final(reg)@ == step_terminate(old(reg)@, context).0,
            match res {
                Some(t) => step_terminate(old(reg)@, context).1 == Some(t@),
                None => step_terminate(old(reg)@, context).1 is None,
            },
            !old(reg)@.contains_key(context) ==> final(reg)@ == old(reg)@ && res is None,
    {
        match reg.states.remove(&context) {
            Some(state) => {
                proof {
                    assert(reg@ =~= step_terminate(old(reg)@, context).0);
                }
                Some(into_terminated(state))
            },
            None => {
                proof {
                    assert(reg@ =~= old(reg)@);
                }
                None
            },
        }
    }
}

} // verus!
