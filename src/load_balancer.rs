use vstd::prelude::*;
use vstd::arithmetic::div_mod::{lemma_add_mod_noop, lemma_mod_add_multiples_vanish, lemma_mod_bound, lemma_small_mod};
use crate::proxy::ProxyId;

verus! {

/// Where the balancer stands with the transaction in hand.
#[derive(Clone, Copy, Debug, PartialEq, Eq, Structural)]
pub enum Phase {
    /// Waiting for the consensus sink to take the next transaction.
    Idle,
    /// Offering the current transaction to the proxies.
    Forwarding,
    /// The consensus sink is gone; nothing more is done.
    Stopped,
}

/// What the driver of the balancer must do next.
#[derive(Clone, Copy, Debug, PartialEq, Eq, Structural)]
pub enum Action {
    /// Send the current transaction to this proxy.
    Forward(ProxyId),
    /// A proxy took the transaction; go on with the next one.
    Next,
    /// Every proxy refused the transaction; drop it for the proxies and go on.
    Drop,
    /// Terminate the balancer.
    Stop,
}

/// The proxy after `j` in a pool of `n`, wrapping around.
pub open spec fn next_index(j: int, n: int) -> int {
    if j + 1 == n {
        0
    } else {
        j + 1
    }
}

/// How many steps after `primary` the proxy `j` comes, in a pool of `n`.
pub open spec fn offset(j: int, primary: int, n: int) -> int {
    if j >= primary {
        j - primary
    } else {
        j + n - primary
    }
}

/// The routing decisions of the load balancer: each transaction that the
/// consensus sink took goes to proxy `i mod n` for the `i`-th such transaction,
/// and on refusal to the next proxies in turn until one takes it or all refused.
pub struct LoadBalancer {
    n_proxies: usize,
    phase: Phase,
    /// The round-robin choice for the current transaction: `admitted mod n`.
    primary: usize,
    /// The proxy the current transaction is offered to.
    target: usize,
    admitted: Ghost<nat>,
    failed: Ghost<Set<ProxyId>>,
}

impl LoadBalancer {
    pub closed spec fn n_proxies(&self) -> nat {
        self.n_proxies as nat
    }

    pub closed spec fn phase(&self) -> Phase {
        self.phase
    }

    /// Number of transactions settled so far (taken by a proxy or dropped).
    pub closed spec fn admitted(&self) -> nat {
        self.admitted@
    }

    /// The proxy the current transaction is offered to.
    pub closed spec fn target(&self) -> ProxyId {
        self.target
    }

    /// The proxies that refused the current transaction.
    pub closed spec fn failed(&self) -> Set<ProxyId> {
        self.failed@
    }

    pub closed spec fn wf(&self) -> bool {
        &&& self.n_proxies >= 1
        &&& self.primary == self.admitted@ % (self.n_proxies as nat)
        &&& self.target < self.n_proxies
        &&& self.phase != Phase::Forwarding ==> self.failed@ == Set::<ProxyId>::empty()
        &&& self.phase == Phase::Forwarding ==> {
            &&& offset(self.target as int, self.primary as int, self.n_proxies as int)
                < self.n_proxies
            &&& forall|j: ProxyId|
                #[trigger] self.failed@.contains(j) <==> (j < self.n_proxies && offset(
                    j as int,
                    self.primary as int,
                    self.n_proxies as int,
                ) < offset(self.target as int, self.primary as int, self.n_proxies as int))
        }
    }

    /// A balancer over `n_proxies` proxies, waiting for its first transaction.
    pub fn new(n_proxies: usize) -> (r: Self)
        requires
            n_proxies >= 1,
        ensures
            r.wf(),
            r.n_proxies() == n_proxies,
            r.phase() == Phase::Idle,
            r.admitted() == 0,
    {
        proof {
            lemma_small_mod(0, n_proxies as nat);
        }
        LoadBalancer {
            n_proxies,
            phase: Phase::Idle,
            primary: 0,
            target: 0,
            admitted: Ghost(0),
            failed: Ghost(Set::empty()),
        }
    }

    pub fn phase_of(&self) -> (r: Phase)
        ensures
            r == self.phase(),
    {
        self.phase
    }

    /// Decides after the consensus sink was offered the current transaction:
    /// if it is closed the balancer stops, else the transaction goes to the
    /// round-robin choice `admitted mod n`.
    pub fn on_consensus(&mut self, sent: bool) -> (r: Action)
        requires
            old(self).wf(),
            old(self).phase() == Phase::Idle,
        ensures
            final(self).wf(),
            final(self).n_proxies() == old(self).n_proxies(),
            final(self).admitted() == old(self).admitted(),
            !sent ==> r == Action::Stop && final(self).phase() == Phase::Stopped,
            sent ==> {
                &&& r == Action::Forward((old(self).admitted() % old(self).n_proxies()) as ProxyId)
                &&& final(self).phase() == Phase::Forwarding
                &&& final(self).target() == old(self).admitted() % old(self).n_proxies()
                &&& final(self).failed() == Set::<ProxyId>::empty()
            },
    {
        if !sent {
            self.phase = Phase::Stopped;
            return Action::Stop;
        }
        self.phase = Phase::Forwarding;
        self.target = self.primary;
        Action::Forward(self.primary)
    }

    /// Decides after the proxy `target()` was offered the current transaction.
    /// If it took it, the transaction is settled. If it refused, the next proxy
    /// in turn is tried, unless every proxy has now refused: then the
    /// transaction is dropped for the proxies.
    pub fn on_proxy(&mut self, sent: bool) -> (r: Action)
        requires
            old(self).wf(),
            old(self).phase() == Phase::Forwarding,
        ensures
            final(self).wf(),
            final(self).n_proxies() == old(self).n_proxies(),
            sent ==> {
                &&& r == Action::Next
                &&& final(self).phase() == Phase::Idle
                &&& final(self).admitted() == old(self).admitted() + 1
            },
            !sent ==> {
                &&& r == Action::Drop <==> (forall|j: ProxyId|
                    j < old(self).n_proxies() ==> #[trigger] old(self).failed().insert(
                        old(self).target(),
                    ).contains(j))
                &&& r == Action::Drop ==> final(self).phase() == Phase::Idle
                    && final(self).admitted() == old(self).admitted() + 1
                &&& r != Action::Drop ==> {
                    &&& r == Action::Forward(final(self).target())
                    &&& final(self).target() == next_index(
                        old(self).target() as int,
                        old(self).n_proxies() as int,
                    )
                    &&& final(self).phase() == Phase::Forwarding
                    &&& final(self).admitted() == old(self).admitted()
                    &&& final(self).failed() == old(self).failed().insert(old(self).target())
                    &&& !final(self).failed().contains(final(self).target())
                }
            },
    {
        let n = self.n_proxies;
        let ghost p = self.primary as int;
        let ghost old_failed = self.failed().insert(self.target());
        let ghost old_target = self.target as int;
        if sent {
            self.settle();
            return Action::Next;
        }
        let next: usize = if self.target + 1 == n {
            0
        } else {
            self.target + 1
        };
        if next == self.primary {
            proof {
                assert forall|j: ProxyId| j < n implies #[trigger] old_failed.contains(j) by {
                    if j != old_target {
                        assert(self.failed@.contains(j));
                    }
                }
            }
            self.settle();
            return Action::Drop;
        }
        proof {
            self.failed@ = old_failed;
        }
        self.target = next;
        proof {
            assert forall|j: ProxyId|
                #[trigger] self.failed@.contains(j) <==> (j < n && offset(j as int, p, n as int)
                    < offset(next as int, p, n as int)) by {}
            assert(!old_failed.contains(next));
            assert(!(forall|j: ProxyId| j < n ==> #[trigger] old_failed.contains(j)));
        }
        Action::Forward(next)
    }

    /// Closes the current transaction and moves the round-robin choice on.
    fn settle(&mut self)
        requires
            old(self).wf(),
            old(self).phase() == Phase::Forwarding,
        ensures
            final(self).wf(),
            final(self).n_proxies() == old(self).n_proxies(),
            final(self).phase() == Phase::Idle,
            final(self).admitted() == old(self).admitted() + 1,
    {
        let n = self.n_proxies;
        proof {
            lemma_next_index(self.admitted@ as int, n as int);
        }
        self.primary = if self.primary + 1 == n {
            0
        } else {
            self.primary + 1
        };
        self.phase = Phase::Idle;
        self.admitted = Ghost(self.admitted@ + 1);
        self.failed = Ghost(Set::empty());
    }
}

proof fn lemma_next_index(a: int, n: int)
    requires
        a >= 0,
        n >= 1,
    ensures
        (a + 1) % n == next_index(a % n, n),
{
    lemma_mod_bound(a, n);
    lemma_add_mod_noop(a, 1, n);
    if n == 1 {
        assert((a + 1) % n == 0) by (nonlinear_arith)
            requires
                n == 1,
        ;
    } else {
        lemma_small_mod(1, n as nat);
        if a % n + 1 < n {
            lemma_small_mod((a % n + 1) as nat, n as nat);
        } else {
            lemma_mod_add_multiples_vanish(0, n);
            lemma_small_mod(0, n as nat);
        }
    }
}

} // verus!
