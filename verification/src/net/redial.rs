//! When to dial the known peers again.

use vstd::prelude::*;

verus! {

/// The longest delay that a timer can be set to, in nanoseconds.
pub const LONGEST_DELAY: u128 = 18_446_744_073_709_551_615_999_999_999;

/// The delays between checks for a connection, in nanoseconds.
#[derive(Clone, Copy, Debug)]
pub struct Redial {
    min_delay: u128,
    max_delay: u128,
    delay: u128,
    no_peers_at_last_check: bool,
}

/// What the redial loop knows.
pub struct RedialView {
    /// The shortest wait between two checks.
    pub min_delay: int,
    /// The longest wait after a redial.
    pub max_delay: int,
    /// How long to wait for the next check.
    pub delay: int,
    /// Whether there was no connection at the last check.
    pub no_peers_at_last_check: bool,
}

impl RedialView {
    /// Whether a check that finds `active_peers` connections is followed by a
    /// redial: only a full delay without a connection is.
    pub open spec fn redials(self, active_peers: nat) -> bool {
        active_peers == 0 && self.no_peers_at_last_check
    }

    /// What is known after a check that finds `active_peers` connections.
    pub open spec fn checked(self, active_peers: nat) -> RedialView {
        if active_peers != 0 {
            RedialView { delay: self.min_delay, no_peers_at_last_check: false, ..self }
        } else if !self.no_peers_at_last_check {
            RedialView { no_peers_at_last_check: true, ..self }
        } else {
            RedialView {
                delay: if 2 * self.delay <= self.max_delay {
                    2 * self.delay
                } else {
                    self.max_delay
                },
                ..self
            }
        }
    }
}

impl Redial {
    pub closed spec fn view(self) -> RedialView {
        RedialView {
            min_delay: self.min_delay as int,
            max_delay: self.max_delay as int,
            delay: self.delay as int,
            no_peers_at_last_check: self.no_peers_at_last_check,
        }
    }

    #[verifier::type_invariant]
    spec fn delay_can_double(self) -> bool {
        &&& 2 * self.min_delay <= LONGEST_DELAY
        &&& 2 * self.max_delay <= LONGEST_DELAY
        &&& 2 * self.delay <= LONGEST_DELAY
    }

    /// Start to wait for the first check.
    pub fn new(min_delay: u128, max_delay: u128) -> (redial: Self)
        requires
            2 * min_delay <= LONGEST_DELAY,
            2 * max_delay <= LONGEST_DELAY,
        ensures
            redial@ == (RedialView {
                min_delay: min_delay as int,
                max_delay: max_delay as int,
                delay: min_delay as int,
                no_peers_at_last_check: false,
            }),
    {
        Redial { min_delay, max_delay, delay: min_delay, no_peers_at_last_check: false }
    }

    /// How long to wait for the next check.
    pub fn delay(&self) -> (delay: u128)
        ensures
            delay == self@.delay,
    {
        self.delay
    }

    /// Take note of a check for connections. Says whether to redial now.
    pub fn check(&mut self, active_peers: usize) -> (redial: bool)
        ensures
            final(self)@ == old(self)@.checked(active_peers as nat),
            redial == old(self)@.redials(active_peers as nat),
    {
        proof {
            use_type_invariant(&*self);
        }
        let before = *self;
        if active_peers != 0 {
            *self = Redial { delay: before.min_delay, no_peers_at_last_check: false, ..before };
            return false;
        }
        if !before.no_peers_at_last_check {
            *self = Redial { no_peers_at_last_check: true, ..before };
            return false;
        }
        let doubled: u128 = 2 * before.delay;
        let delay: u128 = if doubled <= before.max_delay {
            doubled
        } else {
            before.max_delay
        };
        *self = Redial { delay, ..before };
        true
    }
}

/// What is known after a number of checks.
pub open spec fn after_checks(redial: RedialView, active_peers: Seq<nat>) -> RedialView
    decreases active_peers.len(),
{
    if active_peers.len() == 0 {
        redial
    } else {
        after_checks(redial, active_peers.drop_last()).checked(active_peers.last())
    }
}

/// A redial follows two checks in a row that found no connection, so that it
/// waited for a full delay without one.
pub proof fn law_redial_waits_without_connection(start: RedialView, active_peers: Seq<nat>)
    requires
        !start.no_peers_at_last_check,
        active_peers.len() > 0,
        after_checks(start, active_peers.drop_last()).redials(active_peers.last()),
    ensures
        active_peers.len() >= 2,
        active_peers[active_peers.len() - 1] == 0,
        active_peers[active_peers.len() - 2] == 0,
{
    let before = active_peers.drop_last();
    if before.len() > 0 {
        assert(before.last() == active_peers[active_peers.len() - 2]);
    }
}

/// The number 2 taken `n` times as a factor.
pub open spec fn power_of_two(n: nat) -> int
    decreases n,
{
    if n == 0 {
        1
    } else {
        2 * power_of_two((n - 1) as nat)
    }
}

/// While no connection exists the wait doubles after each redial, up to the
/// longest one: `n` redials after the first check it is `2^n` times the
/// shortest wait, or the longest wait if that is shorter.
pub proof fn law_wait_doubles(start: RedialView, n: nat)
    requires
        start.delay == start.min_delay,
        0 <= start.min_delay <= start.max_delay,
        !start.no_peers_at_last_check,
    ensures
        ({
            let after = after_checks(start, Seq::new(n + 1, |i: int| 0nat));
            let wait = power_of_two(n) * start.min_delay;
            &&& after.delay == if wait <= start.max_delay { wait } else { start.max_delay }
            &&& after.no_peers_at_last_check
            &&& after.min_delay == start.min_delay
            &&& after.max_delay == start.max_delay
        }),
    decreases n,
{
    let checks = Seq::new(n + 1, |i: int| 0nat);
    if n == 0 {
        assert(checks.drop_last() =~= Seq::<nat>::empty());
        assert(after_checks(start, checks.drop_last()) == start);
    } else {
        let k = (n - 1) as nat;
        law_wait_doubles(start, k);
        assert(checks.drop_last() =~= Seq::new(k + 1, |i: int| 0nat));
        let wait = power_of_two(k) * start.min_delay;
        assert(power_of_two(n) * start.min_delay == 2 * wait) by (nonlinear_arith)
            requires
                power_of_two(n) == 2 * power_of_two(k),
                wait == power_of_two(k) * start.min_delay,
        ;
    }
}

/// A connection brings the wait back to the shortest one.
pub proof fn law_connection_resets_wait(redial: RedialView, active_peers: nat)
    requires
        active_peers > 0,
    ensures
        !redial.redials(active_peers),
        redial.checked(active_peers).delay == redial.min_delay,
        forall|later: nat| !#[trigger] redial.checked(active_peers).redials(later),
{
}

/// Two checks in a row that find no connection lead to a redial, and one that finds
/// a connection never does. A check changes neither the shortest nor the longest
/// wait, and only a redial or a connection changes the wait.
pub proof fn law_two_empty_checks_redial(redial: RedialView, active_peers: nat)
    ensures
        redial.checked(0).redials(0),
        redial.redials(active_peers) ==> active_peers == 0 && redial.no_peers_at_last_check,
        redial.no_peers_at_last_check ==> redial.redials(0),
        redial.checked(active_peers).no_peers_at_last_check == (active_peers == 0),
        redial.checked(active_peers).min_delay == redial.min_delay,
        redial.checked(active_peers).max_delay == redial.max_delay,
        active_peers == 0 && !redial.redials(0) ==> redial.checked(0).delay == redial.delay,
        redial.redials(0) ==> redial.checked(0).delay == if 2 * redial.delay < redial.max_delay {
            2 * redial.delay
        } else {
            redial.max_delay
        },
        active_peers > 0 ==> redial.checked(active_peers).delay == redial.min_delay,
{
}

} // verus!
