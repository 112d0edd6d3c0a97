//! When a search has to stop: after so many nodes, or after so much time.

use vstd::prelude::*;

verus! {

/// `std::time::Instant`, a point in time: nothing is known of what is inside.
#[verifier::external_type_specification]
#[verifier::external_body]
pub struct ExInstant(std::time::Instant);

/// `Instant::elapsed`: the time that has passed since `start`, of which
/// nothing is known beforehand.
#[verifier::external_body]
fn time_since(start: &std::time::Instant) -> std::time::Duration {
    start.elapsed()
}

/// `Duration::as_millis`: the whole milliseconds of the span. Nothing is
/// claimed of the number.
#[verifier::external_body]
fn whole_millis(span: &std::time::Duration) -> u128 {
    span.as_millis()
}

/// `Instant::now`: the instant at which it is called.
#[verifier::external_body]
pub(crate) fn instant_now() -> std::time::Instant {
    std::time::Instant::now()
}

/// The moves that a game is taken to last where the clock does not say.
pub const DEFAULT_MOVES_TO_GO: u64 = 20;

/// The bounds of a search.
#[derive(Copy, Clone, Debug)]
pub struct Limits {
    /// The search stops at this number of nodes.
    pub max_nodes: Option<usize>,
    /// No new depth is begun after this time, in milliseconds.
    pub soft_ms: Option<u64>,
    /// The search stops at this time, in milliseconds.
    pub hard_ms: Option<u64>,
    /// When the search began.
    pub start: std::time::Instant,
}

/// Whether a count has reached a bound, where there is one.
pub open spec fn reached(count: int, bound: Option<int>) -> bool {
    match bound {
        Some(b) => count >= b,
        None => false,
    }
}

impl Limits {
    /// The node bound as a number.
    pub open spec fn node_bound(self) -> Option<int> {
        match self.max_nodes {
            Some(n) => Some(n as int),
            None => None,
        }
    }

    /// Whether no new depth is to be begun after `nodes` nodes and
    /// `elapsed` milliseconds.
    pub open spec fn soft_stop(self, nodes: int, elapsed: int) -> bool {
        reached(nodes, self.node_bound()) || reached(
            elapsed,
            match self.soft_ms {
                Some(t) => Some(t as int),
                None => None,
            },
        )
    }

    /// Whether the search is to stop after `nodes` nodes and `elapsed`
    /// milliseconds.
    pub open spec fn hard_stop(self, nodes: int, elapsed: int) -> bool {
        reached(nodes, self.node_bound()) || reached(
            elapsed,
            match self.hard_ms {
                Some(t) => Some(t as int),
                None => None,
            },
        )
    }

    /// The time for one move where `remaining` milliseconds are on the
    /// clock, `increment` come with each move and `moves_to_go` moves are
    /// to be made with them (20 where the clock does not say): the
    /// remaining time shared among the moves, and half the increment.
    pub open spec fn move_budget(remaining: u64, increment: u64, moves_to_go: Option<u64>) -> int {
        let moves = match moves_to_go {
            Some(m) => if m == 0 {
                1int
            } else {
                m as int
            },
            None => DEFAULT_MOVES_TO_GO as int,
        };
        remaining as int / moves + increment as int / 2
    }

    /// A search without bounds that began at `start`.
    pub fn unbounded(start: std::time::Instant) -> (r: Limits)
        ensures
            r.max_nodes is None,
            r.soft_ms is None,
            r.hard_ms is None,
            r.start == start,
    {
        Limits { max_nodes: None, soft_ms: None, hard_ms: None, start }
    }

    /// The same bounds, and a stop at `nodes` nodes.
    pub fn with_nodes(self, nodes: usize) -> (r: Limits)
        ensures
            r.max_nodes == Some(nodes),
            r.soft_ms == self.soft_ms,
            r.hard_ms == self.hard_ms,
    {
        Limits { max_nodes: Some(nodes), ..self }
    }

    /// The same bounds, and a stop after `ms` milliseconds.
    pub fn with_move_time(self, ms: u64) -> (r: Limits)
        ensures
            r.max_nodes == self.max_nodes,
            r.soft_ms == Some(ms),
            r.hard_ms == Some(ms),
    {
        Limits { soft_ms: Some(ms), hard_ms: Some(ms), ..self }
    }

    /// The same bounds, and those of a game clock: no new depth after six
    /// tenths of the time for one move, and a stop after twice that time or
    /// half the remaining time, whichever is less.
    pub fn with_clock(self, remaining: u64, increment: u64, moves_to_go: Option<u64>) -> (r: Limits)
        ensures
            r.max_nodes == self.max_nodes,
            ({
                let budget = Limits::move_budget(remaining, increment, moves_to_go);
                &&& r.soft_ms matches Some(s) && s == budget * 6 / 10
                &&& r.hard_ms matches Some(h) && h == (if 2 * budget < remaining as int / 2 {
                    2 * budget
                } else {
                    remaining as int / 2
                })
            }),
    {
        let moves: u64 = match moves_to_go {
            Some(m) => if m == 0 {
                1
            } else {
                m
            },
            None => DEFAULT_MOVES_TO_GO,
        };
        let budget: u128 = (remaining / moves) as u128 + (increment / 2) as u128;
        let soft: u128 = budget * 6 / 10;
        let half: u128 = (remaining / 2) as u128;
        let hard: u128 = if 2 * budget < half {
            2 * budget
        } else {
            half
        };
        Limits { soft_ms: Some(soft as u64), hard_ms: Some(hard as u64), ..self }
    }

    /// Whether no new depth is to be begun after `nodes` nodes, given the
    /// time that has passed.
    pub fn soft_stop_at(&self, nodes: usize, elapsed: u128) -> (r: bool)
        ensures
            r == self.soft_stop(nodes as int, elapsed as int),
    {
        let by_nodes = match self.max_nodes {
            Some(n) => nodes >= n,
            None => false,
        };
        let by_time = match self.soft_ms {
            Some(t) => elapsed >= t as u128,
            None => false,
        };
        by_nodes || by_time
    }

    /// Whether the search is to stop after `nodes` nodes, given the time
    /// that has passed.
    pub fn hard_stop_at(&self, nodes: usize, elapsed: u128) -> (r: bool)
        ensures
            r == self.hard_stop(nodes as int, elapsed as int),
    {
        let by_nodes = match self.max_nodes {
            Some(n) => nodes >= n,
            None => false,
        };
        let by_time = match self.hard_ms {
            Some(t) => elapsed >= t as u128,
            None => false,
        };
        by_nodes || by_time
    }

    /// The milliseconds that have passed since the search began.
    pub fn elapsed_ms(&self) -> u128 {
        let span = time_since(&self.start);
        whole_millis(&span)
    }

    /// Whether no new depth is to be begun after `nodes` nodes. The clock
    /// is read only where there is a time bound; with a node bound alone
    /// the answer is that of `soft_stop_at`.
    pub fn should_stop_soft(&self, nodes: usize) -> (r: bool)
        ensures
            reached(nodes as int, self.node_bound()) ==> r,
            self.soft_ms is None ==> r == reached(nodes as int, self.node_bound()),
    {
        match self.soft_ms {
            Some(_) => self.soft_stop_at(nodes, self.elapsed_ms()),
            None => self.soft_stop_at(nodes, 0),
        }
    }

    /// Whether the search is to stop after `nodes` nodes. The clock is
    /// read only where there is a time bound.
    pub fn should_stop_hard(&self, nodes: usize) -> (r: bool)
        ensures
            reached(nodes as int, self.node_bound()) ==> r,
            self.hard_ms is None ==> r == reached(nodes as int, self.node_bound()),
    {
        match self.hard_ms {
            Some(_) => self.hard_stop_at(nodes, self.elapsed_ms()),
            None => self.hard_stop_at(nodes, 0),
        }
    }
}

} // verus!
