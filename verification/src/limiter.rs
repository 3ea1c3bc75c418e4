//! The counter: what one call of the store's `limiting` function does to the
//! state that the store keeps under one key, and what it answers.
//!
//! The function runs inside the store, one call at a time for each key.
//! Here the state under a key is a value, and the time is an argument, so
//! that what the counter promises can be stated and proved: a call that is
//! rejected leaves the state alone, and within one window no more is
//! admitted than the limit allows.

use crate::command::limiting_words;
use crate::redlimit::{LimitArgs, LimitResult};
use crate::text::{decimal_u64, lemma_decimal_round_trip};
use vstd::prelude::*;

verus! {

/// The burst period that the counter takes where it is given none, in ms.
pub const DEFAULT_BURST_PERIOD_MS: u64 = 1000;

/// What the store keeps under the key of one id.
#[derive(PartialEq, Eq, Structural, Debug, Clone, Copy)]
pub struct Counter {
    /// What has been admitted in the current period.
    pub count: u64,
    /// What has been admitted in the current burst window.
    pub burst: u64,
    /// When the current burst window began, in ms.
    pub burst_at: u64,
    /// When the key expires, in ms: the end of the current period.
    pub expires_at: u64,
}

impl Counter {
    /// Whether the key is still there at `now`. It is, up to and including
    /// the ms in which it expires.
    pub open spec fn live(self, now: u64) -> bool {
        now <= self.expires_at
    }
}

/// Whether the key of a slot is there at `now`.
pub open spec fn present(slot: Option<Counter>, now: u64) -> bool {
    slot is Some && slot->0.live(now)
}

/// What a reader of the store sees under the key at `now`: the count, the
/// burst, the start of the burst window, and the time left to live in ms;
/// or nothing, once the key has expired.
pub open spec fn observed(slot: Option<Counter>, now: u64) -> Option<(u64, u64, u64, int)> {
    if present(slot, now) {
        Some((slot->0.count, slot->0.burst, slot->0.burst_at, slot->0.expires_at - now))
    } else {
        None
    }
}

/// The number itself where it fits 64 bits, else the nearest that does.
pub open spec fn clamp(x: int) -> u64 {
    if x < 0 {
        0
    } else if x > u64::MAX {
        u64::MAX
    } else {
        x as u64
    }
}

/// The arguments as the counter reads them. The client sends the max burst
/// only where bursts are limited, and the burst period only behind a max
/// burst and where it is not 0. The counter reads what it gets by place: a
/// max burst that does not come is 0, and a burst period that does not come
/// is 1000.
pub open spec fn as_received(args: LimitArgs) -> LimitArgs {
    if args.3 > 0 {
        LimitArgs(
            args.0,
            args.1,
            args.2,
            args.3,
            if args.4 > 0 {
                args.4
            } else {
                DEFAULT_BURST_PERIOD_MS
            },
        )
    } else {
        LimitArgs(args.0, args.1, args.2, 0, DEFAULT_BURST_PERIOD_MS)
    }
}

/// The number that the counter reads at place `i` of the words of a call,
/// or `default` where there is no such word or it is no number.
pub open spec fn number_at(words: Seq<Seq<char>>, i: int, default: u64) -> u64 {
    if 0 <= i < words.len() && decimal_u64(words[i]) is Some {
        decimal_u64(words[i])->0
    } else {
        default
    }
}

/// The arguments that the counter reads out of the words of a call: the
/// numbers behind the key, by their place.
pub open spec fn read_args(words: Seq<Seq<char>>) -> LimitArgs {
    LimitArgs(
        number_at(words, 4, 1),
        number_at(words, 5, 0),
        number_at(words, 6, 0),
        number_at(words, 7, 0),
        number_at(words, 8, DEFAULT_BURST_PERIOD_MS),
    )
}

/// What the client writes, the counter reads as `as_received` says.
pub proof fn lemma_words_read_back(key: Seq<char>, args: LimitArgs)
    ensures
        read_args(limiting_words(key, args)) == as_received(args),
{
    lemma_decimal_round_trip(args.0 as nat);
    lemma_decimal_round_trip(args.1 as nat);
    lemma_decimal_round_trip(args.2 as nat);
    lemma_decimal_round_trip(args.3 as nat);
    lemma_decimal_round_trip(args.4 as nat);
}

/// A call that finds no key: it is admitted, and opens a period that lasts
/// `args.2` ms and, where bursts are limited, a burst window.
pub open spec fn fresh(now: u64, args: LimitArgs) -> (Option<Counter>, LimitResult) {
    (
        Some(
            Counter {
                count: args.0,
                burst: if args.3 > 0 {
                    args.0
                } else {
                    0
                },
                burst_at: if args.3 > 0 {
                    now
                } else {
                    0
                },
                expires_at: clamp(now + args.2),
            },
        ),
        LimitResult(args.0, 0),
    )
}

/// Whether the burst window of `c` is over at `now`, so that a call opens a
/// new one.
pub open spec fn burst_rolls(c: Counter, now: u64, args: LimitArgs) -> bool {
    args.3 > 0 && c.burst_at + args.4 <= now
}

/// Whether a call would take the burst window of `c` over its limit.
pub open spec fn burst_full(c: Counter, now: u64, args: LimitArgs) -> bool {
    args.3 > 0 && !burst_rolls(c, now, args) && c.burst + args.0 > args.3
}

/// A call that finds the key. It is rejected where it would take the burst
/// window over the max burst, with the time to wait for the window's end;
/// else where it would take the period over the max count, with the time
/// that the key has left to live (where that is 0, the wait is 1 and the
/// key is deleted). Else it is admitted and counted; the end of the period
/// stays where it is.
pub open spec fn existing(c: Counter, now: u64, args: LimitArgs) -> (Option<Counter>, LimitResult) {
    if burst_full(c, now, args) {
        (Some(c), LimitResult(c.count, clamp(c.burst_at + args.4 - now)))
    } else if c.count + args.0 > args.1 {
        if c.expires_at > now {
            (Some(c), LimitResult(c.count, (c.expires_at - now) as u64))
        } else {
            (None, LimitResult(c.count, 1))
        }
    } else {
        (
            Some(
                Counter {
                    count: (c.count + args.0) as u64,
                    burst: if args.3 == 0 {
                        c.burst
                    } else if burst_rolls(c, now, args) {
                        args.0
                    } else {
                        (c.burst + args.0) as u64
                    },
                    burst_at: if burst_rolls(c, now, args) {
                        now
                    } else {
                        c.burst_at
                    },
                    expires_at: c.expires_at,
                },
            ),
            LimitResult((c.count + args.0) as u64, 0),
        )
    }
}

/// One call of the counter at `now`, with the arguments as it reads them:
/// the state that it leaves, and its answer. A quantity above the max count
/// is rejected out of hand, with a wait of 1.
pub open spec fn step(slot: Option<Counter>, now: u64, args: LimitArgs) -> (
    Option<Counter>,
    LimitResult,
) {
    if args.0 > args.1 {
        (slot, LimitResult(args.0, 1))
    } else if present(slot, now) {
        existing(slot->0, now, args)
    } else {
        fresh(now, args)
    }
}

impl LimitArgs {
    /// The arguments as the counter reads them.
    pub fn as_received(&self) -> (read: LimitArgs)
        ensures
            read == as_received(*self),
    {
        if self.3 > 0 {
            LimitArgs(
                self.0,
                self.1,
                self.2,
                self.3,
                if self.4 > 0 {
                    self.4
                } else {
                    DEFAULT_BURST_PERIOD_MS
                },
            )
        } else {
            LimitArgs(self.0, self.1, self.2, 0, DEFAULT_BURST_PERIOD_MS)
        }
    }
}

/// What one call of the store's function `limiting` does at `now` to the
/// state under one key, and what it answers, given the arguments as the
/// function reads them.
pub fn limiting(slot: &mut Option<Counter>, now: u64, args: &LimitArgs) -> (result: LimitResult)
    ensures
        (*final(slot), result) == step(*old(slot), now, *args),
        result.1 == 0 || observed(*final(slot), now) == observed(*old(slot), now) || (present(
            *old(slot),
            now,
        ) && old(slot)->0.expires_at == now),
{
    let quantity = args.0;
    let max_count = args.1;
    let period = args.2;
    let max_burst = args.3;
    let burst_period = args.4;
    if quantity > max_count {
        return LimitResult(quantity, 1);
    }
    let found: Option<Counter> = match slot {
        Some(c) => if now <= c.expires_at {
            Some(*c)
        } else {
            None
        },
        None => None,
    };
    match found {
        Some(c) => {
            let window_end: u128 = c.burst_at as u128 + burst_period as u128;
            let rolls = max_burst > 0 && window_end <= now as u128;
            if max_burst > 0 && !rolls && c.burst as u128 + quantity as u128 > max_burst as u128 {
                let wait: u128 = window_end - now as u128;
                let wait: u64 = if wait > u64::MAX as u128 {
                    u64::MAX
                } else {
                    wait as u64
                };
                return LimitResult(c.count, wait);
            }
            if c.count as u128 + quantity as u128 > max_count as u128 {
                if c.expires_at > now {
                    return LimitResult(c.count, c.expires_at - now);
                }
                *slot = None;
                return LimitResult(c.count, 1);
            }
            let count = c.count + quantity;
            let burst = if max_burst == 0 {
                c.burst
            } else if rolls {
                quantity
            } else {
                c.burst + quantity
            };
            let burst_at = if rolls {
                now
            } else {
                c.burst_at
            };
            *slot = Some(Counter { count, burst, burst_at, expires_at: c.expires_at });
            LimitResult(count, 0)
        },
        None => {
            let expires_at = match now.checked_add(period) {
                Some(t) => t,
                None => u64::MAX,
            };
            let counter = if max_burst > 0 {
                Counter { count: quantity, burst: quantity, burst_at: now, expires_at }
            } else {
                Counter { count: quantity, burst: 0, burst_at: 0, expires_at }
            };
            *slot = Some(counter);
            LimitResult(quantity, 0)
        },
    }
}

/// A call of the counter: when it comes, and the quantity that it asks for.
pub ghost struct Call {
    pub now: u64,
    pub quantity: u64,
}

/// The arguments of a call against the limit `limit`, of which only the
/// last four places count.
pub open spec fn call_args(call: Call, limit: LimitArgs) -> LimitArgs {
    LimitArgs(call.quantity, limit.1, limit.2, limit.3, limit.4)
}

/// Whether the counter admits `call` in the state `slot`.
pub open spec fn admits(slot: Option<Counter>, call: Call, limit: LimitArgs) -> bool {
    step(slot, call.now, call_args(call, limit)).1.1 == 0
}

/// The state after the calls `calls`, one after the other.
pub open spec fn run(slot: Option<Counter>, calls: Seq<Call>, limit: LimitArgs) -> Option<Counter>
    decreases calls.len(),
{
    if calls.len() == 0 {
        slot
    } else {
        run(step(slot, calls[0].now, call_args(calls[0], limit)).0, calls.drop_first(), limit)
    }
}

/// The sum of the quantities of those of `calls` that the counter admits.
pub open spec fn admitted(slot: Option<Counter>, calls: Seq<Call>, limit: LimitArgs) -> int
    decreases calls.len(),
{
    if calls.len() == 0 {
        0
    } else {
        (if admits(slot, calls[0], limit) {
            calls[0].quantity as int
        } else {
            0
        }) + admitted(
            step(slot, calls[0].now, call_args(calls[0], limit)).0,
            calls.drop_first(),
            limit,
        )
    }
}

/// Whether a call meets a key in the very ms in which it expires, with the
/// period full: the one case in which a call that is rejected deletes the key.
pub open spec fn expiry_race(slot: Option<Counter>, now: u64, args: LimitArgs) -> bool {
    &&& args.0 <= args.1
    &&& present(slot, now)
    &&& slot->0.expires_at == now
    &&& !burst_full(slot->0, now, args)
    &&& slot->0.count + args.0 > args.1
}

/// A wait of 0 admits, any other wait rejects; and a call that is rejected
/// leaves the state as it was, so that no reader can tell that it was made.
/// The one exception is a call that meets a full period in the ms in which
/// the key expires.
pub proof fn lemma_rejected_changes_nothing(slot: Option<Counter>, now: u64, args: LimitArgs)
    requires
        !expiry_race(slot, now, args),
        step(slot, now, args).1.1 > 0,
    ensures
        step(slot, now, args).0 == slot,
        forall|then: u64| observed(step(slot, now, args).0, then) == observed(slot, then),
{
}

/// While the key lives and the calls come before it expires, the count is
/// what it was plus what was admitted since, the end of the period does not
/// move, and a count within the max count stays within it. The same holds of
/// the burst and the max burst while the calls come before the end of the
/// burst window.
pub proof fn lemma_within_windows(c: Counter, calls: Seq<Call>, limit: LimitArgs)
    requires
        forall|i: int| 0 <= i < calls.len() ==> (#[trigger] calls[i]).now < c.expires_at,
    ensures
        run(Some(c), calls, limit) is Some,
        run(Some(c), calls, limit)->0.expires_at == c.expires_at,
        run(Some(c), calls, limit)->0.count == c.count + admitted(Some(c), calls, limit),
        admitted(Some(c), calls, limit) >= 0,
        c.count <= limit.1 ==> c.count + admitted(Some(c), calls, limit) <= limit.1,
        limit.3 > 0 && (forall|i: int|
            0 <= i < calls.len() ==> (#[trigger] calls[i]).now < c.burst_at + limit.4) ==> {
            &&& run(Some(c), calls, limit)->0.burst_at == c.burst_at
            &&& run(Some(c), calls, limit)->0.burst == c.burst + admitted(Some(c), calls, limit)
            &&& c.burst <= limit.3 ==> c.burst + admitted(Some(c), calls, limit) <= limit.3
        },
    decreases calls.len(),
{
    if calls.len() > 0 {
        let first = calls[0];
        let rest = calls.drop_first();
        let args = call_args(first, limit);
        assert(first.now < c.expires_at);
        let next = step(Some(c), first.now, args).0;
        assert(next is Some);
        let c1 = next->0;
        assert forall|i: int| 0 <= i < rest.len() implies (#[trigger] rest[i]).now
            < c1.expires_at by {
            assert(rest[i] == calls[i + 1]);
        }
        lemma_within_windows(c1, rest, limit);
        if limit.3 > 0 && (forall|i: int|
            0 <= i < calls.len() ==> (#[trigger] calls[i]).now < c.burst_at + limit.4) {
            assert(first.now < c.burst_at + limit.4);
            assert(!burst_rolls(c, first.now, args));
            assert forall|i: int| 0 <= i < rest.len() implies (#[trigger] rest[i]).now
                < c1.burst_at + limit.4 by {
                assert(rest[i] == calls[i + 1]);
            }
        }
    }
}

/// In a span of `limit.2` ms that begins at `start`, when no key is there,
/// the counter admits no more than the max count `limit.1` in all.
pub proof fn lemma_period_budget(
    slot: Option<Counter>,
    calls: Seq<Call>,
    limit: LimitArgs,
    start: u64,
)
    requires
        !present(slot, start),
        start + limit.2 <= u64::MAX,
        forall|i: int|
            0 <= i < calls.len() ==> start <= (#[trigger] calls[i]).now < start + limit.2,
    ensures
        0 <= admitted(slot, calls, limit) <= limit.1,
    decreases calls.len(),
{
    if calls.len() > 0 {
        let first = calls[0];
        let rest = calls.drop_first();
        let args = call_args(first, limit);
        assert(start <= first.now < start + limit.2);
        assert(!present(slot, first.now));
        assert forall|i: int| 0 <= i < rest.len() implies start <= (#[trigger] rest[i]).now < start
            + limit.2 by {
            assert(rest[i] == calls[i + 1]);
        }
        if first.quantity > limit.1 {
            lemma_period_budget(slot, rest, limit, start);
        } else {
            let c1 = step(slot, first.now, args).0->0;
            assert(c1.expires_at >= start + limit.2);
            lemma_within_windows(c1, rest, limit);
        }
    }
}

/// Where bursts are limited and no call asks for more than the max burst:
/// in a span of `limit.4` ms that begins at `start`, when no key is there,
/// the counter admits no more than the max burst `limit.3` in all. The
/// burst period must not be longer than the period.
pub proof fn lemma_burst_budget(
    slot: Option<Counter>,
    calls: Seq<Call>,
    limit: LimitArgs,
    start: u64,
)
    requires
        limit.3 > 0,
        limit.4 <= limit.2,
        !present(slot, start),
        start + limit.2 <= u64::MAX,
        forall|i: int|
            0 <= i < calls.len() ==> start <= (#[trigger] calls[i]).now < start + limit.4
                && calls[i].quantity <= limit.3,
    ensures
        0 <= admitted(slot, calls, limit) <= limit.3,
    decreases calls.len(),
{
    if calls.len() > 0 {
        let first = calls[0];
        let rest = calls.drop_first();
        let args = call_args(first, limit);
        assert(start <= first.now < start + limit.4 && first.quantity <= limit.3);
        assert(!present(slot, first.now));
        assert forall|i: int| 0 <= i < rest.len() implies start <= (#[trigger] rest[i]).now < start
            + limit.4 && rest[i].quantity <= limit.3 by {
            assert(rest[i] == calls[i + 1]);
        }
        if first.quantity > limit.1 {
            lemma_burst_budget(slot, rest, limit, start);
        } else {
            let c1 = step(slot, first.now, args).0->0;
            assert(c1.expires_at >= start + limit.2);
            assert(c1.burst_at == first.now);
            lemma_within_windows(c1, rest, limit);
        }
    }
}

/// The same for a burst window that opens while the key lives: in a span
/// of `limit.4` ms that begins at `start`, after the end of the burst window
/// before it, and that ends before the key expires, the counter admits no
/// more than the max burst in all.
pub proof fn lemma_burst_budget_rolled(c: Counter, calls: Seq<Call>, limit: LimitArgs, start: u64)
    requires
        limit.3 > 0,
        c.burst_at + limit.4 <= start,
        forall|i: int|
            0 <= i < calls.len() ==> start <= (#[trigger] calls[i]).now < start + limit.4
                && calls[i].now < c.expires_at && calls[i].quantity <= limit.3,
    ensures
        0 <= admitted(Some(c), calls, limit) <= limit.3,
    decreases calls.len(),
{
    if calls.len() > 0 {
        let first = calls[0];
        let rest = calls.drop_first();
        let args = call_args(first, limit);
        assert(start <= first.now < start + limit.4 && first.now < c.expires_at && first.quantity
            <= limit.3);
        assert(burst_rolls(c, first.now, args));
        assert forall|i: int| 0 <= i < rest.len() implies start <= (#[trigger] rest[i]).now < start
            + limit.4 && rest[i].now < c.expires_at && rest[i].quantity <= limit.3 by {
            assert(rest[i] == calls[i + 1]);
        }
        if admits(Some(c), first, limit) {
            let c1 = step(Some(c), first.now, args).0->0;
            assert(c1.burst_at == first.now && c1.burst == first.quantity);
            lemma_within_windows(c1, rest, limit);
        } else {
            assert(step(Some(c), first.now, args).0 == Some(c));
            lemma_burst_budget_rolled(c, rest, limit, start);
        }
    }
}

} // verus!
