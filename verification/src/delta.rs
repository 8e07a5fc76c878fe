//! Per-RT/MSG `DELTA` tracking: the one definition of "the same message" and
//! the one place the inter-arrival arithmetic lives. The tracker reports what
//! each observation meant and leaves any narration to the caller.
use vstd::prelude::*;

use std::collections::{HashMap, HashSet};

use crate::models::{delta_key_text, direction_letter, CommandWord, Direction};
use crate::text::{dec, is_dec_digit, lemma_dec_all_digits, lemma_dec_injective};

verus! {

broadcast use vstd::std_specs::hash::group_hash_axioms;

/// The packed key of `(rt, subaddress, direction)`: the three fields in
/// separate bytes of one integer.
pub open spec fn spec_delta_key(rt: u8, subaddress: u8, transmit: bool) -> u32 {
    (rt as int * 65536 + subaddress as int * 256 + (if transmit { 1int } else { 0int })) as u32
}

/// Encodes `(rt, subaddress, direction)` into one `u32`: the definition of
/// "the same message" for `DELTA`.
pub fn delta_key(rt: u8, subaddress: u8, transmit: bool) -> (k: u32)
    ensures
        k == spec_delta_key(rt, subaddress, transmit),
{
    let t: u32 = if transmit {
        1
    } else {
        0
    };
    let r = rt as u32;
    let s = subaddress as u32;
    assert((r << 16u32) | (s << 8u32) | t == r * 65536 + s * 256 + t) by (bit_vector)
        requires
            r < 256,
            s < 256,
            t < 2,
    ;
    (r << 16) | (s << 8) | t
}

/// The packed key of a Command Word.
pub open spec fn command_key(c: CommandWord) -> u32 {
    spec_delta_key(c.rt, c.subaddress, c.direction == Direction::Transmit)
}

/// What one observation meant.
#[derive(Debug, Clone, Copy, PartialEq, Eq, Structural)]
pub enum DeltaOutcome {
    /// First sighting of this key: `DELTA` is zero.
    First,
    /// A non-negative gap, in microseconds.
    Elapsed(u64),
    /// The clock went backwards for this key, so there is no honest gap. The
    /// cursor still advances. `first_for_key` is true once per key.
    Backward { prev_us: u64, curr_us: u64, first_for_key: bool },
    /// No microsecond basis (an uncalibrated Standard counter). Nothing is
    /// recorded.
    Uncalibrated,
    /// No RT/MSG key (`SPURIOUS_DATA`). Never tracked.
    NoKey,
}

/// The `DELTA` value of an outcome, in microseconds.
pub open spec fn outcome_value(o: DeltaOutcome) -> Option<u64> {
    match o {
        DeltaOutcome::First => Some(0),
        DeltaOutcome::Elapsed(us) => Some(us),
        _ => None,
    }
}

impl DeltaOutcome {
    /// The value the `DELTA` column takes, in microseconds: zero for a
    /// first sighting, the gap for an elapsed one, and nothing otherwise.
    pub fn value(self) -> (v: Option<u64>)
        ensures
            v == outcome_value(self),
    {
        match self {
            DeltaOutcome::First => Some(0),
            DeltaOutcome::Elapsed(us) => Some(us),
            _ => None,
        }
    }
}

/// One observation: the new state and the outcome.
pub open spec fn observe_step(
    last: Map<u32, u64>,
    warned: Set<u32>,
    command_word: Option<CommandWord>,
    curr_us: Option<u64>,
) -> (Map<u32, u64>, Set<u32>, DeltaOutcome) {
    match command_word {
        None => (last, warned, DeltaOutcome::NoKey),
        Some(c) => match curr_us {
            None => (last, warned, DeltaOutcome::Uncalibrated),
            Some(t) => {
                let key = command_key(c);
                if !last.contains_key(key) {
                    (last.insert(key, t), warned, DeltaOutcome::First)
                } else if t >= last[key] {
                    (last.insert(key, t), warned, DeltaOutcome::Elapsed((t - last[key]) as u64))
                } else {
                    (
                        last.insert(key, t),
                        warned.insert(key),
                        DeltaOutcome::Backward {
                            prev_us: last[key],
                            curr_us: t,
                            first_for_key: !warned.contains(key),
                        },
                    )
                }
            },
        },
    }
}

/// Last-seen time per RT/MSG key, and the gap arithmetic over it. One
/// tracker per `DELTA` scope.
#[derive(Debug)]
pub struct DeltaTracker {
    last_us: HashMap<u32, u64>,
    warned_keys: HashSet<u32>,
}

impl DeltaTracker {
    /// The last time seen per key.
    pub closed spec fn last(&self) -> Map<u32, u64> {
        self.last_us@
    }

    /// The keys that have reported a backward step.
    pub closed spec fn warned(&self) -> Set<u32> {
        self.warned_keys@
    }

    /// A tracker that has seen nothing.
    pub fn new() -> (t: DeltaTracker)
        ensures
            t.last() == Map::<u32, u64>::empty(),
            t.warned() == Set::<u32>::empty(),
    {
        DeltaTracker { last_us: HashMap::new(), warned_keys: HashSet::new() }
    }

    /// Records one message and reports the gap since the previous one with
    /// the same RT/MSG key (see [`observe_step`]). `command_word` is `None`
    /// for `SPURIOUS_DATA`; `curr_us` is `None` when the timestamp has no
    /// microsecond basis.
    pub fn observe(&mut self, command_word: Option<CommandWord>, curr_us: Option<u64>) -> (o: DeltaOutcome)
        ensures
            (final(self).last(), final(self).warned(), o) == observe_step(
                old(self).last(),
                old(self).warned(),
                command_word,
                curr_us,
            ),
    {
        let cmd = match command_word {
            None => {
                return DeltaOutcome::NoKey;
            },
            Some(c) => c,
        };
        let curr = match curr_us {
            None => {
                return DeltaOutcome::Uncalibrated;
            },
            Some(t) => t,
        };
        let transmit = match cmd.direction {
            Direction::Transmit => true,
            Direction::Receive => false,
        };
        let key = delta_key(cmd.rt, cmd.subaddress, transmit);
        let outcome = match self.last_us.get(&key) {
            None => DeltaOutcome::First,
            Some(prev) => {
                let prev_us = *prev;
                if curr >= prev_us {
                    DeltaOutcome::Elapsed(curr - prev_us)
                } else {
                    let first = self.warned_keys.insert(key);
                    DeltaOutcome::Backward { prev_us, curr_us: curr, first_for_key: first }
                }
            },
        };
        self.last_us.insert(key, curr);
        outcome
    }
}

// ── Laws ──────────────────────────────────────────────────────────────

/// A backward step is flagged as the first for its key at most once: after
/// an observation flags one, no later observation of that key (whatever
/// came in between) flags another.
pub proof fn law_backward_flag_once_per_key(
    last: Map<u32, u64>,
    warned: Set<u32>,
    c: CommandWord,
    t1: u64,
    others: Seq<(Option<CommandWord>, Option<u64>)>,
    t2: u64,
)
    requires
        observe_step(last, warned, Some(c), Some(t1)).2 matches DeltaOutcome::Backward {
            first_for_key: true,
            ..
        },
    ensures
        ({
            let s1 = observe_step(last, warned, Some(c), Some(t1));
            let s2 = observe_all(s1.0, s1.1, others);
            !(observe_step(s2.0, s2.1, Some(c), Some(t2)).2 matches DeltaOutcome::Backward {
                first_for_key: true,
                ..
            })
        }),
{
    let s1 = observe_step(last, warned, Some(c), Some(t1));
    assert(s1.1.contains(command_key(c)));
    lemma_warned_only_grows(s1.0, s1.1, others, command_key(c));
}

/// The state after a sequence of observations.
pub open spec fn observe_all(
    last: Map<u32, u64>,
    warned: Set<u32>,
    obs: Seq<(Option<CommandWord>, Option<u64>)>,
) -> (Map<u32, u64>, Set<u32>)
    decreases obs.len(),
{
    if obs.len() == 0 {
        (last, warned)
    } else {
        let s = observe_all(last, warned, obs.drop_last());
        let r = observe_step(s.0, s.1, obs.last().0, obs.last().1);
        (r.0, r.1)
    }
}

proof fn lemma_warned_only_grows(
    last: Map<u32, u64>,
    warned: Set<u32>,
    obs: Seq<(Option<CommandWord>, Option<u64>)>,
    k: u32,
)
    requires
        warned.contains(k),
    ensures
        observe_all(last, warned, obs).1.contains(k),
    decreases obs.len(),
{
    if obs.len() > 0 {
        lemma_warned_only_grows(last, warned, obs.drop_last(), k);
    }
}

/// The cursor advances on every timed observation with a key, backward
/// steps included: the next gap is measured from this record. Other keys
/// keep their cursors.
pub proof fn law_cursor_advances(last: Map<u32, u64>, warned: Set<u32>, c: CommandWord, t: u64, k: u32)
    ensures
        observe_step(last, warned, Some(c), Some(t)).0[command_key(c)] == t,
        k != command_key(c) ==> observe_step(last, warned, Some(c), Some(t)).0.contains_key(k)
            == last.contains_key(k),
        k != command_key(c) && last.contains_key(k) ==> observe_step(last, warned, Some(c), Some(t)).0[k]
            == last[k],
{
}

/// Records without a key, or without a microsecond basis, leave no trace.
pub proof fn law_untracked_records_leave_no_cursor(
    last: Map<u32, u64>,
    warned: Set<u32>,
    c: Option<CommandWord>,
    t: Option<u64>,
)
    requires
        c is None || t is None,
    ensures
        observe_step(last, warned, c, t).0 == last,
        observe_step(last, warned, c, t).1 == warned,
        outcome_value(observe_step(last, warned, c, t).2) is None,
{
}

/// The packed key and the display key `<rt>:<sa><T|R>` tell the same
/// Command Words apart: two Command Words share a packed key exactly when
/// they share a display key, and exactly when their RT, subaddress and
/// direction agree.
pub proof fn law_packed_and_display_keys_agree(a: CommandWord, b: CommandWord)
    ensures
        (command_key(a) == command_key(b)) == (a.rt == b.rt && a.subaddress == b.subaddress
            && a.direction == b.direction),
        (delta_key_text(Some(a)) == delta_key_text(Some(b))) == (command_key(a) == command_key(b)),
{
    lemma_packed_key_fields(a, b);
    if delta_key_text(Some(a)) == delta_key_text(Some(b)) {
        lemma_display_key_fields(a, b);
    }
}

proof fn lemma_packed_key_fields(a: CommandWord, b: CommandWord)
    ensures
        (command_key(a) == command_key(b)) == (a.rt == b.rt && a.subaddress == b.subaddress
            && a.direction == b.direction),
{
    let ta: int = if a.direction == Direction::Transmit { 1 } else { 0 };
    let tb: int = if b.direction == Direction::Transmit { 1 } else { 0 };
    let ka = a.rt as int * 65536 + a.subaddress as int * 256 + ta;
    let kb = b.rt as int * 65536 + b.subaddress as int * 256 + tb;
    assert(0 <= ka < 0x1_0000_0000);
    assert(0 <= kb < 0x1_0000_0000);
    if ka == kb {
        assert(ta == tb && a.subaddress == b.subaddress && a.rt == b.rt) by (nonlinear_arith)
            requires
                ka == kb,
                ka == a.rt as int * 65536 + a.subaddress as int * 256 + ta,
                kb == b.rt as int * 65536 + b.subaddress as int * 256 + tb,
                0 <= ta < 2,
                0 <= tb < 2,
                0 <= a.subaddress < 256,
                0 <= b.subaddress < 256,
        ;
        assert(a.direction == b.direction);
    }
}

proof fn lemma_display_key_fields(a: CommandWord, b: CommandWord)
    requires
        delta_key_text(Some(a)) == delta_key_text(Some(b)),
    ensures
        a.rt == b.rt && a.subaddress == b.subaddress && a.direction == b.direction,
{
    let ra = dec(a.rt as nat);
    let rb = dec(b.rt as nat);
    let sa = dec(a.subaddress as nat);
    let sb = dec(b.subaddress as nat);
    let x = ra + seq![':'] + sa.push(direction_letter(a.direction));
    let y = rb + seq![':'] + sb.push(direction_letter(b.direction));
    assert(x == delta_key_text(Some(a)));
    assert(y == delta_key_text(Some(b)));
    lemma_dec_all_digits(a.rt as nat);
    lemma_dec_all_digits(b.rt as nat);
    lemma_dec_all_digits(a.subaddress as nat);
    lemma_dec_all_digits(b.subaddress as nat);
    // The colon sits right after the RT digits in both keys.
    if ra.len() < rb.len() {
        assert(x[ra.len() as int] == ':');
        assert(y[ra.len() as int] == rb[ra.len() as int]);
        assert(is_dec_digit(rb[ra.len() as int]));
        assert(false);
    }
    if rb.len() < ra.len() {
        assert(y[rb.len() as int] == ':');
        assert(x[rb.len() as int] == ra[rb.len() as int]);
        assert(is_dec_digit(ra[rb.len() as int]));
        assert(false);
    }
    assert(ra =~= x.subrange(0, ra.len() as int));
    assert(rb =~= y.subrange(0, rb.len() as int));
    lemma_dec_injective(a.rt as nat, b.rt as nat);
    let n = x.len();
    assert(x[n - 1] == direction_letter(a.direction));
    assert(y[n - 1] == direction_letter(b.direction));
    assert(a.direction == b.direction);
    assert(sa =~= x.subrange(ra.len() + 1int, n - 1));
    assert(sb =~= y.subrange(rb.len() + 1int, n - 1));
    lemma_dec_injective(a.subaddress as nat, b.subaddress as nat);
}

} // verus!
