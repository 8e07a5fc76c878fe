//! Canonical row order: ascending timestamp, then RT, then subaddress, with
//! receive before transmit. The upstream stages deliver ascending
//! timestamps, so this stage settles ties only: each run of consecutive
//! records sharing one timestamp is stable-sorted by `(RT, subaddress,
//! direction)`. A record without a Command Word is pinned to the record it
//! followed. Runs are capped; a capped run keeps its arrival order.
use vstd::prelude::*;

use crate::error::MieError;
use crate::models::{irig_total_us, Direction, MieMessage, Timestamp};

verus! {

/// Default cap on one buffered equal-timestamp run.
pub const DEFAULT_MAX_SORT_GROUP: usize = 4096;

/// Valid range of the cap. A cap of one disables reordering.
pub const MAX_SORT_GROUP_MIN: usize = 1;

pub const MAX_SORT_GROUP_MAX: usize = 1_048_576;

// ── Keys ──────────────────────────────────────────────────────────────

/// The tie-break key `(RT, subaddress, direction)` with receive as `0` and
/// transmit as `1`; `None` for a record without a Command Word.
pub open spec fn spec_sort_key(msg: MieMessage) -> Option<(u8, u8, u8)> {
    match msg.command_word {
        Some(c) => Some((c.rt, c.subaddress, if c.direction == Direction::Transmit { 1u8 } else { 0u8 })),
        None => None,
    }
}

/// The sort key of a record (see [`spec_sort_key`]).
pub fn sort_key(msg: &MieMessage) -> (k: Option<(u8, u8, u8)>)
    ensures
        k == spec_sort_key(*msg),
{
    match msg.command_word {
        Some(c) => {
            let dir: u8 = match c.direction {
                Direction::Receive => 0,
                Direction::Transmit => 1,
            };
            Some((c.rt, c.subaddress, dir))
        },
        None => None,
    }
}

/// Lexicographic order of keys, with `None` first.
pub open spec fn key_le(a: Option<(u8, u8, u8)>, b: Option<(u8, u8, u8)>) -> bool {
    match (a, b) {
        (None, _) => true,
        (Some(_), None) => false,
        (Some(x), Some(y)) => x.0 < y.0 || (x.0 == y.0 && (x.1 < y.1 || (x.1 == y.1 && x.2 <= y.2))),
    }
}

/// A key as one number, ordered as the keys are (see [`law_rank_orders_keys`]).
pub open spec fn rank_of(k: Option<(u8, u8, u8)>) -> u32 {
    match k {
        None => 0,
        Some(x) => (1 + x.0 as int * 512 + x.1 as int * 2 + x.2 as int) as u32,
    }
}

/// Comparing ranks is comparing keys, for keys whose direction is 0 or 1.
pub proof fn law_rank_orders_keys(a: Option<(u8, u8, u8)>, b: Option<(u8, u8, u8)>)
    requires
        a matches Some(x) ==> x.2 <= 1,
        b matches Some(y) ==> y.2 <= 1,
    ensures
        (rank_of(a) <= rank_of(b)) == key_le(a, b),
        (rank_of(a) == rank_of(b)) == (a == b),
{
    match (a, b) {
        (Some(x), Some(y)) => {
            let ra = 1 + x.0 as int * 512 + x.1 as int * 2 + x.2 as int;
            let rb = 1 + y.0 as int * 512 + y.1 as int * 2 + y.2 as int;
            assert(ra < 0x1_0000_0000 && rb < 0x1_0000_0000);
            assert((ra <= rb) == key_le(a, b)) by (nonlinear_arith)
                requires
                    ra == 1 + x.0 as int * 512 + x.1 as int * 2 + x.2 as int,
                    rb == 1 + y.0 as int * 512 + y.1 as int * 2 + y.2 as int,
                    x.1 < 256,
                    y.1 < 256,
                    x.2 <= 1,
                    y.2 <= 1,
                    key_le(a, b) == (x.0 < y.0 || (x.0 == y.0 && (x.1 < y.1 || (x.1 == y.1 && x.2 <= y.2)))),
            ;
            assert((ra == rb) == (x == y)) by (nonlinear_arith)
                requires
                    ra == 1 + x.0 as int * 512 + x.1 as int * 2 + x.2 as int,
                    rb == 1 + y.0 as int * 512 + y.1 as int * 2 + y.2 as int,
                    x.1 < 256,
                    y.1 < 256,
                    x.2 <= 1,
                    y.2 <= 1,
            ;
        },
        _ => {},
    }
}

fn key_rank(k: Option<(u8, u8, u8)>) -> (r: u32)
    requires
        k matches Some(x) ==> x.2 <= 1,
    ensures
        r == rank_of(k),
{
    match k {
        None => 0,
        Some(x) => 1 + (x.0 as u32) * 512 + (x.1 as u32) * 2 + x.2 as u32,
    }
}

/// Two timestamps belong to one ordering group: both IRIG with equal
/// absolute microseconds, or both Standard with equal counters.
pub open spec fn spec_same_group(a: Timestamp, b: Timestamp) -> bool {
    match (a, b) {
        (Timestamp::Irig(x), Timestamp::Irig(y)) => irig_total_us(x) == irig_total_us(y),
        (Timestamp::Standard(x), Timestamp::Standard(y)) => x.raw_value == y.raw_value,
        _ => false,
    }
}

/// Whether two timestamps belong to one ordering group.
pub fn same_group(a: &Timestamp, b: &Timestamp) -> (r: bool)
    ensures
        r == spec_same_group(*a, *b),
{
    match (a, b) {
        (Timestamp::Irig(x), Timestamp::Irig(y)) => x.to_total_microseconds() == y.to_total_microseconds(),
        (Timestamp::Standard(x), Timestamp::Standard(y)) => x.raw_value == y.raw_value,
        _ => false,
    }
}

// ── Chunks and the stable sort ────────────────────────────────────────

/// A run split into chunks: each record with a key opens a chunk ranked by
/// that key, and each record without one joins the chunk before it; records
/// without a key at the very front form a leading chunk of rank zero.
pub open spec fn chunks_of(msgs: Seq<MieMessage>) -> Seq<(u32, Seq<MieMessage>)>
    decreases msgs.len(),
{
    if msgs.len() == 0 {
        Seq::empty()
    } else {
        let cs = chunks_of(msgs.drop_last());
        let m = msgs.last();
        match spec_sort_key(m) {
            Some(k) => cs.push((rank_of(Some(k)), seq![m])),
            None => if cs.len() == 0 {
                seq![(0u32, seq![m])]
            } else {
                cs.update(cs.len() - 1, (cs.last().0, cs.last().1.push(m)))
            },
        }
    }
}

/// The records of the chunks, in order.
pub open spec fn flat(cs: Seq<(u32, Seq<MieMessage>)>) -> Seq<MieMessage>
    decreases cs.len(),
{
    if cs.len() == 0 {
        Seq::empty()
    } else {
        flat(cs.drop_last()) + cs.last().1
    }
}

/// The first position whose rank exceeds `r`.
pub open spec fn first_above(cs: Seq<(u32, Seq<MieMessage>)>, r: u32) -> int
    decreases cs.len(),
{
    if cs.len() == 0 {
        0
    } else if cs[0].0 > r {
        0
    } else {
        1 + first_above(cs.drop_first(), r)
    }
}

/// Stable insertion sort by rank: each chunk goes after every chunk already
/// placed whose rank does not exceed its own.
pub open spec fn stable_sort(cs: Seq<(u32, Seq<MieMessage>)>) -> Seq<(u32, Seq<MieMessage>)>
    decreases cs.len(),
{
    if cs.len() == 0 {
        Seq::empty()
    } else {
        let s = stable_sort(cs.drop_last());
        s.insert(first_above(s, cs.last().0), cs.last())
    }
}

/// The chunks are in ascending rank.
pub open spec fn rank_sorted(cs: Seq<(u32, Seq<MieMessage>)>) -> bool {
    forall|i: int, j: int| 0 <= i < j < cs.len() ==> cs[i].0 <= cs[j].0
}

/// The canonical order of one run.
pub open spec fn sorted_run(msgs: Seq<MieMessage>) -> Seq<MieMessage> {
    flat(stable_sort(chunks_of(msgs)))
}

proof fn lemma_first_above_bounds(cs: Seq<(u32, Seq<MieMessage>)>, r: u32)
    ensures
        0 <= first_above(cs, r) <= cs.len(),
        forall|i: int| 0 <= i < first_above(cs, r) ==> cs[i].0 <= r,
        rank_sorted(cs) ==> forall|i: int| first_above(cs, r) <= i < cs.len() ==> cs[i].0 > r,
    decreases cs.len(),
{
    if cs.len() > 0 && cs[0].0 <= r {
        lemma_first_above_bounds(cs.drop_first(), r);
        assert forall|i: int| 0 <= i < first_above(cs, r) implies cs[i].0 <= r by {
            if i > 0 {
                assert(cs[i] == cs.drop_first()[i - 1]);
            }
        }
        if rank_sorted(cs) {
            assert(rank_sorted(cs.drop_first()));
            assert forall|i: int| first_above(cs, r) <= i < cs.len() implies cs[i].0 > r by {
                assert(cs[i] == cs.drop_first()[i - 1]);
            }
        }
    }
}

/// The stable sort orders chunks by rank.
pub proof fn law_stable_sort_is_sorted(cs: Seq<(u32, Seq<MieMessage>)>)
    ensures
        rank_sorted(stable_sort(cs)),
        stable_sort(cs).len() == cs.len(),
    decreases cs.len(),
{
    if cs.len() > 0 {
        let s = stable_sort(cs.drop_last());
        law_stable_sort_is_sorted(cs.drop_last());
        let c = cs.last();
        let p = first_above(s, c.0);
        lemma_first_above_bounds(s, c.0);
        let t = s.insert(p, c);
        assert forall|i: int, j: int| 0 <= i < j < t.len() implies t[i].0 <= t[j].0 by {
            if j < p {
            } else if j == p {
            } else if i < p {
            } else if i == p {
            } else {
            }
        }
    }
}

/// The stable sort only permutes chunks.
pub proof fn law_stable_sort_permutes(cs: Seq<(u32, Seq<MieMessage>)>)
    ensures
        stable_sort(cs).to_multiset() == cs.to_multiset(),
    decreases cs.len(),
{
    broadcast use vstd::multiset::group_multiset_axioms, vstd::seq_lib::group_to_multiset_ensures;

    if cs.len() > 0 {
        let s = stable_sort(cs.drop_last());
        law_stable_sort_permutes(cs.drop_last());
        lemma_first_above_bounds(s, cs.last().0);
        let p = first_above(s, cs.last().0);
        s.insert_ensures(p, cs.last());
        vstd::seq_lib::to_multiset_insert(s, p, cs.last());
        vstd::seq_lib::to_multiset_build(cs.drop_last(), cs.last());
        assert(cs =~= cs.drop_last().push(cs.last()));
    }
}

/// The stable sort keeps chunks of equal rank in their input order: the
/// chunks of any one rank appear in the output exactly as in the input.
pub proof fn law_stable_sort_is_stable(cs: Seq<(u32, Seq<MieMessage>)>, r: u32)
    ensures
        stable_sort(cs).filter(|c: (u32, Seq<MieMessage>)| c.0 == r) == cs.filter(
            |c: (u32, Seq<MieMessage>)| c.0 == r,
        ),
    decreases cs.len(),
{
    let pred = |c: (u32, Seq<MieMessage>)| c.0 == r;
    reveal(Seq::filter);
    if cs.len() > 0 {
        let s = stable_sort(cs.drop_last());
        let c = cs.last();
        law_stable_sort_is_stable(cs.drop_last(), r);
        law_stable_sort_is_sorted(cs.drop_last());
        lemma_first_above_bounds(s, c.0);
        let p = first_above(s, c.0);
        let t = s.insert(p, c);
        assert(t =~= s.take(p) + seq![c] + s.skip(p));
        assert(s =~= s.take(p) + s.skip(p));
        Seq::filter_distributes_over_add(s.take(p) + seq![c], s.skip(p), pred);
        Seq::filter_distributes_over_add(s.take(p), seq![c], pred);
        Seq::filter_distributes_over_add(s.take(p), s.skip(p), pred);
        assert(seq![c].drop_last().filter(pred) =~= Seq::<(u32, Seq<MieMessage>)>::empty()) by {
            assert(seq![c].drop_last() =~= Seq::<(u32, Seq<MieMessage>)>::empty());
        }
        if c.0 == r {
            // Nothing after the insertion point has this rank.
            lemma_filter_none(s.skip(p), pred);
            assert(seq![c].filter(pred) =~= seq![c]) by {
                assert(seq![c].drop_last() =~= Seq::<(u32, Seq<MieMessage>)>::empty());
            }
        } else {
            assert(seq![c].filter(pred) =~= Seq::<(u32, Seq<MieMessage>)>::empty()) by {
                assert(seq![c].drop_last() =~= Seq::<(u32, Seq<MieMessage>)>::empty());
            }
        }
        assert(cs =~= cs.drop_last().push(c));
    }
}

proof fn lemma_filter_none(s: Seq<(u32, Seq<MieMessage>)>, pred: spec_fn((u32, Seq<MieMessage>)) -> bool)
    requires
        forall|i: int| 0 <= i < s.len() ==> !pred(s[i]),
    ensures
        s.filter(pred) =~= Seq::<(u32, Seq<MieMessage>)>::empty(),
    decreases s.len(),
{
    reveal(Seq::filter);
    if s.len() > 0 {
        lemma_filter_none(s.drop_last(), pred);
    }
}

/// Splitting a run into chunks loses and reorders nothing.
pub proof fn law_chunks_cover_run(msgs: Seq<MieMessage>)
    ensures
        flat(chunks_of(msgs)) == msgs,
    decreases msgs.len(),
{
    if msgs.len() > 0 {
        let cs = chunks_of(msgs.drop_last());
        law_chunks_cover_run(msgs.drop_last());
        let m = msgs.last();
        match spec_sort_key(m) {
            Some(k) => {
                let t = cs.push((rank_of(Some(k)), seq![m]));
                assert(t.drop_last() =~= cs);
            },
            None => {
                if cs.len() == 0 {
                    let t = seq![(0u32, seq![m])];
                    assert(t.drop_last() =~= cs);
                    assert(msgs =~= seq![m]);
                } else {
                    let t = cs.update(cs.len() - 1, (cs.last().0, cs.last().1.push(m)));
                    assert(t.drop_last() =~= cs.drop_last());
                    assert(flat(cs) == flat(cs.drop_last()) + cs.last().1);
                }
            },
        }
        assert(msgs =~= msgs.drop_last().push(m));
    }
}

/// A chunk holds at least one record; it opens with a keyed record (unless
/// it is the leading chunk) whose key gives its rank, and every later record
/// in it has no key.
pub open spec fn well_shaped(c: (u32, Seq<MieMessage>), leading: bool) -> bool {
    &&& c.1.len() >= 1
    &&& (!leading ==> spec_sort_key(c.1[0]) is Some)
    &&& (spec_sort_key(c.1[0]) matches Some(k) ==> c.0 == rank_of(Some(k)))
    &&& (spec_sort_key(c.1[0]) is None ==> c.0 == 0)
    &&& forall|j: int| 1 <= j < c.1.len() ==> spec_sort_key(#[trigger] c.1[j]) is None
}

/// Every chunk of a run is well shaped: a pinned record travels with the
/// keyed record it followed.
pub proof fn law_chunk_shape(msgs: Seq<MieMessage>)
    ensures
        forall|i: int| 0 <= i < chunks_of(msgs).len() ==> well_shaped(#[trigger] chunks_of(msgs)[i], i == 0),
    decreases msgs.len(),
{
    if msgs.len() > 0 {
        law_chunk_shape(msgs.drop_last());
        let cs = chunks_of(msgs.drop_last());
        let m = msgs.last();
        let t = chunks_of(msgs);
        assert forall|i: int| 0 <= i < t.len() implies well_shaped(#[trigger] t[i], i == 0) by {
            if i < cs.len() && i < t.len() - 1 {
                assert(t[i] == cs[i]);
                assert(well_shaped(cs[i], i == 0));
            } else if spec_sort_key(m) is None && cs.len() > 0 {
                let old_c = cs[i];
                assert(well_shaped(old_c, i == 0));
                assert(t[i].1 == old_c.1.push(m));
                assert forall|j: int| 1 <= j < t[i].1.len() implies spec_sort_key(#[trigger] t[i].1[j]) is None by {
                    if j < old_c.1.len() {
                        assert(t[i].1[j] == old_c.1[j]);
                    }
                }
            }
        }
    }
}

// ── Sorting one run ───────────────────────────────────────────────────

/// The chunks' ranks and records.
pub open spec fn chunk_views(v: Seq<(u32, Vec<MieMessage>)>) -> Seq<(u32, Seq<MieMessage>)> {
    v.map_values(|c: (u32, Vec<MieMessage>)| (c.0, c.1@))
}

/// The items of `v` in reverse order.
pub(crate) fn reversed<T>(v: Vec<T>) -> (r: Vec<T>)
    ensures
        r@ == v@.reverse(),
{
    let ghost input = v@;
    let mut v = v;
    let mut r: Vec<T> = Vec::new();
    while v.len() > 0
        invariant
            input == v@ + r@.reverse(),
        decreases v.len(),
    {
        let x = v.pop().unwrap();
        let ghost r0 = r@;
        r.push(x);
        assert(r@.reverse() =~= seq![x] + r0.reverse());
        assert(input =~= v@ + r@.reverse());
    }
    assert(input =~= r@.reverse());
    assert(r@ =~= input.reverse()) by {
        assert(r@.reverse().reverse() =~= r@);
    }
    r
}

fn split_chunks(buf: Vec<MieMessage>) -> (chunks: Vec<(u32, Vec<MieMessage>)>)
    ensures
        chunk_views(chunks@) == chunks_of(buf@),
{
    let ghost input = buf@;
    let mut rest = reversed(buf);
    let mut chunks: Vec<(u32, Vec<MieMessage>)> = Vec::new();
    let ghost mut done: Seq<MieMessage> = Seq::empty();
    while rest.len() > 0
        invariant
            input == done + rest@.reverse(),
            chunk_views(chunks@) == chunks_of(done),
        decreases rest.len(),
    {
        let msg = rest.pop().unwrap();
        let ghost d0 = done;
        proof {
            done = done.push(msg);
            assert(done.drop_last() =~= d0);
            assert(input =~= done + rest@.reverse());
        }
        let key = sort_key(&msg);
        match key {
            Some(k) => {
                let r = key_rank(key);
                let mut one: Vec<MieMessage> = Vec::new();
                one.push(msg);
                chunks.push((r, one));
                assert(chunk_views(chunks@) =~= chunks_of(done));
            },
            None => {
                if chunks.len() == 0 {
                    let mut one: Vec<MieMessage> = Vec::new();
                    one.push(msg);
                    chunks.push((0, one));
                    assert(chunk_views(chunks@) =~= chunks_of(done));
                } else {
                    let ghost c0 = chunks@;
                    let last = chunks.pop().unwrap();
                    let (r, mut group) = last;
                    group.push(msg);
                    chunks.push((r, group));
                    assert(chunk_views(chunks@) =~= chunks_of(done)) by {
                        assert(chunk_views(c0).last() == chunk_views(c0)[c0.len() - 1]);
                    }
                }
            },
        }
    }
    assert(input =~= done);
    chunks
}

fn first_above_exec(sorted: &Vec<(u32, Vec<MieMessage>)>, r: u32) -> (p: usize)
    ensures
        p == first_above(chunk_views(sorted@), r),
{
    let ghost cs = chunk_views(sorted@);
    assert(cs.skip(0) =~= cs);
    let mut i: usize = 0;
    while i < sorted.len()
        invariant
            i <= sorted.len(),
            cs == chunk_views(sorted@),
            first_above(cs, r) == i + first_above(cs.skip(i as int), r),
        decreases sorted.len() - i,
    {
        if sorted[i].0 > r {
            return i;
        }
        assert(cs.skip(i as int).drop_first() =~= cs.skip(i + 1));
        i = i + 1;
    }
    i
}

fn sort_chunks(chunks: Vec<(u32, Vec<MieMessage>)>) -> (sorted: Vec<(u32, Vec<MieMessage>)>)
    ensures
        chunk_views(sorted@) == stable_sort(chunk_views(chunks@)),
{
    let ghost input = chunk_views(chunks@);
    let mut rest = reversed(chunks);
    let mut sorted: Vec<(u32, Vec<MieMessage>)> = Vec::new();
    let ghost mut done: Seq<(u32, Seq<MieMessage>)> = Seq::empty();
    proof {
        assert(chunk_views(rest@.reverse()) =~= chunk_views(rest@).reverse());
    }
    while rest.len() > 0
        invariant
            input == done + chunk_views(rest@).reverse(),
            chunk_views(sorted@) == stable_sort(done),
        decreases rest.len(),
    {
        let ghost rv0 = chunk_views(rest@);
        let c = rest.pop().unwrap();
        let ghost cv = (c.0, c.1@);
        let ghost d0 = done;
        proof {
            done = done.push(cv);
            assert(done.drop_last() =~= d0);
            assert(chunk_views(rest@) =~= rv0.drop_last());
            assert(rv0.reverse() =~= seq![cv] + rv0.drop_last().reverse());
            assert(input =~= done + chunk_views(rest@).reverse());
        }
        let p = first_above_exec(&sorted, c.0);
        proof {
            lemma_first_above_bounds(chunk_views(sorted@), c.0);
        }
        let ghost s0 = sorted@;
        sorted.insert(p, c);
        assert(chunk_views(sorted@) =~= chunk_views(s0).insert(p as int, cv));
    }
    assert(input =~= done);
    sorted
}

fn flatten_chunks(chunks: Vec<(u32, Vec<MieMessage>)>) -> (out: Vec<MieMessage>)
    ensures
        out@ == flat(chunk_views(chunks@)),
{
    let ghost input = chunk_views(chunks@);
    let mut rest = reversed(chunks);
    let mut out: Vec<MieMessage> = Vec::new();
    let ghost mut done: Seq<(u32, Seq<MieMessage>)> = Seq::empty();
    proof {
        assert(chunk_views(rest@.reverse()) =~= chunk_views(rest@).reverse());
    }
    while rest.len() > 0
        invariant
            input == done + chunk_views(rest@).reverse(),
            out@ == flat(done),
        decreases rest.len(),
    {
        let ghost rv0 = chunk_views(rest@);
        let c = rest.pop().unwrap();
        let ghost cv = (c.0, c.1@);
        let ghost d0 = done;
        proof {
            done = done.push(cv);
            assert(done.drop_last() =~= d0);
            assert(chunk_views(rest@) =~= rv0.drop_last());
            assert(rv0.reverse() =~= seq![cv] + rv0.drop_last().reverse());
            assert(input =~= done + chunk_views(rest@).reverse());
        }
        let (_, mut group) = c;
        out.append(&mut group);
    }
    assert(input =~= done);
    out
}

/// Stable-sorts one run by key, each keyless record staying behind the
/// record it followed (see [`sorted_run`]).
pub fn sort_run(buf: Vec<MieMessage>) -> (out: Vec<MieMessage>)
    ensures
        out@ == sorted_run(buf@),
{
    let chunks = split_chunks(buf);
    let sorted = sort_chunks(chunks);
    flatten_chunks(sorted)
}

/// Sorting a run only permutes its records.
pub proof fn law_sorted_run_permutes(msgs: Seq<MieMessage>)
    ensures
        sorted_run(msgs).to_multiset() == msgs.to_multiset(),
{
    lemma_stable_sort_flat_multiset(chunks_of(msgs));
    law_chunks_cover_run(msgs);
}

proof fn lemma_flat_insert_multiset(s: Seq<(u32, Seq<MieMessage>)>, p: int, c: (u32, Seq<MieMessage>))
    requires
        0 <= p <= s.len(),
    ensures
        flat(s.insert(p, c)).to_multiset() == flat(s).to_multiset().add(c.1.to_multiset()),
    decreases s.len(),
{
    broadcast use vstd::multiset::group_multiset_axioms, vstd::seq_lib::lemma_multiset_commutative;

    let t = s.insert(p, c);
    if p == s.len() {
        assert(t =~= s.push(c));
        assert(t.drop_last() =~= s);
    } else {
        assert(t.drop_last() =~= s.drop_last().insert(p, c));
        assert(t.last() == s.last());
        lemma_flat_insert_multiset(s.drop_last(), p, c);
        assert(flat(s) == flat(s.drop_last()) + s.last().1);
        assert(flat(t) == flat(t.drop_last()) + t.last().1);
    }
}

proof fn lemma_stable_sort_flat_multiset(cs: Seq<(u32, Seq<MieMessage>)>)
    ensures
        flat(stable_sort(cs)).to_multiset() == flat(cs).to_multiset(),
    decreases cs.len(),
{
    broadcast use vstd::multiset::group_multiset_axioms, vstd::seq_lib::lemma_multiset_commutative;

    if cs.len() > 0 {
        let s = stable_sort(cs.drop_last());
        lemma_stable_sort_flat_multiset(cs.drop_last());
        lemma_first_above_bounds(s, cs.last().0);
        lemma_flat_insert_multiset(s, first_above(s, cs.last().0), cs.last());
    }
}

// ── The ordering stage ────────────────────────────────────────────────

/// A run that starts a new group: the buffer is non-empty and `msg` is not
/// in the group of its first record.
pub open spec fn starts_new_run(buf: Seq<MieMessage>, msg: MieMessage) -> bool {
    buf.len() > 0 && !spec_same_group(buf[0].timestamp, msg.timestamp)
}

/// Accepting one record: a record that starts a new group first releases
/// the buffered run, sorted; the record is then buffered, and a buffer that
/// reaches the cap is released in arrival order. Returns the new buffer and
/// the records released.
pub open spec fn accept_step(buf: Seq<MieMessage>, cap: nat, msg: MieMessage) -> (Seq<MieMessage>, Seq<MieMessage>) {
    let (b1, out1) = if starts_new_run(buf, msg) {
        (Seq::<MieMessage>::empty(), sorted_run(buf))
    } else {
        (buf, Seq::<MieMessage>::empty())
    };
    let b2 = b1.push(msg);
    if b2.len() >= cap {
        (Seq::empty(), out1 + b2)
    } else {
        (b2, out1)
    }
}

/// Every record of a buffered run shares the group of its first record.
pub open spec fn one_group(buf: Seq<MieMessage>) -> bool {
    forall|i: int| 0 <= i < buf.len() ==> spec_same_group(buf[0].timestamp, #[trigger] buf[i].timestamp)
}

/// The ordering stage: the run being accumulated and the cap on it.
pub struct Ordered {
    buf: Vec<MieMessage>,
    max_group: usize,
}

impl Ordered {
    /// The buffered run.
    pub closed spec fn buffered(&self) -> Seq<MieMessage> {
        self.buf@
    }

    /// The cap on a buffered run.
    pub closed spec fn cap(&self) -> nat {
        self.max_group as nat
    }

    #[verifier::type_invariant]
    closed spec fn inv(&self) -> bool {
        &&& self.max_group >= 1
        &&& self.buf@.len() < self.max_group
        &&& one_group(self.buf@)
    }

    /// A stage with nothing buffered; a zero cap is raised to one.
    pub fn new(max_group: usize) -> (o: Ordered)
        ensures
            o.buffered() == Seq::<MieMessage>::empty(),
            o.cap() == (if max_group < 1 { 1 } else { max_group }),
    {
        let cap = if max_group < MAX_SORT_GROUP_MIN {
            MAX_SORT_GROUP_MIN
        } else {
            max_group
        };
        Ordered { buf: Vec::new(), max_group: cap }
    }

    /// Accepts one record and returns the records released by it (see
    /// [`accept_step`]). The run kept buffered always shares one group and
    /// stays under the cap.
    pub fn accept(&mut self, msg: MieMessage) -> (ready: Vec<MieMessage>)
        ensures
            (final(self).buffered(), ready@) == accept_step(old(self).buffered(), old(self).cap(), msg),
            final(self).cap() == old(self).cap(),
            one_group(final(self).buffered()),
            final(self).buffered().len() < final(self).cap(),
    {
        proof {
            use_type_invariant(&*self);
        }
        let mut buf: Vec<MieMessage> = Vec::new();
        core::mem::swap(&mut buf, &mut self.buf);
        let mut ready: Vec<MieMessage> = Vec::new();
        let ghost b0 = buf@;
        if buf.len() > 0 && !same_group(&buf[0].timestamp, &msg.timestamp) {
            ready = sort_run(buf);
            buf = Vec::new();
        }
        let ghost b1 = buf@;
        buf.push(msg);
        proof {
            if !starts_new_run(b0, msg) && b0.len() > 0 {
                assert(buf@[0] == b0[0]);
                assert forall|i: int| 0 <= i < buf@.len() implies spec_same_group(
                    buf@[0].timestamp,
                    #[trigger] buf@[i].timestamp,
                ) by {
                    if i < b0.len() {
                        assert(buf@[i] == b0[i]);
                    }
                }
            }
        }
        if buf.len() >= self.max_group {
            ready.append(&mut buf);
        }
        self.buf = buf;
        ready
    }

    /// Releases the buffered run, sorted, and leaves the buffer empty.
    pub fn flush(&mut self) -> (ready: Vec<MieMessage>)
        ensures
            ready@ == sorted_run(old(self).buffered()),
            final(self).buffered() == Seq::<MieMessage>::empty(),
            final(self).cap() == old(self).cap(),
    {
        proof {
            use_type_invariant(&*self);
        }
        let mut buf: Vec<MieMessage> = Vec::new();
        core::mem::swap(&mut buf, &mut self.buf);
        sort_run(buf)
    }
}

/// Records as successful stream items.
pub open spec fn oks(s: Seq<MieMessage>) -> Seq<Result<MieMessage, MieError>> {
    s.map_values(|m: MieMessage| Ok::<MieMessage, MieError>(m))
}

/// The stage run over a stream: the buffered run and the items released so
/// far. An error releases the buffered run and then passes through.
pub open spec fn order_fold(items: Seq<Result<MieMessage, MieError>>, cap: nat) -> (Seq<MieMessage>, Seq<Result<MieMessage, MieError>>)
    decreases items.len(),
{
    if items.len() == 0 {
        (Seq::empty(), Seq::empty())
    } else {
        let (buf, out) = order_fold(items.drop_last(), cap);
        match items.last() {
            Ok(m) => {
                let (b2, r) = accept_step(buf, cap, m);
                (b2, out + oks(r))
            },
            Err(e) => (Seq::empty(), out + oks(sorted_run(buf)) + seq![Err(e)]),
        }
    }
}

/// The whole stream in canonical order: what the stage releases, then the
/// final run, sorted.
pub open spec fn order_stream(items: Seq<Result<MieMessage, MieError>>, cap: nat) -> Seq<Result<MieMessage, MieError>> {
    let (buf, out) = order_fold(items, cap);
    out + oks(sorted_run(buf))
}

proof fn lemma_oks_concat(a: Seq<MieMessage>, b: Seq<MieMessage>)
    ensures
        oks(a + b) == oks(a) + oks(b),
{
    assert(oks(a + b) =~= oks(a) + oks(b));
}

proof fn lemma_oks_perm(a: Seq<MieMessage>, b: Seq<MieMessage>)
    requires
        a.to_multiset() == b.to_multiset(),
    ensures
        oks(a).to_multiset() == oks(b).to_multiset(),
    decreases a.len(),
{
    broadcast use vstd::multiset::group_multiset_axioms, vstd::seq_lib::to_multiset_build,
        vstd::seq_lib::to_multiset_remove, vstd::seq_lib::to_multiset_len,
        vstd::seq_lib::to_multiset_contains;

    if a.len() == 0 {
        assert(b.to_multiset().len() == 0);
        assert(b.len() == 0);
        assert(oks(a) =~= oks(b));
    } else {
        let x = a.last();
        let a0 = a.drop_last();
        assert(a0.push(x) =~= a);
        assert(a.to_multiset().count(x) > 0);
        assert(b.contains(x));
        let i = choose|i: int| 0 <= i < b.len() && b[i] == x;
        let b0 = b.remove(i);
        assert(a0.to_multiset() =~= b0.to_multiset());
        lemma_oks_perm(a0, b0);
        assert(oks(a) =~= oks(a0).push(Ok::<MieMessage, MieError>(x)));
        assert(oks(b0) =~= oks(b).remove(i));
        assert(oks(b)[i] == Ok::<MieMessage, MieError>(x));
        assert(oks(b).contains(Ok::<MieMessage, MieError>(x)));
        assert(oks(b).to_multiset() =~= oks(b0).to_multiset().insert(Ok::<MieMessage, MieError>(x)));
    }
}

proof fn lemma_accept_step_perm(buf: Seq<MieMessage>, cap: nat, m: MieMessage)
    ensures
        ({
            let (b2, r) = accept_step(buf, cap, m);
            (r + b2).to_multiset() == buf.push(m).to_multiset()
        }),
{
    broadcast use vstd::multiset::group_multiset_axioms, vstd::seq_lib::lemma_multiset_commutative,
        vstd::seq_lib::to_multiset_build;

    law_sorted_run_permutes(buf);
    let (b2, r) = accept_step(buf, cap, m);
    if starts_new_run(buf, m) {
        let e = Seq::<MieMessage>::empty().push(m);
        if e.len() >= cap {
            assert(r + b2 =~= sorted_run(buf) + e);
        } else {
            assert(r + b2 =~= sorted_run(buf) + e);
        }
        assert(buf.push(m) =~= buf + e);
        assert((sorted_run(buf) + e).to_multiset() == sorted_run(buf).to_multiset().add(e.to_multiset()));
        assert((buf + e).to_multiset() == buf.to_multiset().add(e.to_multiset()));
        assert((sorted_run(buf) + e).to_multiset() == buf.push(m).to_multiset());
    } else {
        assert(r + b2 =~= buf.push(m));
    }
}

proof fn lemma_order_fold_perm(items: Seq<Result<MieMessage, MieError>>, cap: nat)
    ensures
        ({
            let (buf, out) = order_fold(items, cap);
            out.to_multiset().add(oks(buf).to_multiset()) == items.to_multiset()
        }),
    decreases items.len(),
{
    broadcast use vstd::multiset::group_multiset_axioms, vstd::seq_lib::lemma_multiset_commutative,
        vstd::seq_lib::to_multiset_build,
        vstd::seq_lib::to_multiset_len, vstd::multiset::lemma_multiset_empty_len;

    if items.len() == 0 {
        assert(oks(Seq::<MieMessage>::empty()) =~= Seq::<Result<MieMessage, MieError>>::empty());
        assert(Seq::<Result<MieMessage, MieError>>::empty().to_multiset().len() == 0);
        assert(Seq::<Result<MieMessage, MieError>>::empty().to_multiset() =~= vstd::multiset::Multiset::empty());
        assert(items =~= Seq::<Result<MieMessage, MieError>>::empty());
    } else {
        let pre = items.drop_last();
        lemma_order_fold_perm(pre, cap);
        assert(pre.push(items.last()) =~= items);
        let (buf, out) = order_fold(pre, cap);
        match items.last() {
            Ok(m) => {
                let (b2, r) = accept_step(buf, cap, m);
                lemma_accept_step_perm(buf, cap, m);
                lemma_oks_perm(r + b2, buf.push(m));
                lemma_oks_concat(r, b2);
                assert(oks(buf.push(m)) =~= oks(buf).push(Ok::<MieMessage, MieError>(m)));
                let om = Ok::<MieMessage, MieError>(m);
                assert(items.to_multiset() == pre.to_multiset().insert(om));
                assert((out + oks(r)).to_multiset() == out.to_multiset().add(oks(r).to_multiset()));
                assert(oks(r + b2).to_multiset() == oks(r).to_multiset().add(oks(b2).to_multiset()));
                assert(oks(buf).push(om).to_multiset() == oks(buf).to_multiset().insert(om));
                assert(out.to_multiset().add(oks(r).to_multiset()).add(oks(b2).to_multiset())
                    =~= out.to_multiset().add(oks(r).to_multiset().add(oks(b2).to_multiset())));
                assert(out.to_multiset().add(oks(buf).to_multiset().insert(om))
                    =~= out.to_multiset().add(oks(buf).to_multiset()).insert(om));
                assert(order_fold(items, cap) == (b2, out + oks(r)));
                assert((out + oks(r)).to_multiset().add(oks(b2).to_multiset()) =~= items.to_multiset());
            },
            Err(e) => {
                law_sorted_run_permutes(buf);
                lemma_oks_perm(sorted_run(buf), buf);
                assert(oks(Seq::<MieMessage>::empty()) =~= Seq::<Result<MieMessage, MieError>>::empty());
                let ee = Err::<MieMessage, MieError>(e);
                let o2 = out + oks(sorted_run(buf));
                assert(items.to_multiset() == pre.to_multiset().insert(ee));
                assert(o2 + seq![ee] =~= o2.push(ee));
                assert(o2.push(ee).to_multiset() == o2.to_multiset().insert(ee));
                assert(o2.to_multiset() == out.to_multiset().add(oks(sorted_run(buf)).to_multiset()));
                assert(Seq::<Result<MieMessage, MieError>>::empty().to_multiset().len() == 0);
        assert(Seq::<Result<MieMessage, MieError>>::empty().to_multiset() =~= vstd::multiset::Multiset::empty());
                assert(o2.push(ee).to_multiset().add(oks(Seq::<MieMessage>::empty()).to_multiset())
                    =~= items.to_multiset());
                assert(order_fold(items, cap) == (Seq::<MieMessage>::empty(), o2 + seq![ee]));
            },
        }
    }
}

/// Over a whole stream the ordering stage only permutes: every record and
/// every error comes out exactly as often as it went in.
pub proof fn law_order_stream_permutes(items: Seq<Result<MieMessage, MieError>>, cap: nat)
    ensures
        order_stream(items, cap).to_multiset() == items.to_multiset(),
{
    broadcast use vstd::multiset::group_multiset_axioms, vstd::seq_lib::lemma_multiset_commutative;

    lemma_order_fold_perm(items, cap);
    let (buf, out) = order_fold(items, cap);
    law_sorted_run_permutes(buf);
    lemma_oks_perm(sorted_run(buf), buf);
}

/// The records read so far split at each group boundary: the run still
/// open, and everything before it with each finished run sorted in place.
pub open spec fn group_fold(msgs: Seq<MieMessage>) -> (Seq<MieMessage>, Seq<MieMessage>)
    decreases msgs.len(),
{
    if msgs.len() == 0 {
        (Seq::empty(), Seq::empty())
    } else {
        let (cur, done) = group_fold(msgs.drop_last());
        let m = msgs.last();
        if starts_new_run(cur, m) {
            (seq![m], done + sorted_run(cur))
        } else {
            (cur.push(m), done)
        }
    }
}

/// Canonical row order: every maximal run of records in one timestamp group
/// stays where it is in the stream and is sorted (see [`sorted_run`]) in
/// place; nothing moves across a run boundary.
pub open spec fn canonical_order(msgs: Seq<MieMessage>) -> Seq<MieMessage> {
    let (cur, done) = group_fold(msgs);
    done + sorted_run(cur)
}

/// Every run of `msgs` stays below the cap, so no run is released early.
pub open spec fn runs_below(msgs: Seq<MieMessage>, cap: nat) -> bool {
    forall|k: int| 0 <= k <= msgs.len() ==> (#[trigger] group_fold(msgs.take(k))).0.len() < cap
}

proof fn lemma_order_fold_runs(msgs: Seq<MieMessage>, cap: nat)
    requires
        runs_below(msgs, cap),
    ensures
        order_fold(oks(msgs), cap) == (group_fold(msgs).0, oks(group_fold(msgs).1)),
    decreases msgs.len(),
{
    let e = Seq::<MieMessage>::empty();
    assert(oks(e) =~= Seq::<Result<MieMessage, MieError>>::empty());
    if msgs.len() > 0 {
        let pre = msgs.drop_last();
        let m = msgs.last();
        assert forall|k: int| 0 <= k <= pre.len() implies (#[trigger] group_fold(pre.take(k))).0.len() < cap by {
            assert(pre.take(k) =~= msgs.take(k));
        }
        lemma_order_fold_runs(pre, cap);
        assert(oks(msgs).drop_last() =~= oks(pre));
        assert(oks(msgs).last() == Ok::<MieMessage, MieError>(m));
        assert(msgs.take(msgs.len() as int) =~= msgs);
        assert(group_fold(msgs.take(msgs.len() as int)).0.len() < cap);
        let (cur, done) = group_fold(pre);
        if starts_new_run(cur, m) {
            lemma_oks_concat(done, sorted_run(cur));
            assert(e.push(m) =~= seq![m]);
        } else {
            assert(oks(done) + oks(e) =~= oks(done));
        }
    } else {
        assert(oks(msgs) =~= Seq::<Result<MieMessage, MieError>>::empty());
    }
}

/// Over a stream of records whose timestamp runs all stay below the cap,
/// the ordering stage gives exactly the canonical order: each maximal run of
/// one timestamp group keeps its place and is sorted in place.
pub proof fn law_order_stream_canonical(msgs: Seq<MieMessage>, cap: nat)
    requires
        runs_below(msgs, cap),
    ensures
        order_stream(oks(msgs), cap) == oks(canonical_order(msgs)),
{
    lemma_order_fold_runs(msgs, cap);
    let (cur, done) = group_fold(msgs);
    lemma_oks_concat(done, sorted_run(cur));
}

/// Putting a stream of decode results into canonical row order.
pub trait OrderIterExt: Sized {
    /// The items in canonical order, runs capped at `max_group` (at least one).
    fn order_rows(self, max_group: usize) -> (out: Vec<Result<MieMessage, MieError>>);
}

fn push_oks(out: &mut Vec<Result<MieMessage, MieError>>, msgs: Vec<MieMessage>)
    ensures
        final(out)@ == old(out)@ + oks(msgs@),
{
    let ghost input = msgs@;
    let mut rest = reversed(msgs);
    let ghost start = out@;
    let ghost mut done: Seq<MieMessage> = Seq::empty();
    while rest.len() > 0
        invariant
            input == done + rest@.reverse(),
            out@ == start + oks(done),
        decreases rest.len(),
    {
        let m = rest.pop().unwrap();
        let ghost d0 = done;
        proof {
            done = done.push(m);
            assert(input =~= done + rest@.reverse());
        }
        out.push(Ok(m));
        assert(out@ =~= start + oks(done));
    }
    assert(input =~= done);
}

impl OrderIterExt for Vec<Result<MieMessage, MieError>> {
    fn order_rows(self, max_group: usize) -> (out: Vec<Result<MieMessage, MieError>>)
        ensures
            out@ == order_stream(self@, if max_group < 1 { 1 } else { max_group as nat }),
    {
        let ghost input = self@;
        let ghost cap: nat = if max_group < 1 { 1 } else { max_group as nat };
        let mut stage = Ordered::new(max_group);
        let mut rest = reversed(self);
        let mut out: Vec<Result<MieMessage, MieError>> = Vec::new();
        let ghost mut done: Seq<Result<MieMessage, MieError>> = Seq::empty();
        while rest.len() > 0
            invariant
                input == done + rest@.reverse(),
                stage.cap() == cap,
                (stage.buffered(), out@) == order_fold(done, cap),
            decreases rest.len(),
        {
            let item = rest.pop().unwrap();
            let ghost d0 = done;
            proof {
                done = done.push(item);
                assert(done.drop_last() =~= d0);
                assert(input =~= done + rest@.reverse());
            }
            match item {
                Ok(m) => {
                    let ready = stage.accept(m);
                    push_oks(&mut out, ready);
                },
                Err(e) => {
                    let ready = stage.flush();
                    push_oks(&mut out, ready);
                    out.push(Err(e));
                },
            }
        }
        assert(input =~= done);
        let ready = stage.flush();
        push_oks(&mut out, ready);
        out
    }
}

} // verus!
