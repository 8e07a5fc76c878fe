//! Message filtering. A message passes when it matches no `exclude_*` set
//! and every non-empty `include_*` set holds its value; empty sets are
//! ignored on both sides.
use vstd::prelude::*;

use crate::error::MieError;
use crate::models::{Bus, MieMessage};

verus! {

/// The filter sets. An empty set is inactive.
#[derive(Debug, Clone)]
pub struct FilterConfig {
    pub exclude_types: Vec<u8>,
    pub exclude_rts: Vec<u8>,
    pub exclude_buses: Vec<Bus>,
    pub exclude_subaddresses: Vec<u8>,
    pub include_types: Vec<u8>,
    pub include_rts: Vec<u8>,
    pub include_buses: Vec<Bus>,
    pub include_subaddresses: Vec<u8>,
}

impl Default for FilterConfig {
    fn default() -> (f: FilterConfig)
        ensures
            f.exclude_types@.len() == 0,
            f.exclude_rts@.len() == 0,
            f.exclude_buses@.len() == 0,
            f.exclude_subaddresses@.len() == 0,
            f.include_types@.len() == 0,
            f.include_rts@.len() == 0,
            f.include_buses@.len() == 0,
            f.include_subaddresses@.len() == 0,
    {
        FilterConfig {
            exclude_types: Vec::new(),
            exclude_rts: Vec::new(),
            exclude_buses: Vec::new(),
            exclude_subaddresses: Vec::new(),
            include_types: Vec::new(),
            include_rts: Vec::new(),
            include_buses: Vec::new(),
            include_subaddresses: Vec::new(),
        }
    }
}

/// Some filter set is non-empty.
pub open spec fn spec_active(f: FilterConfig) -> bool {
    f.exclude_types@.len() > 0 || f.exclude_rts@.len() > 0 || f.exclude_buses@.len() > 0
        || f.exclude_subaddresses@.len() > 0 || f.include_types@.len() > 0 || f.include_rts@.len()
        > 0 || f.include_buses@.len() > 0 || f.include_subaddresses@.len() > 0
}

/// The message matches one of the exclude sets. A message without a
/// Command Word has no RT or subaddress to match.
pub open spec fn hits_exclude(f: FilterConfig, msg: MieMessage) -> bool {
    ||| f.exclude_types@.contains(msg.type_word.message_type)
    ||| f.exclude_buses@.contains(msg.type_word.bus)
    ||| (msg.command_word matches Some(c) && f.exclude_rts@.contains(c.rt))
    ||| (msg.command_word matches Some(c) && f.exclude_subaddresses@.contains(c.subaddress))
}

/// Every non-empty include set holds the message's value. A message without
/// a Command Word fails a non-empty RT or subaddress include set.
pub open spec fn meets_includes(f: FilterConfig, msg: MieMessage) -> bool {
    &&& (f.include_types@.len() == 0 || f.include_types@.contains(msg.type_word.message_type))
    &&& (f.include_buses@.len() == 0 || f.include_buses@.contains(msg.type_word.bus))
    &&& (f.include_rts@.len() == 0 || (msg.command_word matches Some(c) && f.include_rts@.contains(
        c.rt,
    )))
    &&& (f.include_subaddresses@.len() == 0 || (msg.command_word matches Some(c)
        && f.include_subaddresses@.contains(c.subaddress)))
}

/// The message is dropped.
pub open spec fn spec_excluded(f: FilterConfig, msg: MieMessage) -> bool {
    hits_exclude(f, msg) || !meets_includes(f, msg)
}

fn holds_u8(v: &Vec<u8>, x: u8) -> (b: bool)
    ensures
        b == v@.contains(x),
{
    let mut i: usize = 0;
    while i < v.len()
        invariant
            i <= v.len(),
            forall|k: int| 0 <= k < i ==> v@[k] != x,
        decreases v.len() - i,
    {
        if v[i] == x {
            assert(v@[i as int] == x);
            return true;
        }
        i = i + 1;
    }
    false
}

fn holds_bus(v: &Vec<Bus>, x: Bus) -> (b: bool)
    ensures
        b == v@.contains(x),
{
    let mut i: usize = 0;
    while i < v.len()
        invariant
            i <= v.len(),
            forall|k: int| 0 <= k < i ==> v@[k] != x,
        decreases v.len() - i,
    {
        if v[i] == x {
            assert(v@[i as int] == x);
            return true;
        }
        i = i + 1;
    }
    false
}

impl FilterConfig {
    pub fn is_active(&self) -> (b: bool)
        ensures
            b == spec_active(*self),
    {
        self.exclude_types.len() > 0 || self.exclude_rts.len() > 0 || self.exclude_buses.len() > 0
            || self.exclude_subaddresses.len() > 0 || self.include_types.len() > 0
            || self.include_rts.len() > 0 || self.include_buses.len() > 0
            || self.include_subaddresses.len() > 0
    }

    /// True if `msg` is dropped from the output (see [`spec_excluded`]).
    pub fn should_exclude(&self, msg: &MieMessage) -> (b: bool)
        ensures
            b == spec_excluded(*self, *msg),
    {
        let message_type = msg.type_word.message_type;
        let bus = msg.type_word.bus;
        if holds_u8(&self.exclude_types, message_type) {
            return true;
        }
        match msg.command_word {
            Some(cw) => {
                if holds_u8(&self.exclude_rts, cw.rt) {
                    return true;
                }
            },
            None => {},
        }
        if holds_bus(&self.exclude_buses, bus) {
            return true;
        }
        match msg.command_word {
            Some(cw) => {
                if holds_u8(&self.exclude_subaddresses, cw.subaddress) {
                    return true;
                }
            },
            None => {},
        }
        if self.include_types.len() > 0 && !holds_u8(&self.include_types, message_type) {
            return true;
        }
        if self.include_buses.len() > 0 && !holds_bus(&self.include_buses, bus) {
            return true;
        }
        if self.include_rts.len() > 0 {
            match msg.command_word {
                Some(cw) => {
                    if !holds_u8(&self.include_rts, cw.rt) {
                        return true;
                    }
                },
                None => {
                    return true;
                },
            }
        }
        if self.include_subaddresses.len() > 0 {
            match msg.command_word {
                Some(cw) => {
                    if !holds_u8(&self.include_subaddresses, cw.subaddress) {
                        return true;
                    }
                },
                None => {
                    return true;
                },
            }
        }
        false
    }
}

/// A filter in use, with the tally of what it passed and dropped.
pub struct Filtered {
    filters: FilterConfig,
    passed: u64,
    excluded: u64,
}

impl Filtered {
    pub closed spec fn config(&self) -> FilterConfig {
        self.filters
    }

    pub closed spec fn passed_count(&self) -> nat {
        self.passed as nat
    }

    pub closed spec fn excluded_count(&self) -> nat {
        self.excluded as nat
    }

    /// A filter with nothing seen yet.
    pub fn new(filters: FilterConfig) -> (f: Filtered)
        ensures
            f.config() == filters,
            f.passed_count() == 0,
            f.excluded_count() == 0,
    {
        Filtered { filters, passed: 0, excluded: 0 }
    }

    /// Decides one message and counts it as passed or excluded.
    pub fn offer(&mut self, msg: &MieMessage) -> (pass: bool)
        requires
            old(self).passed_count() < u64::MAX,
            old(self).excluded_count() < u64::MAX,
        ensures
            pass == !spec_excluded(old(self).config(), *msg),
            final(self).config() == old(self).config(),
            final(self).passed_count() == old(self).passed_count() + (if pass { 1int } else { 0int }),
            final(self).excluded_count() == old(self).excluded_count() + (if pass { 0int } else { 1int }),
    {
        if self.filters.should_exclude(msg) {
            self.excluded = self.excluded + 1;
            false
        } else {
            self.passed = self.passed + 1;
            true
        }
    }

    pub fn passed(&self) -> (n: u64)
        ensures
            n == self.passed_count(),
    {
        self.passed
    }

    pub fn excluded(&self) -> (n: u64)
        ensures
            n == self.excluded_count(),
    {
        self.excluded
    }

    /// Whether any filter set is active.
    pub fn is_active(&self) -> (b: bool)
        ensures
            b == spec_active(self.config()),
    {
        self.filters.is_active()
    }
}

/// The item is kept by the filter: an error is always kept, a message when
/// it is not excluded.
pub open spec fn kept(f: FilterConfig, item: Result<MieMessage, MieError>) -> bool {
    match item {
        Ok(m) => !spec_excluded(f, m),
        Err(_) => true,
    }
}

/// Filtering a stream of decode results.
pub trait FilterIterExt: Sized {
    /// The items in order, with the excluded messages removed; errors pass
    /// through.
    fn filter_messages(self, filters: FilterConfig) -> (out: Vec<Result<MieMessage, MieError>>);
}

impl FilterIterExt for Vec<Result<MieMessage, MieError>> {
    fn filter_messages(self, filters: FilterConfig) -> (out: Vec<Result<MieMessage, MieError>>)
        ensures
            out@ == self@.filter(|item: Result<MieMessage, MieError>| kept(filters, item)),
    {
        let ghost input = self@;
        let mut items = self;
        let mut out: Vec<Result<MieMessage, MieError>> = Vec::new();
        let mut rest: Vec<Result<MieMessage, MieError>> = Vec::new();
        // Take the items from the back so each can be moved, then keep them
        // in their arrival order.
        while items.len() > 0
            invariant
                input == items@ + rest@.reverse(),
            decreases items.len(),
        {
            let item = items.pop().unwrap();
            let ghost r0 = rest@;
            rest.push(item);
            assert(rest@.reverse() =~= seq![item] + r0.reverse());
            assert(input =~= items@ + rest@.reverse());
        }
        assert(input =~= rest@.reverse());
        let ghost pred = |item: Result<MieMessage, MieError>| kept(filters, item);
        let ghost taken: Seq<Result<MieMessage, MieError>> = Seq::empty();
        while rest.len() > 0
            invariant
                input == taken + rest@.reverse(),
                out@ == taken.filter(pred),
                pred == (|item: Result<MieMessage, MieError>| kept(filters, item)),
            decreases rest.len(),
        {
            let item = rest.pop().unwrap();
            let ghost t0 = taken;
            proof {
                taken = taken.push(item);
                reveal(Seq::filter);
                assert(taken.drop_last() =~= t0);
            }
            let keep = match &item {
                Ok(m) => !filters.should_exclude(m),
                Err(_) => true,
            };
            if keep {
                out.push(item);
            }
            assert(input =~= taken + rest@.reverse());
        }
        assert(input =~= taken);
        out
    }
}

/// A filter with every set empty drops nothing.
pub proof fn law_inactive_filter_keeps_everything(f: FilterConfig, msg: MieMessage)
    requires
        !spec_active(f),
    ensures
        !spec_excluded(f, msg),
{
    assert(!f.exclude_types@.contains(msg.type_word.message_type));
    assert(!f.exclude_buses@.contains(msg.type_word.bus));
    if let Some(c) = msg.command_word {
        assert(!f.exclude_rts@.contains(c.rt));
        assert(!f.exclude_subaddresses@.contains(c.subaddress));
    }
}

/// What each filter set does to a message, set by set: a value in any
/// exclude set drops it; a non-empty include set drops it unless the set
/// holds its value, and a message without a Command Word has no RT or
/// subaddress to hold. A message caught by none of these is kept.
pub proof fn law_filter_sets(f: FilterConfig, msg: MieMessage)
    ensures
        f.exclude_types@.contains(msg.type_word.message_type) ==> spec_excluded(f, msg),
        f.exclude_buses@.contains(msg.type_word.bus) ==> spec_excluded(f, msg),
        msg.command_word matches Some(c) && f.exclude_rts@.contains(c.rt) ==> spec_excluded(f, msg),
        msg.command_word matches Some(c) && f.exclude_subaddresses@.contains(c.subaddress) ==> spec_excluded(
            f,
            msg,
        ),
        f.include_types@.len() > 0 && !f.include_types@.contains(msg.type_word.message_type) ==> spec_excluded(
            f,
            msg,
        ),
        f.include_buses@.len() > 0 && !f.include_buses@.contains(msg.type_word.bus) ==> spec_excluded(f, msg),
        f.include_rts@.len() > 0 && !(msg.command_word matches Some(c) && f.include_rts@.contains(c.rt))
            ==> spec_excluded(f, msg),
        f.include_subaddresses@.len() > 0 && !(msg.command_word matches Some(c)
            && f.include_subaddresses@.contains(c.subaddress)) ==> spec_excluded(f, msg),
        spec_excluded(f, msg) ==> {
            ||| f.exclude_types@.contains(msg.type_word.message_type)
            ||| f.exclude_buses@.contains(msg.type_word.bus)
            ||| (msg.command_word matches Some(c) && (f.exclude_rts@.contains(c.rt)
                || f.exclude_subaddresses@.contains(c.subaddress)))
            ||| (f.include_types@.len() > 0 && !f.include_types@.contains(msg.type_word.message_type))
            ||| (f.include_buses@.len() > 0 && !f.include_buses@.contains(msg.type_word.bus))
            ||| (f.include_rts@.len() > 0 && !(msg.command_word matches Some(c) && f.include_rts@.contains(
                c.rt,
            )))
            ||| (f.include_subaddresses@.len() > 0 && !(msg.command_word matches Some(c)
                && f.include_subaddresses@.contains(c.subaddress)))
        },
{
}

/// An exclusion wins over any inclusion: a message matching an exclude set
/// is dropped whatever the include sets hold.
pub proof fn law_exclusion_wins(f: FilterConfig, msg: MieMessage)
    requires
        hits_exclude(f, msg),
    ensures
        spec_excluded(f, msg),
{
}

} // verus!
