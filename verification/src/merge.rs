//! Multi-file merge: the manifest and wildcard rules for naming inputs, the
//! merge key that orders records across files, the calendar-lock check on
//! each input, cross-recorder duplicate collapsing, and the k-way merge
//! itself as a state machine that the caller feeds with each input's next
//! record.
use vstd::prelude::*;

use crate::delta::{observe_step, outcome_value, DeltaTracker};
use crate::error::{spec_kind, MieError, MieErrorKind};
use crate::models::{CommandWord, DeltaScope, MieMessage, Timestamp, TypeWord, irig_total_us};
use crate::text::{chars_of, push_str, string_from_chars};

verus! {

/// Maximum number of input files one merge may process.
pub const MAX_MERGE_FILES: usize = 256;

// ── Manifests ─────────────────────────────────────────────────────────

/// The line with at most one trailing carriage return removed.
pub open spec fn strip_cr(line: Seq<char>) -> Seq<char> {
    if line.len() > 0 && line.last() == '\r' {
        line.drop_last()
    } else {
        line
    }
}

/// An ASCII space or tab.
pub open spec fn is_blank(c: char) -> bool {
    c == ' ' || c == '\t'
}

/// The line without leading and trailing spaces and tabs.
pub open spec fn trim_blanks(s: Seq<char>) -> Seq<char>
    decreases s.len(),
{
    if s.len() > 0 && is_blank(s[0]) {
        trim_blanks(s.drop_first())
    } else if s.len() > 0 && is_blank(s.last()) {
        trim_blanks(s.drop_last())
    } else {
        s
    }
}

/// The path a manifest line names, if any: the line without a trailing
/// carriage return and surrounding blanks, unless that is empty or starts
/// with `#`.
pub open spec fn manifest_entry(line: Seq<char>) -> Option<Seq<char>> {
    let t = trim_blanks(strip_cr(line));
    if t.len() == 0 || t[0] == '#' {
        None
    } else {
        Some(t)
    }
}

/// The entries of the lines that name a path, in order.
pub open spec fn entries_of(lines: Seq<Seq<char>>) -> Seq<Seq<char>>
    decreases lines.len(),
{
    if lines.len() == 0 {
        Seq::empty()
    } else {
        entries_of(lines.drop_last()) + match manifest_entry(lines.last()) {
            Some(e) => seq![e],
            None => Seq::empty(),
        }
    }
}

/// The entries of a manifest: one per line, lines split at `\n`, in order.
pub open spec fn manifest_entries(text: Seq<char>) -> Seq<Seq<char>> {
    entries_of(crate::text::split_on(text, seq!['\n']))
}

fn trim_blank_range(v: &Vec<char>) -> (r: Vec<char>)
    ensures
        r@ == trim_blanks(v@),
{
    let mut a: usize = 0;
    let mut b: usize = v.len();
    assert(v@.subrange(0, v@.len() as int) =~= v@);
    while a < b && (v[a] == ' ' || v[a] == '\t')
        invariant
            a <= b <= v.len(),
            b == v.len(),
            trim_blanks(v@) == trim_blanks(v@.subrange(a as int, b as int)),
        decreases b - a,
    {
        assert(v@.subrange(a as int, b as int).drop_first() =~= v@.subrange(a + 1, b as int));
        a = a + 1;
    }
    while a < b && (v[b - 1] == ' ' || v[b - 1] == '\t')
        invariant
            a <= b <= v.len(),
            trim_blanks(v@) == trim_blanks(v@.subrange(a as int, b as int)),
            a < b ==> !is_blank(v@[a as int]),
        decreases b - a,
    {
        assert(v@.subrange(a as int, b as int).drop_last() =~= v@.subrange(a as int, b - 1));
        assert(v@.subrange(a as int, b as int)[0] == v@[a as int]);
        b = b - 1;
    }
    let mut r: Vec<char> = Vec::new();
    let mut i: usize = a;
    while i < b
        invariant
            a <= i <= b <= v.len(),
            r@ == v@.subrange(a as int, i as int),
        decreases b - i,
    {
        r.push(v[i]);
        i = i + 1;
        assert(r@ =~= v@.subrange(a as int, i as int));
    }
    proof {
        let s = v@.subrange(a as int, b as int);
        if s.len() > 0 {
            assert(s[0] == v@[a as int]);
            assert(s.last() == v@[b - 1]);
        }
    }
    r
}

/// The path a manifest line names (see [`manifest_entry`]).
pub fn manifest_line_entry(line: &Vec<char>) -> (r: Option<Vec<char>>)
    ensures
        match r {
            Some(v) => manifest_entry(line@) == Some(v@),
            None => manifest_entry(line@) is None,
        },
{
    let mut body: Vec<char> = Vec::new();
    let n = line.len();
    let end = if n > 0 && line[n - 1] == '\r' {
        n - 1
    } else {
        n
    };
    let mut i: usize = 0;
    while i < end
        invariant
            i <= end <= n == line@.len(),
            body@ == line@.subrange(0, i as int),
        decreases end - i,
    {
        body.push(line[i]);
        i = i + 1;
        assert(body@ =~= line@.subrange(0, i as int));
    }
    assert(body@ =~= strip_cr(line@));
    let t = trim_blank_range(&body);
    if t.len() == 0 || t[0] == '#' {
        None
    } else {
        Some(t)
    }
}

/// The input paths a manifest lists (see [`manifest_entries`]).
pub fn parse_manifest(text: &str) -> (out: Vec<String>)
    ensures
        out@.map_values(|s: String| s@) == manifest_entries(text@),
{
    let chars = chars_of(text);
    let mut nl: Vec<char> = Vec::new();
    nl.push('\n');
    let lines = crate::text::split_chars(&chars, &nl);
    assert(nl@ =~= seq!['\n']);
    let ghost all = crate::text::views(lines@);
    let mut out: Vec<String> = Vec::new();
    let mut i: usize = 0;
    while i < lines.len()
        invariant
            i <= lines@.len(),
            all == crate::text::views(lines@),
            all == crate::text::split_on(text@, seq!['\n']),
            out@.map_values(|s: String| s@) == entries_of(all.take(i as int)),
        decreases lines.len() - i,
    {
        proof {
            assert(all.take(i + 1).drop_last() =~= all.take(i as int));
            assert(all[i as int] == lines@[i as int]@);
        }
        match manifest_line_entry(&lines[i]) {
            Some(v) => {
                out.push(string_from_chars(&v));
                assert(out@.map_values(|s: String| s@) =~= entries_of(all.take(i + 1)));
            },
            None => {
                assert(out@.map_values(|s: String| s@) =~= entries_of(all.take(i + 1)));
            },
        }
        i = i + 1;
    }
    assert(all.take(lines@.len() as int) =~= all);
    out
}

// ── Wildcards ─────────────────────────────────────────────────────────

/// Whole-string wildcard match of `p[i..]` against `t[j..]`: `*` matches any
/// run (including an empty one), `?` exactly one character, and every
/// other character itself.
pub open spec fn glob_at(p: Seq<char>, t: Seq<char>, i: int, j: int) -> bool
    decreases p.len() - i, t.len() - j,
{
    if i < 0 || j < 0 || i >= p.len() {
        j >= t.len()
    } else if p[i] == '*' {
        glob_at(p, t, i + 1, j) || (j < t.len() && glob_at(p, t, i, j + 1))
    } else {
        j < t.len() && (p[i] == '?' || p[i] == t[j]) && glob_at(p, t, i + 1, j + 1)
    }
}

/// The whole of `name` matches the whole of `pattern`.
pub open spec fn glob_matches(pattern: Seq<char>, name: Seq<char>) -> bool {
    glob_at(pattern, name, 0, 0)
}

/// `p` holds no wildcard.
pub open spec fn no_wildcards(p: Seq<char>) -> bool {
    forall|k: int| 0 <= k < p.len() ==> #[trigger] p[k] != '*' && p[k] != '?'
}

proof fn lemma_literal_at(p: Seq<char>, t: Seq<char>, i: int, j: int)
    requires
        no_wildcards(p),
        0 <= i <= p.len(),
        0 <= j <= t.len(),
    ensures
        glob_at(p, t, i, j) <==> p.skip(i) == t.skip(j),
    decreases p.len() - i,
{
    if i < p.len() {
        assert(p[i] != '*' && p[i] != '?');
        if j < t.len() {
            lemma_literal_at(p, t, i + 1, j + 1);
            if p.skip(i) == t.skip(j) {
                assert(p.skip(i)[0] == t.skip(j)[0]);
                assert(p.skip(i + 1) =~= p.skip(i).drop_first());
                assert(t.skip(j + 1) =~= t.skip(j).drop_first());
            }
            if p[i] == t[j] && p.skip(i + 1) == t.skip(j + 1) {
                assert forall|k: int| 0 <= k < p.skip(i).len() implies p.skip(i)[k] == t.skip(j)[k] by {
                    if k > 0 {
                        assert(p.skip(i)[k] == p.skip(i + 1)[k - 1]);
                        assert(t.skip(j)[k] == t.skip(j + 1)[k - 1]);
                    }
                }
                assert(p.skip(i) =~= t.skip(j));
            }
        } else {
            assert(p.skip(i).len() != t.skip(j).len());
        }
    } else {
        if j < t.len() {
            assert(p.skip(i).len() != t.skip(j).len());
        } else {
            assert(p.skip(i) =~= t.skip(j));
        }
    }
}

/// A pattern without `*` or `?` matches exactly the name equal to it.
pub proof fn law_literal_pattern_matches_itself(pattern: Seq<char>, name: Seq<char>)
    requires
        no_wildcards(pattern),
    ensures
        glob_matches(pattern, name) <==> pattern == name,
{
    lemma_literal_at(pattern, name, 0, 0);
    assert(pattern.skip(0) =~= pattern);
    assert(name.skip(0) =~= name);
}

proof fn lemma_star_at(t: Seq<char>, j: int)
    requires
        0 <= j <= t.len(),
    ensures
        glob_at(seq!['*'], t, 0, j),
    decreases t.len() - j,
{
    let p = seq!['*'];
    assert(p.len() == 1 && p[0] == '*');
    if j < t.len() {
        lemma_star_at(t, j + 1);
        assert(glob_at(p, t, 0, j + 1));
    } else {
        assert(glob_at(p, t, 1, j));
    }
    assert(glob_at(p, t, 0, j) == (glob_at(p, t, 1, j) || (j < t.len() && glob_at(p, t, 0, j + 1))));
}

/// The pattern `*` matches every name.
pub proof fn law_star_matches_everything(name: Seq<char>)
    ensures
        glob_matches(seq!['*'], name),
{
    lemma_star_at(name, 0);
}

/// Whole-string wildcard match (see [`glob_matches`]).
pub fn glob_match(pattern: &str, name: &str) -> (b: bool)
    ensures
        b == glob_matches(pattern@, name@),
{
    let pat = chars_of(pattern);
    let txt = chars_of(name);
    let n = pat.len();
    let m = txt.len();
    // Row i holds, for every column j, whether pat[i..] matches txt[j..]:
    // columns below m in a vector, column m on its own.
    let mut next: Vec<bool> = Vec::new();
    let mut j: usize = 0;
    while j < m
        invariant
            j <= m,
            m == txt@.len(),
            n == pat@.len(),
            next@.len() == j,
            forall|k: int| 0 <= k < j ==> next@[k] == glob_at(pat@, txt@, n as int, k),
        decreases m - j,
    {
        next.push(false);
        j = j + 1;
    }
    let mut next_end = true;
    let mut i: usize = n;
    while i > 0
        invariant
            i <= n == pat@.len(),
            m == txt@.len(),
            next@.len() == m,
            forall|k: int| 0 <= k < m ==> next@[k] == glob_at(pat@, txt@, i as int, k),
            next_end == glob_at(pat@, txt@, i as int, m as int),
        decreases i,
    {
        let row = i - 1;
        let c = pat[row];
        let cur_end = c == '*' && next_end;
        assert(cur_end == glob_at(pat@, txt@, row as int, m as int));
        let mut cur: Vec<bool> = Vec::new();
        let mut z: usize = 0;
        while z < m
            invariant
                z <= m,
                cur@.len() == z,
            decreases m - z,
        {
            cur.push(false);
            z = z + 1;
        }
        let mut later = cur_end;
        let mut col: usize = m;
        while col > 0
            invariant
                col <= m == txt@.len(),
                row + 1 == i,
                i <= n == pat@.len(),
                c == pat@[row as int],
                next@.len() == m,
                cur@.len() == m,
                forall|k: int| 0 <= k < m ==> next@[k] == glob_at(pat@, txt@, i as int, k),
                next_end == glob_at(pat@, txt@, i as int, m as int),
                forall|q: int| col <= q < m ==> cur@[q] == glob_at(pat@, txt@, row as int, q),
                later == glob_at(pat@, txt@, row as int, col as int),
            decreases col,
        {
            let k = col - 1;
            let after = if k + 1 == m {
                next_end
            } else {
                next[k + 1]
            };
            let v = if c == '*' {
                next[k] || later
            } else {
                (c == '?' || c == txt[k]) && after
            };
            cur.set(k, v);
            later = v;
            col = k;
        }
        next = cur;
        next_end = cur_end;
        i = row;
    }
    if m == 0 {
        next_end
    } else {
        next[0]
    }
}

// ── Merge key and mergeability ────────────────────────────────────────

/// The merge key `(microseconds, file index, sequence within the file)`
/// orders records totally, ties included.
pub open spec fn key_lt(a: (u64, usize, u64), b: (u64, usize, u64)) -> bool {
    a.0 < b.0 || (a.0 == b.0 && (a.1 < b.1 || (a.1 == b.1 && a.2 < b.2)))
}

/// Whether merge key `a` orders before merge key `b`.
pub fn merge_key_lt(a: (u64, usize, u64), b: (u64, usize, u64)) -> (r: bool)
    ensures
        r == key_lt(a, b),
{
    a.0 < b.0 || (a.0 == b.0 && (a.1 < b.1 || (a.1 == b.1 && a.2 < b.2)))
}

/// The microsecond merge key of a record: the absolute IRIG time. Merge
/// inputs are IRIG by construction (see [`check_mergeable`]); a Standard
/// record would key at zero.
pub open spec fn spec_merge_micros(msg: MieMessage) -> u64 {
    match msg.timestamp {
        Timestamp::Irig(t) => irig_total_us(t) as u64,
        Timestamp::Standard(_) => 0,
    }
}

pub fn merge_micros(msg: &MieMessage) -> (us: u64)
    ensures
        us == spec_merge_micros(*msg),
{
    match msg.timestamp.irig_microseconds() {
        Some(us) => us,
        None => 0,
    }
}

/// Why an input's leading record cannot anchor an absolute timeline.
pub open spec fn unmergeable_detail(msg: MieMessage) -> Option<Seq<char>> {
    match msg.timestamp {
        Timestamp::Standard(_) => Some("resolves to the Standard timestamp format"@),
        Timestamp::Irig(t) => if t.freerun {
            Some("leads with a freerun IRIG record (no calendar time)"@)
        } else {
            None
        },
    }
}

/// Rejects an input whose leading record is a Standard counter or a
/// free-running IRIG time.
pub fn check_mergeable(msg: &MieMessage, file_index: usize, path: &str) -> (r: Result<(), MieError>)
    ensures
        match unmergeable_detail(*msg) {
            None => r is Ok,
            Some(d) => r matches Err(MieError::IncompatibleMergeInputs { file_index: fi, path: p, detail }) && fi
                == file_index && p@ == path@ && detail@ == d,
        },
{
    let mut p = String::new();
    push_str(&mut p, path);
    match msg.timestamp {
        Timestamp::Standard(_) => {
            let mut detail = String::new();
            push_str(&mut detail, "resolves to the Standard timestamp format");
            Err(MieError::IncompatibleMergeInputs { file_index, path: p, detail })
        },
        Timestamp::Irig(t) => {
            if t.freerun {
                let mut detail = String::new();
                push_str(&mut detail, "leads with a freerun IRIG record (no calendar time)");
                Err(MieError::IncompatibleMergeInputs { file_index, path: p, detail })
            } else {
                Ok(())
            }
        },
    }
}

// ── Cross-recorder duplicates ─────────────────────────────────────────

/// Smallest accepted cap on the de-duplication survivor set.
pub const MAX_COLLAPSE_SURVIVORS_MIN: usize = 1;

/// Largest accepted cap on the de-duplication survivor set.
pub const MAX_COLLAPSE_SURVIVORS_MAX: usize = 1_048_576;

/// Default cap on the de-duplication survivor set.
pub const DEFAULT_MAX_COLLAPSE_SURVIVORS: usize = 4096;

/// What a recorder reads off the wire: the Type Word, Command and Status
/// Words, Error Word and data words. Timestamp, offset, MUX and DELTA are
/// left out.
pub struct DedupKey {
    pub type_word: TypeWord,
    pub command_word: Option<CommandWord>,
    pub command_word_2: Option<CommandWord>,
    pub status_word: Option<u16>,
    pub status_word_2: Option<u16>,
    pub error_word: Option<u16>,
    pub data_words: Vec<u16>,
}

/// The wire content of a record, as compared for duplicates.
pub type WireContent = (TypeWord, Option<CommandWord>, Option<CommandWord>, Option<u16>, Option<u16>, Option<u16>, Seq<u16>);

/// The wire content of a message.
pub open spec fn wire_content(msg: MieMessage) -> WireContent {
    (
        msg.type_word,
        msg.command_word,
        msg.command_word_2,
        msg.status_word,
        msg.status_word_2,
        msg.error_word,
        msg.data_words@,
    )
}

/// The wire content a key holds.
pub open spec fn key_content(k: DedupKey) -> WireContent {
    (k.type_word, k.command_word, k.command_word_2, k.status_word, k.status_word_2, k.error_word, k.data_words@)
}

impl DedupKey {
    /// The key of a message.
    pub fn of(msg: &MieMessage) -> (k: DedupKey)
        ensures
            key_content(k) == wire_content(*msg),
    {
        DedupKey {
            type_word: msg.type_word,
            command_word: msg.command_word,
            command_word_2: msg.command_word_2,
            status_word: msg.status_word,
            status_word_2: msg.status_word_2,
            error_word: msg.error_word,
            data_words: msg.data_words.to_vec(),
        }
    }
}

fn same_command(a: Option<CommandWord>, b: Option<CommandWord>) -> (r: bool)
    ensures
        r == (a == b),
{
    match (a, b) {
        (None, None) => true,
        (Some(x), Some(y)) => x == y,
        _ => false,
    }
}

fn same_word(a: Option<u16>, b: Option<u16>) -> (r: bool)
    ensures
        r == (a == b),
{
    match (a, b) {
        (None, None) => true,
        (Some(x), Some(y)) => x == y,
        _ => false,
    }
}

fn same_words(a: &Vec<u16>, b: &Vec<u16>) -> (r: bool)
    ensures
        r == (a@ == b@),
{
    if a.len() != b.len() {
        return false;
    }
    let mut i: usize = 0;
    while i < a.len()
        invariant
            i <= a.len() == b.len(),
            forall|k: int| 0 <= k < i ==> a@[k] == b@[k],
        decreases a.len() - i,
    {
        if a[i] != b[i] {
            return false;
        }
        i = i + 1;
    }
    assert(a@ =~= b@);
    true
}

fn same_content(a: &DedupKey, b: &DedupKey) -> (r: bool)
    ensures
        r == (key_content(*a) == key_content(*b)),
{
    a.type_word == b.type_word && same_command(a.command_word, b.command_word) && same_command(
        a.command_word_2,
        b.command_word_2,
    ) && same_word(a.status_word, b.status_word) && same_word(a.status_word_2, b.status_word_2)
        && same_word(a.error_word, b.error_word) && same_words(&a.data_words, &b.data_words)
}

/// A survivor: when it was seen, from which input, and what it carried.
pub type Survivor = (u64, usize, WireContent);

/// The survivor is within `window` microseconds of `us`, either side.
pub open spec fn within_window(s: Survivor, us: u64, window: u64) -> bool {
    (if s.0 >= us { s.0 - us } else { us - s.0 }) <= window
}

/// The survivors kept for a record at `us`.
pub open spec fn retained(survivors: Seq<Survivor>, us: u64, window: u64) -> Seq<Survivor>
    decreases survivors.len(),
{
    if survivors.len() == 0 {
        Seq::empty()
    } else {
        retained(survivors.drop_last(), us, window) + (if within_window(survivors.last(), us, window) {
            seq![survivors.last()]
        } else {
            Seq::empty()
        })
    }
}

/// Some kept survivor from another input carries the same content.
pub open spec fn duplicated_in(kept: Seq<Survivor>, file_index: usize, content: WireContent) -> bool {
    exists|i: int| 0 <= i < kept.len() && kept[i].1 != file_index && #[trigger] kept[i].2 == content
}

/// One de-duplication step: survivors outside the window are dropped; a
/// record duplicating a survivor from another input is reported and not
/// kept; any other record is kept, after the oldest survivors make room
/// when the set is at its cap. Returns the verdict and the new survivors.
pub open spec fn dedup_step(survivors: Seq<Survivor>, window: u64, cap: nat, us: u64, file_index: usize, content: WireContent) -> (bool, Seq<Survivor>) {
    let kept = retained(survivors, us, window);
    if duplicated_in(kept, file_index, content) {
        (true, kept)
    } else {
        let room = if kept.len() >= cap { kept.skip(kept.len() - cap + 1) } else { kept };
        (false, room.push((us, file_index, content)))
    }
}

/// Sliding time-window de-duplicator over the merged stream, with a cap on
/// the survivor set.
pub struct DedupWindow {
    window_us: u64,
    max_survivors: usize,
    survivors: Vec<(u64, usize, DedupKey)>,
    capped: bool,
}

/// The survivors as they are compared.
pub open spec fn survivor_views(v: Seq<(u64, usize, DedupKey)>) -> Seq<Survivor> {
    v.map_values(|s: (u64, usize, DedupKey)| (s.0, s.1, key_content(s.2)))
}

impl DedupWindow {
    pub closed spec fn window(&self) -> u64 {
        self.window_us
    }

    pub closed spec fn cap(&self) -> nat {
        self.max_survivors as nat
    }

    pub closed spec fn kept(&self) -> Seq<Survivor> {
        survivor_views(self.survivors@)
    }

    /// Whether the cap has ever made room by dropping a survivor.
    pub closed spec fn has_capped(&self) -> bool {
        self.capped
    }

    #[verifier::type_invariant]
    closed spec fn inv(&self) -> bool {
        self.max_survivors >= 1
    }

    /// A window of `window_us` microseconds; a zero cap is raised to one.
    pub fn new(window_us: u64, max_survivors: usize) -> (w: DedupWindow)
        ensures
            w.window() == window_us,
            w.cap() == (if max_survivors < 1 { 1 } else { max_survivors as nat }),
            w.kept() == Seq::<Survivor>::empty(),
            !w.has_capped(),
    {
        let cap = if max_survivors < MAX_COLLAPSE_SURVIVORS_MIN {
            MAX_COLLAPSE_SURVIVORS_MIN
        } else {
            max_survivors
        };
        let w = DedupWindow { window_us, max_survivors: cap, survivors: Vec::new(), capped: false };
        assert(survivor_views(w.survivors@) =~= Seq::<Survivor>::empty());
        w
    }

    /// The number of survivors kept.
    pub fn survivor_count(&self) -> (n: usize)
        ensures
            n == self.kept().len(),
    {
        self.survivors.len()
    }

    /// The cap on the survivor set.
    pub fn survivor_cap(&self) -> (n: usize)
        ensures
            n == self.cap(),
    {
        self.max_survivors
    }

    /// Sets the cap on the survivor set, raising zero to one.
    pub fn set_cap(&mut self, max_survivors: usize)
        ensures
            final(self).cap() == (if max_survivors < 1 { 1 } else { max_survivors as nat }),
            final(self).window() == old(self).window(),
            final(self).kept() == old(self).kept(),
            final(self).has_capped() == old(self).has_capped(),
    {
        self.max_survivors = if max_survivors < MAX_COLLAPSE_SURVIVORS_MIN {
            MAX_COLLAPSE_SURVIVORS_MIN
        } else {
            max_survivors
        };
    }

    /// True if the record at `us` from input `file_index` duplicates a
    /// survivor from another input within the window (see [`dedup_step`]).
    /// The survivor set never exceeds the cap, and every survivor is within
    /// the window of the latest record, whatever order records came in.
    pub fn is_duplicate(&mut self, us: u64, file_index: usize, msg: &MieMessage) -> (dup: bool)
        ensures
            (dup, final(self).kept()) == dedup_step(
                old(self).kept(),
                old(self).window(),
                old(self).cap(),
                us,
                file_index,
                wire_content(*msg),
            ),
            final(self).window() == old(self).window(),
            final(self).cap() == old(self).cap(),
            final(self).has_capped() == (old(self).has_capped() || (!dup && retained(
                old(self).kept(),
                us,
                old(self).window(),
            ).len() >= old(self).cap())),
            !dup ==> final(self).kept().len() <= final(self).cap(),
            dup ==> final(self).kept().len() <= old(self).kept().len(),
            forall|i: int|
                0 <= i < final(self).kept().len() ==> within_window(
                    #[trigger] final(self).kept()[i],
                    us,
                    final(self).window(),
                ),
    {
        proof {
            use_type_invariant(&*self);
        }
        let window = self.window_us;
        let mut old_set: Vec<(u64, usize, DedupKey)> = Vec::new();
        core::mem::swap(&mut old_set, &mut self.survivors);
        let ghost before = survivor_views(old_set@);
        let mut rest = crate::order::reversed(old_set);
        let mut kept: Vec<(u64, usize, DedupKey)> = Vec::new();
        let ghost mut done: Seq<Survivor> = Seq::empty();
        proof {
            assert(survivor_views(rest@.reverse()) =~= survivor_views(rest@).reverse());
            assert(before =~= done + survivor_views(rest@).reverse());
        }
        while rest.len() > 0
            invariant
                self.window_us == window,
                window == old(self).window_us,
                self.max_survivors == old(self).max_survivors,
                self.capped == old(self).capped,
                before == old(self).kept(),
                before == done + survivor_views(rest@).reverse(),
                survivor_views(kept@) == retained(done, us, window),
                kept@.len() <= done.len(),
                forall|i: int| 0 <= i < kept@.len() ==> within_window(
                    #[trigger] survivor_views(kept@)[i],
                    us,
                    window,
                ),
            decreases rest.len(),
        {
            let ghost rv0 = survivor_views(rest@);
            let s = rest.pop().unwrap();
            let ghost sv = (s.0, s.1, key_content(s.2));
            let ghost d0 = done;
            proof {
                done = done.push(sv);
                assert(done.drop_last() =~= d0);
                assert(survivor_views(rest@) =~= rv0.drop_last());
                assert(rv0.reverse() =~= seq![sv] + rv0.drop_last().reverse());
                assert(before =~= done + survivor_views(rest@).reverse());
            }
            let dist = if s.0 >= us {
                s.0 - us
            } else {
                us - s.0
            };
            if dist <= window {
                let ghost k0 = survivor_views(kept@);
                kept.push(s);
                assert(survivor_views(kept@) =~= k0.push(sv));
            } else {
                assert(retained(done, us, window) =~= retained(d0, us, window));
            }
        }
        assert(before =~= done);
        let key = DedupKey::of(msg);
        let ghost kv = survivor_views(kept@);
        assert(kv == retained(old(self).kept(), us, window));
        let mut i: usize = 0;
        while i < kept.len()
            invariant
                self.window_us == window,
                window == old(self).window_us,
                self.max_survivors == old(self).max_survivors,
                self.capped == old(self).capped,
                self.max_survivors >= 1,
                kv == retained(old(self).kept(), us, window),
                kv.len() <= old(self).kept().len(),
                forall|q: int| 0 <= q < kv.len() ==> within_window(#[trigger] kv[q], us, window),
                i <= kept@.len(),
                kv == survivor_views(kept@),
                key_content(key) == wire_content(*msg),
                forall|q: int| 0 <= q < i ==> !(kv[q].1 != file_index && kv[q].2 == wire_content(*msg)),
            decreases kept.len() - i,
        {
            if kept[i].1 != file_index && same_content(&kept[i].2, &key) {
                assert(kv[i as int].1 != file_index && kv[i as int].2 == wire_content(*msg));
                self.survivors = kept;
                return true;
            }
            i = i + 1;
        }
        let cap = self.max_survivors;
        let mut room = kept;
        let ghost kept_v = survivor_views(room@);
        let mut dropped = false;
        while room.len() >= cap
            invariant
                self.window_us == window,
                window == old(self).window_us,
                self.max_survivors == old(self).max_survivors,
                self.max_survivors == cap,
                self.capped == old(self).capped,
                kept_v == retained(old(self).kept(), us, window),
                cap >= 1,
                kept_v.len() >= room@.len(),
                survivor_views(room@) == kept_v.skip(kept_v.len() - room@.len()),
                room@.len() >= cap ==> kept_v.len() >= cap,
                dropped ==> kept_v.len() >= cap && room@.len() + 1 >= cap,
                !dropped ==> room@.len() == kept_v.len(),
                forall|q: int| 0 <= q < room@.len() ==> within_window(#[trigger] survivor_views(room@)[q], us, window),
            decreases room.len(),
        {
            let ghost r0 = room@;
            let _ = room.remove(0);
            proof {
                assert(survivor_views(room@) =~= survivor_views(r0).drop_first());
                assert(kept_v.skip(kept_v.len() - room@.len()) =~= kept_v.skip(kept_v.len() - r0.len()).drop_first());
            }
            dropped = true;
        }
        proof {
            if !dropped {
                assert(kept_v.skip(0) =~= kept_v);
            }
        }
        if dropped {
            self.capped = true;
        }
        let ghost r1 = survivor_views(room@);
        room.push((us, file_index, key));
        assert(survivor_views(room@) =~= r1.push((us, file_index, wire_content(*msg))));
        self.survivors = room;
        false
    }
}

// ── k-way merge ───────────────────────────────────────────────────────

/// One record at the front of an input, with its merge key.
pub struct HeapEntry {
    pub us: u64,
    pub file_index: usize,
    pub seq: u64,
    pub msg: MieMessage,
}

/// The merge key of an entry.
pub open spec fn entry_key(e: HeapEntry) -> (u64, usize, u64) {
    (e.us, e.file_index, e.seq)
}

impl HeapEntry {
    pub fn key(&self) -> (k: (u64, usize, u64))
        ensures
            k == entry_key(*self),
    {
        (self.us, self.file_index, self.seq)
    }
}

/// `i` holds the entry with the least key.
pub open spec fn is_min_entry(heap: Seq<HeapEntry>, i: int) -> bool {
    &&& 0 <= i < heap.len()
    &&& forall|j: int| 0 <= j < heap.len() ==> !key_lt(entry_key(#[trigger] heap[j]), entry_key(heap[i]))
}

/// What the merge produces next.
pub enum MergePop {
    /// A record to emit; the caller then feeds the next record of
    /// `file_index` to [`MergedRecordIter::advance`].
    Record { msg: MieMessage, file_index: usize },
    /// A suppressed cross-recorder duplicate; the caller feeds the next
    /// record of `file_index` to [`MergedRecordIter::advance`] and asks again.
    Duplicate { file_index: usize },
    /// A failure to report now.
    Failed(MieError),
    /// Every input is exhausted; `Some` is a failure deferred to the end so
    /// that a partial run commits what it merged.
    Finished(Option<MieError>),
}

/// What an advance noticed, for the caller to report.
#[derive(Debug, Clone, Copy, PartialEq, Eq, Structural)]
pub enum AdvanceNote {
    Nothing,
    /// The input's timestamps stepped backward (reported once per input,
    /// lenient mode).
    BackwardStep { prev_us: u64, curr_us: u64 },
    /// The input ended in an unrecoverable sync loss; the merge goes on
    /// without it and the failure is deferred (allow-partial).
    Truncated,
}

/// The first input that fails priming: an unmergeable leading record, or a
/// failed read when partial runs are not allowed.
pub open spec fn prime_failure(firsts: Seq<Option<Result<MieMessage, MieError>>>, allow_partial: bool, i: int) -> Option<int>
    decreases firsts.len() - i,
{
    if i < 0 || i >= firsts.len() {
        None
    } else {
        match firsts[i] {
            Some(Ok(m)) => if unmergeable_detail(m) is Some { Some(i) } else { prime_failure(firsts, allow_partial, i + 1) },
            Some(Err(_)) => if !allow_partial { Some(i) } else { prime_failure(firsts, allow_partial, i + 1) },
            None => prime_failure(firsts, allow_partial, i + 1),
        }
    }
}

/// The entries primed from the first records, in input order.
pub open spec fn primed_entries(firsts: Seq<Option<Result<MieMessage, MieError>>>) -> Seq<HeapEntry>
    decreases firsts.len(),
{
    if firsts.len() == 0 {
        Seq::empty()
    } else {
        primed_entries(firsts.drop_last()) + match firsts.last() {
            Some(Ok(m)) => seq![HeapEntry { us: spec_merge_micros(m), file_index: (firsts.len() - 1) as usize, seq: 0, msg: m }],
            _ => Seq::empty(),
        }
    }
}

/// Some input failed to produce its first record.
pub open spec fn any_failed(firsts: Seq<Option<Result<MieMessage, MieError>>>) -> bool {
    exists|i: int| 0 <= i < firsts.len() && #[trigger] firsts[i] matches Some(Err(_))
}

/// What the merge keeps per input: the next sequence number, the merge key
/// of the previous record, whether a backward step was reported, and the
/// path that names it.
pub struct InputState {
    next_seq: u64,
    prev_us: Option<u64>,
    warned: bool,
    path: String,
}

/// The streaming k-way merge as a state machine: at most one pending
/// record per input, released in merge-key order.
pub struct MergedRecordIter {
    heap: Vec<HeapEntry>,
    files: Vec<InputState>,
    allow_partial: bool,
    strict: bool,
    delta_tracker: DeltaTracker,
    pending_error: Option<MieError>,
    pending_terminal: Option<MieError>,
    dedup: Option<DedupWindow>,
    max_survivors: usize,
    delta_scope: DeltaScope,
    collapsed: u64,
}

impl MergedRecordIter {
    pub closed spec fn inputs(&self) -> nat {
        self.files@.len()
    }

    pub closed spec fn pending(&self) -> Seq<HeapEntry> {
        self.heap@
    }

    pub closed spec fn sequence(&self) -> Seq<u64> {
        self.files@.map_values(|f: InputState| f.next_seq)
    }

    pub closed spec fn previous(&self) -> Seq<Option<u64>> {
        self.files@.map_values(|f: InputState| f.prev_us)
    }

    pub closed spec fn warned(&self) -> Seq<bool> {
        self.files@.map_values(|f: InputState| f.warned)
    }

    pub closed spec fn path_texts(&self) -> Seq<Seq<char>> {
        self.files@.map_values(|f: InputState| f.path@)
    }

    pub closed spec fn error_pending(&self) -> Option<MieError> {
        self.pending_error
    }

    pub closed spec fn terminal(&self) -> Option<MieError> {
        self.pending_terminal
    }

    pub closed spec fn is_strict(&self) -> bool {
        self.strict
    }

    pub closed spec fn partial_allowed(&self) -> bool {
        self.allow_partial
    }

    pub closed spec fn scope(&self) -> DeltaScope {
        self.delta_scope
    }

    pub closed spec fn collapsed_count(&self) -> nat {
        self.collapsed as nat
    }

    pub closed spec fn delta_last(&self) -> Map<u32, u64> {
        self.delta_tracker.last()
    }

    pub closed spec fn delta_warned(&self) -> Set<u32> {
        self.delta_tracker.warned()
    }

    pub closed spec fn collapsing(&self) -> Option<DedupWindow> {
        self.dedup
    }

    pub closed spec fn survivor_cap(&self) -> nat {
        self.max_survivors as nat
    }

    /// Opens a merge from the first record each input produced (`None` for
    /// an empty input) and the inputs' paths. Each leading record must be
    /// calendar-locked IRIG; the first input that is not fails the merge. An
    /// input whose first read failed fails it too, unless partial runs are
    /// allowed: then the input is left out and an unrecoverable sync loss
    /// is deferred to the end.
    pub fn new(
        firsts: Vec<Option<Result<MieMessage, MieError>>>,
        paths: Vec<String>,
        allow_partial: bool,
        strict: bool,
    ) -> (r: Result<MergedRecordIter, MieError>)
        requires
            firsts@.len() == paths@.len(),
        ensures
            match prime_failure(firsts@, allow_partial, 0) {
                Some(i) => match firsts@[i] {
                    Some(Ok(m)) => r matches Err(MieError::IncompatibleMergeInputs { file_index, path, detail })
                        && file_index == i && path@ == paths@[i]@ && Some(detail@) == unmergeable_detail(m),
                    Some(Err(e)) => r == Err::<MergedRecordIter, MieError>(e),
                    None => false,
                },
                None => r matches Ok(it) && {
                    &&& it.inputs() == paths@.len()
                    &&& it.pending() == primed_entries(firsts@)
                    &&& forall|i: int| 0 <= i < firsts@.len() ==> #[trigger] it.sequence()[i] == (if firsts@[i] matches Some(Ok(_)) { 1u64 } else { 0u64 })
                    &&& forall|i: int| 0 <= i < firsts@.len() ==> #[trigger] it.previous()[i] == match firsts@[i] {
                        Some(Ok(m)) => Some(spec_merge_micros(m)),
                        _ => None,
                    }
                    &&& forall|i: int| 0 <= i < firsts@.len() ==> !#[trigger] it.warned()[i]
                    &&& it.path_texts() == paths@.map_values(|p: String| p@)
                    &&& it.error_pending() is None
                    &&& (any_failed(firsts@) ==> it.terminal() == Some(MieError::UnrecoverableSyncLoss { offset: 0, sync_losses: 0 }))
                    &&& (!any_failed(firsts@) ==> it.terminal() is None)
                    &&& it.is_strict() == strict
                    &&& it.partial_allowed() == allow_partial
                    &&& it.scope() == DeltaScope::PerFile
                    &&& it.collapsed_count() == 0
                    &&& it.collapsing() is None
                    &&& it.survivor_cap() == DEFAULT_MAX_COLLAPSE_SURVIVORS
                    &&& it.delta_last() == Map::<u32, u64>::empty()
                },
            },
    {
        let n = firsts.len();
        let ghost fs = firsts@;
        let mut rest = crate::order::reversed(firsts);
        assert forall|k: int| 0 <= k < rest@.len() implies #[trigger] rest@[k] == fs[n - 1 - k] by {
            assert(rest@ == fs.reverse());
        }
        let mut heap: Vec<HeapEntry> = Vec::new();
        let mut files: Vec<InputState> = Vec::new();
        let mut pending_terminal: Option<MieError> = None;
        let mut idx: usize = 0;
        while idx < n
            invariant
                fs == firsts@,
                n == fs.len() == paths@.len(),
                idx <= n,
                rest@.len() == n - idx,
                forall|k: int| 0 <= k < rest@.len() ==> #[trigger] rest@[k] == fs[n - 1 - k],
                prime_failure(fs, allow_partial, 0) == prime_failure(fs, allow_partial, idx as int),
                heap@ == primed_entries(fs.take(idx as int)),
                files@.len() == idx,
                forall|i: int| 0 <= i < idx ==> (#[trigger] files@[i]).next_seq == (if fs[i] matches Some(Ok(_)) { 1u64 } else { 0u64 }),
                forall|i: int| 0 <= i < idx ==> (#[trigger] files@[i]).prev_us == match fs[i] {
                    Some(Ok(m)) => Some(spec_merge_micros(m)),
                    _ => None,
                },
                forall|i: int| 0 <= i < idx ==> !(#[trigger] files@[i]).warned,
                forall|i: int| 0 <= i < idx ==> (#[trigger] files@[i]).path@ == paths@[i]@,
                any_failed(fs.take(idx as int)) ==> pending_terminal == Some(MieError::UnrecoverableSyncLoss { offset: 0, sync_losses: 0 }),
                !any_failed(fs.take(idx as int)) ==> pending_terminal is None,
            decreases n - idx,
        {
            let ghost r0 = rest@;
            let item = rest.pop().unwrap();
            proof {
                assert(item == fs[idx as int]);
                assert forall|k: int| 0 <= k < rest@.len() implies #[trigger] rest@[k] == fs[n - 1 - k] by {
                    assert(rest@[k] == r0[k]);
                }
                assert(fs.take(idx + 1).drop_last() =~= fs.take(idx as int));
                assert(fs.take(idx + 1).last() == fs[idx as int]);
            }
            let path = paths[idx].clone();
            let (seq, prev) = match item {
                Some(Ok(msg)) => {
                    match check_mergeable(&msg, idx, path.as_str()) {
                        Err(e) => {
                            assert(prime_failure(fs, allow_partial, idx as int) == Some(idx as int));
                            return Err(e);
                        },
                        Ok(()) => {},
                    }
                    let us = merge_micros(&msg);
                    heap.push(HeapEntry { us, file_index: idx, seq: 0, msg });
                    proof {
                        assert(!(fs.take(idx + 1)[idx as int] matches Some(Err(_))));
                        if any_failed(fs.take(idx + 1)) {
                            let w = choose|i: int| 0 <= i < idx + 1 && #[trigger] fs.take(idx + 1)[i] matches Some(Err(_));
                            assert(fs.take(idx as int)[w] == fs.take(idx + 1)[w]);
                        }
                    }
                    (1u64, Some(us))
                },
                Some(Err(e)) => {
                    if !allow_partial {
                        assert(prime_failure(fs, allow_partial, idx as int) == Some(idx as int));
                        return Err(e);
                    }
                    pending_terminal = Some(MieError::UnrecoverableSyncLoss { offset: 0, sync_losses: 0 });
                    assert(fs.take(idx + 1)[idx as int] matches Some(Err(_)));
                    (0u64, None)
                },
                None => {
                    proof {
                        if any_failed(fs.take(idx + 1)) {
                            let w = choose|i: int| 0 <= i < idx + 1 && #[trigger] fs.take(idx + 1)[i] matches Some(Err(_));
                            assert(fs.take(idx as int)[w] == fs.take(idx + 1)[w]);
                        }
                    }
                    (0u64, None)
                },
            };
            files.push(InputState { next_seq: seq, prev_us: prev, warned: false, path });
            proof {
                if any_failed(fs.take(idx as int)) {
                    let w = choose|i: int| 0 <= i < idx && #[trigger] fs.take(idx as int)[i] matches Some(Err(_));
                    assert(fs.take(idx + 1)[w] == fs.take(idx as int)[w]);
                }
            }
            idx = idx + 1;
        }
        assert(fs.take(n as int) =~= fs);
        let it = MergedRecordIter {
            heap,
            files,
            allow_partial,
            strict,
            delta_tracker: DeltaTracker::new(),
            pending_error: None,
            pending_terminal,
            dedup: None,
            max_survivors: DEFAULT_MAX_COLLAPSE_SURVIVORS,
            delta_scope: DeltaScope::PerFile,
            collapsed: 0,
        };
        assert(it.path_texts() =~= paths@.map_values(|p: String| p@));
        Ok(it)
    }

    /// Enables cross-recorder duplicate collapsing with a window of
    /// `window_us` microseconds (or disables it).
    pub fn collapse(self, enabled: bool, window_us: u64) -> (it: MergedRecordIter)
        ensures
            enabled ==> (it.collapsing() matches Some(w) && w.window() == window_us && w.cap() == (if self.survivor_cap() < 1 {
                1
            } else {
                self.survivor_cap()
            }) && w.kept() == Seq::<Survivor>::empty()),
            !enabled ==> it.collapsing() is None,
            it.survivor_cap() == self.survivor_cap(),
            it.pending() == self.pending(),
            it.scope() == self.scope(),
    {
        let mut it = self;
        let cap = it.max_survivors;
        it.dedup = if enabled {
            Some(DedupWindow::new(window_us, cap))
        } else {
            None
        };
        it
    }

    /// Caps the de-duplication survivor set, clamping the cap into its
    /// accepted range; composes with [`MergedRecordIter::collapse`] in either
    /// order.
    pub fn max_collapse_survivors(self, cap: usize) -> (it: MergedRecordIter)
        ensures
            it.survivor_cap() == (if cap < MAX_COLLAPSE_SURVIVORS_MIN {
                MAX_COLLAPSE_SURVIVORS_MIN as nat
            } else if cap > MAX_COLLAPSE_SURVIVORS_MAX {
                MAX_COLLAPSE_SURVIVORS_MAX as nat
            } else {
                cap as nat
            }),
            self.collapsing() is None ==> it.collapsing() is None,
            self.collapsing() matches Some(w) ==> (it.collapsing() matches Some(w2) && w2.cap() == it.survivor_cap()
                && w2.window() == w.window() && w2.kept() == w.kept()),
            it.pending() == self.pending(),
            it.scope() == self.scope(),
    {
        let mut it = self;
        let clamped = if cap < MAX_COLLAPSE_SURVIVORS_MIN {
            MAX_COLLAPSE_SURVIVORS_MIN
        } else if cap > MAX_COLLAPSE_SURVIVORS_MAX {
            MAX_COLLAPSE_SURVIVORS_MAX
        } else {
            cap
        };
        it.max_survivors = clamped;
        let mut d: Option<DedupWindow> = None;
        core::mem::swap(&mut d, &mut it.dedup);
        match d {
            Some(mut w) => {
                w.set_cap(clamped);
                it.dedup = Some(w);
            },
            None => {},
        }
        it
    }

    /// Selects the scope `DELTA` is measured over.
    pub fn delta_scope(self, scope: DeltaScope) -> (it: MergedRecordIter)
        ensures
            it.scope() == scope,
            it.pending() == self.pending(),
            it.collapsing() == self.collapsing(),
    {
        let mut it = self;
        it.delta_scope = scope;
        it
    }

    /// The cap of the de-duplication window, when collapsing is enabled.
    pub fn collapse_cap(&self) -> (c: Option<usize>)
        ensures
            match self.collapsing() {
                Some(w) => c == Some(w.cap() as usize),
                None => c is None,
            },
    {
        match &self.dedup {
            Some(w) => Some(w.survivor_cap()),
            None => None,
        }
    }

    /// The number of records suppressed as duplicates so far.
    pub fn collapsed(&self) -> (n: u64)
        ensures
            n == self.collapsed_count(),
    {
        self.collapsed
    }
}

/// The IRIG microseconds of a timestamp, the basis of merged `DELTA`.
pub open spec fn irig_us(t: Timestamp) -> Option<u64> {
    match t {
        Timestamp::Irig(x) => Some(irig_total_us(x) as u64),
        Timestamp::Standard(_) => None,
    }
}

/// A record as released: untouched under the per-file scope, and with its
/// `DELTA` measured on the merged timeline under the global scope. Returns
/// the record and the tracker's next state.
pub open spec fn delivered(msg: MieMessage, scope: DeltaScope, last: Map<u32, u64>, warned: Set<u32>) -> (MieMessage, Map<u32, u64>, Set<u32>) {
    if scope == DeltaScope::PerFile {
        (msg, last, warned)
    } else {
        let r = observe_step(last, warned, msg.command_word, irig_us(msg.timestamp));
        (MieMessage { delta_us: outcome_value(r.2), ..msg }, r.0, r.1)
    }
}

fn min_entry(heap: &Vec<HeapEntry>) -> (i: usize)
    requires
        heap@.len() > 0,
    ensures
        is_min_entry(heap@, i as int),
{
    let mut best: usize = 0;
    let mut k: usize = 1;
    while k < heap.len()
        invariant
            heap@.len() > 0,
            best < heap@.len(),
            1 <= k <= heap@.len(),
            forall|j: int| 0 <= j < k ==> !key_lt(entry_key(#[trigger] heap@[j]), entry_key(heap@[best as int])),
        decreases heap.len() - k,
    {
        if merge_key_lt(heap[k].key(), heap[best].key()) {
            best = k;
        }
        k = k + 1;
    }
    best
}

impl MergedRecordIter {
    /// The next step of the merge: a failure noted by the last advance; the
    /// end, with any deferred failure, once nothing is pending; else the
    /// pending record with the least merge key, which is either suppressed
    /// as a duplicate (the tracker untouched) or released (see
    /// [`delivered`]).
    pub fn pop(&mut self) -> (r: MergePop)
        ensures
            final(self).inputs() == old(self).inputs(),
            final(self).sequence() == old(self).sequence(),
            final(self).previous() == old(self).previous(),
            final(self).warned() == old(self).warned(),
            final(self).scope() == old(self).scope(),
            final(self).is_strict() == old(self).is_strict(),
            final(self).partial_allowed() == old(self).partial_allowed(),
            final(self).survivor_cap() == old(self).survivor_cap(),
            match old(self).error_pending() {
                Some(e) => {
                    &&& r == MergePop::Failed(e)
                    &&& final(self).error_pending() is None
                    &&& final(self).pending() == old(self).pending()
                    &&& final(self).terminal() == old(self).terminal()
                },
                None => if old(self).pending().len() == 0 {
                    &&& r == MergePop::Finished(old(self).terminal())
                    &&& final(self).terminal() is None
                    &&& final(self).error_pending() is None
                    &&& final(self).pending() == old(self).pending()
                } else {
                    exists|i: int| {
                        &&& is_min_entry(old(self).pending(), i)
                        &&& final(self).pending() == old(self).pending().remove(i)
                        &&& final(self).error_pending() is None
                        &&& final(self).terminal() == old(self).terminal()
                        &&& {
                            let e = old(self).pending()[i];
                            let step = match old(self).collapsing() {
                                Some(w) => Some(dedup_step(w.kept(), w.window(), w.cap(), e.us, e.file_index, wire_content(e.msg))),
                                None => None,
                            };
                            &&& (old(self).collapsing() is None ==> final(self).collapsing() is None)
                            &&& (step matches Some(st) ==> (final(self).collapsing() matches Some(w2) && w2.kept() == st.1
                                && w2.cap() == old(self).collapsing().unwrap().cap() && w2.window() == old(self).collapsing().unwrap().window()))
                            &&& if step matches Some(st) && st.0 {
                                &&& r == (MergePop::Duplicate { file_index: e.file_index })
                                &&& final(self).collapsed_count() == (if old(self).collapsed_count() < u64::MAX { old(self).collapsed_count() + 1 } else { old(self).collapsed_count() })
                                &&& final(self).delta_last() == old(self).delta_last()
                                &&& final(self).delta_warned() == old(self).delta_warned()
                            } else {
                                let d = delivered(e.msg, old(self).scope(), old(self).delta_last(), old(self).delta_warned());
                                &&& r == (MergePop::Record { msg: d.0, file_index: e.file_index })
                                &&& final(self).collapsed_count() == old(self).collapsed_count()
                                &&& final(self).delta_last() == d.1
                                &&& final(self).delta_warned() == d.2
                            }
                        }
                    }
                },
            },
    {
        let mut pe: Option<MieError> = None;
        core::mem::swap(&mut pe, &mut self.pending_error);
        match pe {
            Some(e) => {
                return MergePop::Failed(e);
            },
            None => {},
        }
        if self.heap.len() == 0 {
            let mut t: Option<MieError> = None;
            core::mem::swap(&mut t, &mut self.pending_terminal);
            return MergePop::Finished(t);
        }
        let i = min_entry(&self.heap);
        let ghost old_heap = self.heap@;
        let mut heap: Vec<HeapEntry> = Vec::new();
        core::mem::swap(&mut heap, &mut self.heap);
        let entry = heap.remove(i);
        self.heap = heap;
        let file_index = entry.file_index;
        let mut d: Option<DedupWindow> = None;
        core::mem::swap(&mut d, &mut self.dedup);
        match d {
            Some(mut w) => {
                let dup = w.is_duplicate(entry.us, file_index, &entry.msg);
                self.dedup = Some(w);
                if dup {
                    if self.collapsed < u64::MAX {
                        self.collapsed = self.collapsed + 1;
                    }
                    return MergePop::Duplicate { file_index };
                }
            },
            None => {},
        }
        let mut msg = entry.msg;
        match self.delta_scope {
            DeltaScope::PerFile => {},
            DeltaScope::Global => {
                let us = msg.timestamp.irig_microseconds();
                let outcome = self.delta_tracker.observe(msg.command_word, us);
                msg.delta_us = outcome.value();
            },
        }
        MergePop::Record { msg, file_index }
    }

    /// Feeds the next record of input `file_index` (`None` once it is
    /// exhausted). A record becomes pending with the next sequence number of
    /// its input; a backward step against the input's previous record fails
    /// the merge in strict mode, and is noted once per input otherwise. A
    /// failed read is deferred to the end when it is an unrecoverable sync
    /// loss and partial runs are allowed, and reported next otherwise.
    pub fn advance(&mut self, file_index: usize, item: Option<Result<MieMessage, MieError>>) -> (note: AdvanceNote)
        requires
            file_index < old(self).inputs(),
        ensures
            final(self).inputs() == old(self).inputs(),
            final(self).path_texts() == old(self).path_texts(),
            final(self).scope() == old(self).scope(),
            final(self).is_strict() == old(self).is_strict(),
            final(self).partial_allowed() == old(self).partial_allowed(),
            final(self).collapsing() == old(self).collapsing(),
            final(self).collapsed_count() == old(self).collapsed_count(),
            final(self).survivor_cap() == old(self).survivor_cap(),
            final(self).delta_last() == old(self).delta_last(),
            match item {
                None => {
                    &&& note == AdvanceNote::Nothing
                    &&& final(self).pending() == old(self).pending()
                    &&& final(self).error_pending() == old(self).error_pending()
                    &&& final(self).terminal() == old(self).terminal()
                    &&& final(self).previous() == old(self).previous()
                    &&& final(self).sequence() == old(self).sequence()
                    &&& final(self).warned() == old(self).warned()
                },
                Some(Err(e)) => {
                    &&& final(self).pending() == old(self).pending()
                    &&& final(self).previous() == old(self).previous()
                    &&& final(self).sequence() == old(self).sequence()
                    &&& final(self).warned() == old(self).warned()
                    &&& if old(self).partial_allowed() && spec_kind(e) == MieErrorKind::UnrecoverableSyncLoss {
                        &&& note == AdvanceNote::Truncated
                        &&& final(self).terminal() == Some(e)
                        &&& final(self).error_pending() == old(self).error_pending()
                    } else {
                        &&& note == AdvanceNote::Nothing
                        &&& final(self).error_pending() == Some(e)
                        &&& final(self).terminal() == old(self).terminal()
                    }
                },
                Some(Ok(m)) => {
                    let us = spec_merge_micros(m);
                    let seq = old(self).sequence()[file_index as int];
                    let backward = old(self).previous()[file_index as int] matches Some(p) && us < p;
                    let first_note = backward && !old(self).is_strict() && !old(self).warned()[file_index as int];
                    &&& final(self).pending() == old(self).pending().push(HeapEntry { us, file_index, seq, msg: m })
                    &&& final(self).sequence() == old(self).sequence().update(file_index as int, if seq < u64::MAX { (seq + 1) as u64 } else { seq })
                    &&& final(self).previous() == old(self).previous().update(file_index as int, Some(us))
                    &&& final(self).terminal() == old(self).terminal()
                    &&& (backward && old(self).is_strict() ==> (final(self).error_pending() matches Some(MieError::NonMonotonicInput { file_index: fi, path, prev_us, curr_us })
                        && fi == file_index && path@ == old(self).path_texts()[file_index as int]
                        && Some(prev_us) == old(self).previous()[file_index as int] && curr_us == us))
                    &&& (!(backward && old(self).is_strict()) ==> final(self).error_pending() == old(self).error_pending())
                    &&& final(self).warned() == (if first_note { old(self).warned().update(file_index as int, true) } else { old(self).warned() })
                    &&& note == (if first_note {
                        AdvanceNote::BackwardStep { prev_us: old(self).previous()[file_index as int].unwrap(), curr_us: us }
                    } else {
                        AdvanceNote::Nothing
                    })
                },
            },
    {
        match item {
            None => AdvanceNote::Nothing,
            Some(Err(e)) => {
                let is_loss = match e.kind() {
                    MieErrorKind::UnrecoverableSyncLoss => true,
                    _ => false,
                };
                if self.allow_partial && is_loss {
                    self.pending_terminal = Some(e);
                    AdvanceNote::Truncated
                } else {
                    self.pending_error = Some(e);
                    AdvanceNote::Nothing
                }
            },
            Some(Ok(msg)) => {
                let us = merge_micros(&msg);
                let mut note = AdvanceNote::Nothing;
                let ghost f0 = self.files@;
                let mut st = self.files.remove(file_index);
                match st.prev_us {
                    Some(prev) => {
                        if us < prev {
                            if self.strict {
                                let path = st.path.clone();
                                self.pending_error = Some(MieError::NonMonotonicInput { file_index, path, prev_us: prev, curr_us: us });
                            } else if !st.warned {
                                st.warned = true;
                                note = AdvanceNote::BackwardStep { prev_us: prev, curr_us: us };
                            }
                        }
                    },
                    None => {},
                }
                st.prev_us = Some(us);
                let seq = st.next_seq;
                st.next_seq = if seq < u64::MAX {
                    seq + 1
                } else {
                    seq
                };
                self.files.insert(file_index, st);
                proof {
                    assert(self.files@ =~= f0.update(file_index as int, st));
                    assert(self.sequence() =~= old(self).sequence().update(file_index as int, st.next_seq));
                    assert(self.previous() =~= old(self).previous().update(file_index as int, Some(us)));
                    assert(self.warned() =~= (if note != AdvanceNote::Nothing { old(self).warned().update(file_index as int, true) } else { old(self).warned() }));
                    assert(self.path_texts() =~= old(self).path_texts());
                }
                self.heap.push(HeapEntry { us, file_index, seq, msg });
                note
            },
        }
    }
}

} // verus!
