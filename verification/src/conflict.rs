//! The conflict parser.
//!
//! When an insert violates the store's `(resource_id, timespan)` overlap
//! constraint, the store raises a diagnostic of the shape
//!
//! ```text
//! Key (resource_id, timespan)=(R, ["S1","E1")) conflicts with existing key
//! (resource_id, timespan)=(R, ["S2","E2")).
//! ```
//!
//! This module extracts the two `(key1, key2)=(value1, [value2)` clauses,
//! reads each as a key-to-value map, and parses the quoted timestamps into a
//! structured [`ReservationConflict`]. Any deviation from that shape
//! degrades the whole result to [`ReservationConflictInfo::Unparsed`],
//! carrying the raw text; parsing never fails the surrounding operation.
use vstd::prelude::*;

use crate::datetime::{is_digit, spec_format_datetime, spec_parse_datetime, DateTimeUtc};
use crate::str_chars;

verus! {

// ---------------------------------------------------------------------------
// Character classes and scanning
// ---------------------------------------------------------------------------
/// A word character: what may appear in a clause key or in a resource id.
pub open spec fn is_word_char(c: char) -> bool {
    ||| 'a' as u32 <= c as u32 && c as u32 <= 'z' as u32
    ||| 'A' as u32 <= c as u32 && c as u32 <= 'Z' as u32
    ||| is_digit(c)
    ||| c == '_'
    ||| c == '-'
}

/// An ASCII whitespace character, as the clause shape allows between tokens.
pub open spec fn is_space_char(c: char) -> bool {
    c == ' ' || c == '\t' || c == '\n' || c == '\r' || c == '\u{b}' || c == '\u{c}'
}

/// Executable word-character test.
pub fn check_word_char(c: char) -> (r: bool)
    ensures
        r == is_word_char(c),
{
    let u: u32 = c as u32;
    ('a' as u32 <= u && u <= 'z' as u32) || ('A' as u32 <= u && u <= 'Z' as u32) || ('0' as u32
        <= u && u <= '9' as u32) || c == '_' || c == '-'
}

/// Executable whitespace test.
pub fn check_space_char(c: char) -> (r: bool)
    ensures
        r == is_space_char(c),
{
    c == ' ' || c == '\t' || c == '\n' || c == '\r' || c == '\u{b}' || c == '\u{c}'
}

/// First position at or after `i` whose character fails `p`, or the length.
pub open spec fn scan_while(s: Seq<char>, i: int, p: spec_fn(char) -> bool) -> int
    decreases s.len() - i
        when 0 <= i <= s.len()
{
    if i >= s.len() {
        i
    } else if p(s[i]) {
        scan_while(s, i + 1, p)
    } else {
        i
    }
}

/// End of the word-character run starting at `i`.
pub open spec fn scan_word(s: Seq<char>, i: int) -> int {
    scan_while(s, i, |c: char| is_word_char(c))
}

/// End of the whitespace run starting at `i`.
pub open spec fn scan_space(s: Seq<char>, i: int) -> int {
    scan_while(s, i, |c: char| is_space_char(c))
}

/// End of the run of non-`)` characters starting at `i`.
pub open spec fn scan_nonparen(s: Seq<char>, i: int) -> int {
    scan_while(s, i, |c: char| c != ')')
}

/// End of the run of non-`,` characters starting at `i`.
pub open spec fn scan_noncomma(s: Seq<char>, i: int) -> int {
    scan_while(s, i, |c: char| c != ',')
}

/// Bounds and meaning of `scan_word`.
pub proof fn lemma_scan_word(s: Seq<char>, i: int)
    requires
        0 <= i <= s.len(),
    ensures
        i <= scan_word(s, i) <= s.len(),
        forall|j: int| i <= j < scan_word(s, i) ==> is_word_char(#[trigger] s[j]),
        scan_word(s, i) < s.len() ==> !is_word_char(s[scan_word(s, i)]),
    decreases s.len() - i,
{
    if i < s.len() && is_word_char(s[i]) {
        lemma_scan_word(s, i + 1);
    }
}

/// Bounds and meaning of `scan_space`.
pub proof fn lemma_scan_space(s: Seq<char>, i: int)
    requires
        0 <= i <= s.len(),
    ensures
        i <= scan_space(s, i) <= s.len(),
        forall|j: int| i <= j < scan_space(s, i) ==> is_space_char(#[trigger] s[j]),
        scan_space(s, i) < s.len() ==> !is_space_char(s[scan_space(s, i)]),
    decreases s.len() - i,
{
    if i < s.len() && is_space_char(s[i]) {
        lemma_scan_space(s, i + 1);
    }
}

/// Bounds and meaning of `scan_nonparen`.
pub proof fn lemma_scan_nonparen(s: Seq<char>, i: int)
    requires
        0 <= i <= s.len(),
    ensures
        i <= scan_nonparen(s, i) <= s.len(),
        forall|j: int| i <= j < scan_nonparen(s, i) ==> #[trigger] s[j] != ')',
        scan_nonparen(s, i) < s.len() ==> s[scan_nonparen(s, i)] == ')',
    decreases s.len() - i,
{
    if i < s.len() && s[i] != ')' {
        lemma_scan_nonparen(s, i + 1);
    }
}

/// Bounds and meaning of `scan_noncomma`.
pub proof fn lemma_scan_noncomma(s: Seq<char>, i: int)
    requires
        0 <= i <= s.len(),
    ensures
        i <= scan_noncomma(s, i) <= s.len(),
        forall|j: int| i <= j < scan_noncomma(s, i) ==> #[trigger] s[j] != ',',
        scan_noncomma(s, i) < s.len() ==> s[scan_noncomma(s, i)] == ',',
    decreases s.len() - i,
{
    if i < s.len() && s[i] != ',' {
        lemma_scan_noncomma(s, i + 1);
    }
}

/// Executable scanner for `scan_word` over a character vector.
fn scan_word_vec(cv: &Vec<char>, i: usize) -> (r: usize)
    requires
        i <= cv@.len(),
    ensures
        r == scan_word(cv@, i as int),
        i <= r <= cv@.len(),
{
    let mut j = i;
    while j < cv.len() && check_word_char(cv[j])
        invariant
            i <= j <= cv@.len(),
            scan_word(cv@, i as int) == scan_word(cv@, j as int),
        decreases cv@.len() - j,
    {
        j += 1;
    }
    proof {
        assert(scan_word(cv@, j as int) == j);
        lemma_scan_word(cv@, i as int);
    }
    j
}

/// Executable scanner for `scan_space` over a character vector.
fn scan_space_vec(cv: &Vec<char>, i: usize) -> (r: usize)
    requires
        i <= cv@.len(),
    ensures
        r == scan_space(cv@, i as int),
        i <= r <= cv@.len(),
{
    let mut j = i;
    while j < cv.len() && check_space_char(cv[j])
        invariant
            i <= j <= cv@.len(),
            scan_space(cv@, i as int) == scan_space(cv@, j as int),
        decreases cv@.len() - j,
    {
        j += 1;
    }
    proof {
        assert(scan_space(cv@, j as int) == j);
        lemma_scan_space(cv@, i as int);
    }
    j
}

/// Executable scanner for `scan_nonparen` over a character vector.
fn scan_nonparen_vec(cv: &Vec<char>, i: usize) -> (r: usize)
    requires
        i <= cv@.len(),
    ensures
        r == scan_nonparen(cv@, i as int),
        i <= r <= cv@.len(),
{
    let mut j = i;
    while j < cv.len() && cv[j] != ')'
        invariant
            i <= j <= cv@.len(),
            scan_nonparen(cv@, i as int) == scan_nonparen(cv@, j as int),
        decreases cv@.len() - j,
    {
        j += 1;
    }
    proof {
        assert(scan_nonparen(cv@, j as int) == j);
        lemma_scan_nonparen(cv@, i as int);
    }
    j
}

/// Executable scanner for `scan_noncomma` over a character vector.
fn scan_noncomma_vec(cv: &Vec<char>, i: usize) -> (r: usize)
    requires
        i <= cv@.len(),
    ensures
        r == scan_noncomma(cv@, i as int),
        i <= r <= cv@.len(),
{
    let mut j = i;
    while j < cv.len() && cv[j] != ','
        invariant
            i <= j <= cv@.len(),
            scan_noncomma(cv@, i as int) == scan_noncomma(cv@, j as int),
        decreases cv@.len() - j,
    {
        j += 1;
    }
    proof {
        assert(scan_noncomma(cv@, j as int) == j);
        lemma_scan_noncomma(cv@, i as int);
    }
    j
}

// ---------------------------------------------------------------------------
// Key-to-value pairs of one clause
// ---------------------------------------------------------------------------
/// The key-to-value pairs extracted from one clause, in insertion order; a
/// later pair with the same key shadows an earlier one, as a map insert
/// would.
pub struct KeyValues {
    pairs: Vec<(String, String)>,
}

/// The map that a sequence of insertions builds.
pub open spec fn kv_map(pairs: Seq<(Seq<char>, Seq<char>)>) -> Map<Seq<char>, Seq<char>>
    decreases pairs.len(),
{
    if pairs.len() == 0 {
        Map::empty()
    } else {
        kv_map(pairs.drop_last()).insert(pairs.last().0, pairs.last().1)
    }
}

impl View for KeyValues {
    type V = Map<Seq<char>, Seq<char>>;

    closed spec fn view(&self) -> Map<Seq<char>, Seq<char>> {
        kv_map(self.pairs.deep_view())
    }
}

impl KeyValues {
    /// An empty map.
    pub fn new() -> (r: KeyValues)
        ensures
            r@ == Map::<Seq<char>, Seq<char>>::empty(),
    {
        let r = KeyValues { pairs: Vec::new() };
        proof {
            assert(r.pairs.deep_view() =~= Seq::<(Seq<char>, Seq<char>)>::empty());
        }
        r
    }

    /// Inserts a pair; a later insert of the same key wins.
    pub fn insert(&mut self, k: String, v: String)
        ensures
            final(self)@ == old(self)@.insert(k@, v@),
    {
        let ghost before = self.pairs.deep_view();
        self.pairs.push((k, v));
        proof {
            assert(self.pairs.deep_view().drop_last() =~= before);
            assert(self.pairs.deep_view().last() == (k@, v@));
        }
    }

    /// Looks a key up; the most recently inserted pair with that key wins.
    pub fn get(&self, key: &str) -> (r: Option<&String>)
        ensures
            match r {
                Some(v) => self@.contains_key(key@) && v@ == self@[key@],
                None => !self@.contains_key(key@),
            },
    {
        let mut j = self.pairs.len();
        while j > 0
            invariant
                j <= self.pairs.len(),
                forall|t: int| j <= t < self.pairs.deep_view().len() ==> (
                #[trigger] self.pairs.deep_view()[t]).0 != key@,
            decreases j,
        {
            j -= 1;
            if crate::str_eq(self.pairs[j].0.as_str(), key) {
                proof {
                    lemma_kv_map_found(self.pairs.deep_view(), key@, j as int);
                }
                return Some(&self.pairs[j].1);
            }
            proof {
                assert(self.pairs.deep_view()[j as int].0 == self.pairs@[j as int].0@);
            }
        }
        proof {
            lemma_kv_map_missing(self.pairs.deep_view(), key@);
        }
        None
    }
}

/// If position `j` holds `key` and no later pair does, the map returns the
/// value at `j`.
proof fn lemma_kv_map_found(pairs: Seq<(Seq<char>, Seq<char>)>, key: Seq<char>, j: int)
    requires
        0 <= j < pairs.len(),
        pairs[j].0 == key,
        forall|t: int| j < t < pairs.len() ==> (#[trigger] pairs[t]).0 != key,
    ensures
        kv_map(pairs).contains_key(key),
        kv_map(pairs)[key] == pairs[j].1,
    decreases pairs.len(),
{
    if j == pairs.len() - 1 {
    } else {
        lemma_kv_map_found(pairs.drop_last(), key, j);
    }
}

/// If no pair holds `key`, the map does not contain it.
proof fn lemma_kv_map_missing(pairs: Seq<(Seq<char>, Seq<char>)>, key: Seq<char>)
    requires
        forall|t: int| 0 <= t < pairs.len() ==> (#[trigger] pairs[t]).0 != key,
    ensures
        !kv_map(pairs).contains_key(key),
    decreases pairs.len(),
{
    if pairs.len() > 0 {
        lemma_kv_map_missing(pairs.drop_last(), key);
    }
}

// ---------------------------------------------------------------------------
// Clause grammar
// ---------------------------------------------------------------------------
/// One `(key1, key2)=(value1, [value2)` clause of the diagnostic, with the
/// position just past its closing parenthesis.
pub struct ClauseView {
    pub k1: Seq<char>,
    pub v1: Seq<char>,
    pub k2: Seq<char>,
    pub v2: Seq<char>,
    pub end: int,
}

/// The key-to-value map of one clause: `k1` bound to `v1`, then `k2` bound
/// to `v2` (shadowing `k1` when the keys coincide).
pub open spec fn clause_map(c: ClauseView) -> Map<Seq<char>, Seq<char>> {
    Map::empty().insert(c.k1, c.v1).insert(c.k2, c.v2)
}

/// The clause starting exactly at position `i`, if the text there has the
/// shape `(` word `,` spaces word `)=(` word spaces `,` spaces `[` non-`)`
/// run `)` — with both words, the first value and the bracketed run
/// non-empty.
pub open spec fn clause_at(s: Seq<char>, i: int) -> Option<ClauseView> {
    if !(0 <= i < s.len() && s[i] == '(') {
        None
    } else {
        let k1s = i + 1;
        let k1e = scan_word(s, k1s);
        if k1e == k1s || k1e >= s.len() || s[k1e] != ',' {
            None
        } else {
            let k2s = scan_space(s, k1e + 1);
            let k2e = scan_word(s, k2s);
            if k2e == k2s || k2e + 2 >= s.len() || s[k2e] != ')' || s[k2e + 1] != '=' || s[k2e + 2]
                != '(' {
                None
            } else {
                let v1s = k2e + 3;
                let v1e = scan_word(s, v1s);
                if v1e == v1s {
                    None
                } else {
                    let c = scan_space(s, v1e);
                    if c >= s.len() || s[c] != ',' {
                        None
                    } else {
                        let v2s0 = scan_space(s, c + 1);
                        if v2s0 >= s.len() || s[v2s0] != '[' {
                            None
                        } else {
                            let v2s = v2s0 + 1;
                            let v2e = scan_nonparen(s, v2s);
                            if v2e == v2s || v2e >= s.len() {
                                None
                            } else {
                                Some(
                                    ClauseView {
                                        k1: s.subrange(k1s, k1e),
                                        v1: s.subrange(v1s, v1e),
                                        k2: s.subrange(k2s, k2e),
                                        v2: s.subrange(v2s, v2e),
                                        end: v2e + 1,
                                    },
                                )
                            }
                        }
                    }
                }
            }
        }
    }
}

/// A clause always ends after its opening position and within the text.
pub proof fn lemma_clause_at_end(s: Seq<char>, i: int)
    ensures
        clause_at(s, i) matches Some(c) ==> i < c.end <= s.len(),
{
    if clause_at(s, i) is Some {
        let k1s = i + 1;
        lemma_scan_word(s, k1s);
        let k1e = scan_word(s, k1s);
        lemma_scan_space(s, k1e + 1);
        let k2s = scan_space(s, k1e + 1);
        lemma_scan_word(s, k2s);
        let k2e = scan_word(s, k2s);
        lemma_scan_word(s, k2e + 3);
        let v1e = scan_word(s, k2e + 3);
        lemma_scan_space(s, v1e);
        let c = scan_space(s, v1e);
        lemma_scan_space(s, c + 1);
        let v2s0 = scan_space(s, c + 1);
        lemma_scan_nonparen(s, v2s0 + 1);
    }
}

/// All clauses found scanning left to right from position `i`: at each
/// position the scanner either takes the clause starting there and resumes
/// past it, or moves one character on.
pub open spec fn clauses_from(s: Seq<char>, i: int) -> Seq<ClauseView>
    decreases s.len() - i
        when 0 <= i <= s.len()
{
    if i >= s.len() {
        Seq::empty()
    } else {
        match clause_at(s, i) {
            Some(c) => {
                let nxt = if i < c.end && c.end <= s.len() {
                    c.end
                } else {
                    i + 1
                };
                seq![c] + clauses_from(s, nxt)
            },
            None => clauses_from(s, i + 1),
        }
    }
}

/// The clauses of the whole text.
pub open spec fn spec_clauses(s: Seq<char>) -> Seq<ClauseView> {
    clauses_from(s, 0)
}

/// Extracts the clause starting exactly at position `i`, as its key-to-value
/// map and its end position.
fn clause_at_exec(s: &str, cv: &Vec<char>, i: usize) -> (r: Option<(KeyValues, usize)>)
    requires
        cv@ == s@,
        i < cv@.len(),
    ensures
        match r {
            Some(p) => clause_at(s@, i as int) matches Some(c) && p.0@ == clause_map(c) && p.1
                == c.end,
            None => clause_at(s@, i as int) is None,
        },
{
    let n = cv.len();
    if cv[i] != '(' {
        return None;
    }
    let k1s = i + 1;
    let k1e = scan_word_vec(cv, k1s);
    if k1e == k1s || k1e >= n || cv[k1e] != ',' {
        return None;
    }
    let k2s = scan_space_vec(cv, k1e + 1);
    let k2e = scan_word_vec(cv, k2s);
    if k2e == k2s || n - k2e < 3 || cv[k2e] != ')' || cv[k2e + 1] != '=' || cv[k2e + 2] != '(' {
        proof {
            assert((n - k2e < 3) == (k2e + 2 >= s@.len()));
        }
        return None;
    }
    let v1s = k2e + 3;
    let v1e = scan_word_vec(cv, v1s);
    if v1e == v1s {
        return None;
    }
    let c = scan_space_vec(cv, v1e);
    if c >= n || cv[c] != ',' {
        return None;
    }
    let v2s0 = scan_space_vec(cv, c + 1);
    if v2s0 >= n || cv[v2s0] != '[' {
        return None;
    }
    let v2s = v2s0 + 1;
    let v2e = scan_nonparen_vec(cv, v2s);
    if v2e == v2s || v2e >= n {
        return None;
    }
    let k1 = String::from_str(s.substring_char(k1s, k1e));
    let v1 = String::from_str(s.substring_char(v1s, v1e));
    let k2 = String::from_str(s.substring_char(k2s, k2e));
    let v2 = String::from_str(s.substring_char(v2s, v2e));
    let mut kv = KeyValues::new();
    kv.insert(k1, v1);
    kv.insert(k2, v2);
    Some((kv, v2e + 1))
}

/// The two clause maps of a diagnostic whose text held exactly two clauses:
/// the first describes the rejected insert, the second the existing row.
pub struct ParsedInfo {
    pub new: KeyValues,
    pub old: KeyValues,
}

impl ParsedInfo {
    /// Scans the whole text for clauses and succeeds exactly when there are
    /// two, in the order found.
    pub fn parse(s: &str) -> (r: Result<ParsedInfo, ()>)
        ensures
            match r {
                Ok(info) => spec_clauses(s@).len() == 2 && info.new@ == clause_map(
                    spec_clauses(s@)[0],
                ) && info.old@ == clause_map(spec_clauses(s@)[1]),
                Err(_) => spec_clauses(s@).len() != 2,
            },
    {
        let cv = str_chars(s);
        let n = cv.len();
        let mut i: usize = 0;
        let mut count: usize = 0;
        let mut first: Option<KeyValues> = None;
        let mut second: Option<KeyValues> = None;
        let ghost mut done: Seq<ClauseView> = Seq::empty();
        while i < n
            invariant
                cv@ == s@,
                n == s@.len(),
                i <= n,
                count == done.len(),
                count <= i,
                spec_clauses(s@) == done + clauses_from(s@, i as int),
                count >= 1 ==> (first matches Some(kv) && kv@ == clause_map(done[0])),
                count >= 2 ==> (second matches Some(kv) && kv@ == clause_map(done[1])),
            decreases n - i,
        {
            match clause_at_exec(s, &cv, i) {
                Some(p) => {
                    let ghost c = clause_at(s@, i as int)->Some_0;
                    proof {
                        lemma_clause_at_end(s@, i as int);
                        assert(clauses_from(s@, i as int) == seq![c] + clauses_from(s@, c.end));
                        assert(done + (seq![c] + clauses_from(s@, c.end)) =~= done.push(c)
                            + clauses_from(s@, c.end));
                    }
                    if count == 0 {
                        first = Some(p.0);
                    } else if count == 1 {
                        second = Some(p.0);
                    }
                    proof {
                        done = done.push(c);
                    }
                    count += 1;
                    i = p.1;
                },
                None => {
                    proof {
                        assert(clauses_from(s@, i as int) == clauses_from(s@, i + 1));
                    }
                    i += 1;
                },
            }
        }
        proof {
            assert(clauses_from(s@, n as int) =~= Seq::<ClauseView>::empty());
            assert(spec_clauses(s@) =~= done);
        }
        if count == 2 {
            let f = match first {
                Some(kv) => kv,
                None => vstd::pervasive::unreached(),
            };
            let sec = match second {
                Some(kv) => kv,
                None => vstd::pervasive::unreached(),
            };
            Ok(ParsedInfo { new: f, old: sec })
        } else {
            Err(())
        }
    }
}

// ---------------------------------------------------------------------------
// Windows and the structured conflict
// ---------------------------------------------------------------------------
/// Mathematical value of a [`ResrvationWindow`].
pub struct WindowView {
    pub rid: Seq<char>,
    pub start: DateTimeUtc,
    pub end: DateTimeUtc,
}

/// Mathematical value of a [`ReservationConflict`].
pub struct ConflictView {
    pub new: WindowView,
    pub old: WindowView,
}

/// Mathematical value of a [`ReservationConflictInfo`].
pub enum ConflictInfoView {
    Parsed(ConflictView),
    Unparsed(Seq<char>),
}

/// One colliding time window: the resource and the half-open `[start, end)`
/// interval, in UTC.
#[derive(Debug, Clone)]
pub struct ResrvationWindow {
    pub rid: String,
    pub start: DateTimeUtc,
    pub end: DateTimeUtc,
}

impl View for ResrvationWindow {
    type V = WindowView;

    open spec fn view(&self) -> WindowView {
        WindowView { rid: self.rid@, start: self.start, end: self.end }
    }
}

impl PartialEq for ResrvationWindow {
    fn eq(&self, other: &Self) -> bool {
        crate::str_eq(self.rid.as_str(), other.rid.as_str()) && self.start == other.start
            && self.end == other.end
    }
}

impl vstd::std_specs::cmp::PartialEqSpecImpl for ResrvationWindow {
    open spec fn obeys_eq_spec() -> bool {
        true
    }

    open spec fn eq_spec(&self, other: &Self) -> bool {
        self@ == other@
    }
}

/// The two windows of an overlap violation: `new` is the rejected insert,
/// `old` the pre-existing row — the order in which the store reports them.
#[derive(Debug, Clone)]
pub struct ReservationConflict {
    pub new: ResrvationWindow,
    pub old: ResrvationWindow,
}

impl View for ReservationConflict {
    type V = ConflictView;

    open spec fn view(&self) -> ConflictView {
        ConflictView { new: self.new@, old: self.old@ }
    }
}

impl PartialEq for ReservationConflict {
    fn eq(&self, other: &Self) -> bool {
        self.new == other.new && self.old == other.old
    }
}

impl vstd::std_specs::cmp::PartialEqSpecImpl for ReservationConflict {
    open spec fn obeys_eq_spec() -> bool {
        true
    }

    open spec fn eq_spec(&self, other: &Self) -> bool {
        self@ == other@
    }
}

/// Best-effort structured description of an overlap violation: `Parsed`
/// when the store's message matched the expected shape, else `Unparsed`
/// with the raw text.
#[derive(Debug, Clone)]
pub enum ReservationConflictInfo {
    Parsed(ReservationConflict),
    Unparsed(String),
}

impl View for ReservationConflictInfo {
    type V = ConflictInfoView;

    open spec fn view(&self) -> ConflictInfoView {
        match self {
            ReservationConflictInfo::Parsed(c) => ConflictInfoView::Parsed(c@),
            ReservationConflictInfo::Unparsed(s) => ConflictInfoView::Unparsed(s@),
        }
    }
}

impl PartialEq for ReservationConflictInfo {
    fn eq(&self, other: &Self) -> bool {
        match (self, other) {
            (ReservationConflictInfo::Parsed(a), ReservationConflictInfo::Parsed(b)) => a == b,
            (ReservationConflictInfo::Unparsed(a), ReservationConflictInfo::Unparsed(b)) => {
                crate::str_eq(a.as_str(), b.as_str())
            },
            _ => false,
        }
    }
}

impl vstd::std_specs::cmp::PartialEqSpecImpl for ReservationConflictInfo {
    open spec fn obeys_eq_spec() -> bool {
        true
    }

    open spec fn eq_spec(&self, other: &Self) -> bool {
        self@ == other@
    }
}

/// The timespan token with its quote characters removed.
pub open spec fn remove_quotes(s: Seq<char>) -> Seq<char> {
    s.filter(|c: char| c != '"')
}

/// One de-quoting step.
proof fn lemma_remove_quotes_push(s: Seq<char>, c: char)
    ensures
        remove_quotes(s.push(c)) == if c != '"' {
            remove_quotes(s).push(c)
        } else {
            remove_quotes(s)
        },
{
    reveal(Seq::filter);
    assert(s.push(c).drop_last() =~= s);
    assert(s.push(c).last() == c);
}

/// The window described by one clause map: the de-quoted `timespan` value,
/// split at its first comma, parsed as the two timestamps, and the
/// `resource_id` value. `None` when a key is missing, the comma is missing,
/// or a timestamp does not parse.
pub open spec fn spec_window_from_map(m: Map<Seq<char>, Seq<char>>) -> Option<WindowView> {
    if !m.contains_key("timespan"@) {
        None
    } else {
        let tq = remove_quotes(m["timespan"@]);
        let j = scan_noncomma(tq, 0);
        if j >= tq.len() {
            None
        } else {
            match spec_parse_datetime(tq.take(j)) {
                None => None,
                Some(st) => match spec_parse_datetime(tq.skip(j + 1)) {
                    None => None,
                    Some(en) => if m.contains_key("resource_id"@) {
                        Some(WindowView { rid: m["resource_id"@], start: st, end: en })
                    } else {
                        None
                    },
                },
            }
        }
    }
}

impl ResrvationWindow {
    /// Builds the window of one clause's key-to-value map.
    pub fn try_from_map(value: &KeyValues) -> (r: Result<ResrvationWindow, ()>)
        ensures
            match r {
                Ok(w) => spec_window_from_map(value@) == Some(w@),
                Err(_) => spec_window_from_map(value@) is None,
            },
    {
        let ts = match value.get("timespan") {
            Some(v) => v,
            None => {
                return Err(());
            },
        };
        let tv = str_chars(ts.as_str());
        let n = tv.len();
        let mut dq: Vec<char> = Vec::new();
        let mut k: usize = 0;
        while k < n
            invariant
                k <= n,
                n == tv@.len(),
                dq@ == remove_quotes(tv@.take(k as int)),
            decreases n - k,
        {
            let c = tv[k];
            proof {
                assert(tv@.take(k + 1) =~= tv@.take(k as int).push(tv@[k as int]));
                lemma_remove_quotes_push(tv@.take(k as int), tv@[k as int]);
            }
            if c != '"' {
                dq.push(c);
            }
            k += 1;
        }
        proof {
            assert(tv@.take(n as int) =~= tv@);
        }
        let j = scan_noncomma_vec(&dq, 0);
        if j >= dq.len() {
            return Err(());
        }
        let st = match crate::datetime::parse_datetime_range(&dq, 0, j) {
            Some(d) => d,
            None => {
                proof {
                    assert(dq@.subrange(0, j as int) =~= remove_quotes(ts@).take(j as int));
                }
                return Err(());
            },
        };
        let en = match crate::datetime::parse_datetime_range(&dq, j + 1, dq.len()) {
            Some(d) => d,
            None => {
                proof {
                    assert(dq@.subrange(j + 1, dq@.len() as int) =~= remove_quotes(ts@).skip(
                        j + 1,
                    ));
                }
                return Err(());
            },
        };
        let rid = match value.get("resource_id") {
            Some(v) => v.clone(),
            None => {
                return Err(());
            },
        };
        proof {
            assert(dq@.subrange(0, j as int) =~= remove_quotes(ts@).take(j as int));
            assert(dq@.subrange(j + 1, dq@.len() as int) =~= remove_quotes(ts@).skip(j + 1));
        }
        Ok(ResrvationWindow { rid, start: st, end: en })
    }
}

/// The structured conflict of a diagnostic text: exactly two clauses, each
/// yielding a window; the first is the rejected insert, the second the
/// existing row.
pub open spec fn spec_parse_conflict(s: Seq<char>) -> Option<ConflictView> {
    let cs = spec_clauses(s);
    if cs.len() != 2 {
        None
    } else {
        match spec_window_from_map(clause_map(cs[0])) {
            None => None,
            Some(n) => match spec_window_from_map(clause_map(cs[1])) {
                None => None,
                Some(o) => Some(ConflictView { new: n, old: o }),
            },
        }
    }
}

impl ReservationConflict {
    /// Builds the structured conflict from the two clause maps.
    pub fn try_from_parsed(info: ParsedInfo) -> (r: Result<ReservationConflict, ()>)
        ensures
            match r {
                Ok(c) => spec_window_from_map(info.new@) == Some(c.new@) && spec_window_from_map(
                    info.old@,
                ) == Some(c.old@),
                Err(_) => spec_window_from_map(info.new@) is None || spec_window_from_map(
                    info.old@,
                ) is None,
            },
    {
        let new = match ResrvationWindow::try_from_map(&info.new) {
            Ok(w) => w,
            Err(_) => {
                return Err(());
            },
        };
        let old = match ResrvationWindow::try_from_map(&info.old) {
            Ok(w) => w,
            Err(_) => {
                return Err(());
            },
        };
        Ok(ReservationConflict { new, old })
    }

    /// Parses a diagnostic text into the structured conflict.
    pub fn parse(s: &str) -> (r: Result<ReservationConflict, ()>)
        ensures
            match r {
                Ok(c) => spec_parse_conflict(s@) == Some(c@),
                Err(_) => spec_parse_conflict(s@) is None,
            },
    {
        match ParsedInfo::parse(s) {
            Ok(info) => ReservationConflict::try_from_parsed(info),
            Err(_) => Err(()),
        }
    }
}

/// The conflict description of a diagnostic text: parsed when the text
/// matches the expected shape, else the raw text.
pub open spec fn spec_conflict_info(s: Seq<char>) -> ConflictInfoView {
    match spec_parse_conflict(s) {
        Some(c) => ConflictInfoView::Parsed(c),
        None => ConflictInfoView::Unparsed(s),
    }
}

impl ReservationConflictInfo {
    /// Reads a diagnostic text; never fails, degrading to `Unparsed`.
    pub fn from_message(s: &str) -> (r: ReservationConflictInfo)
        ensures
            r@ == spec_conflict_info(s@),
    {
        match ReservationConflict::parse(s) {
            Ok(c) => ReservationConflictInfo::Parsed(c),
            Err(_) => ReservationConflictInfo::Unparsed(String::from_str(s)),
        }
    }
}

impl core::str::FromStr for ReservationConflictInfo {
    type Err = ();

    fn from_str(s: &str) -> Result<Self, Self::Err> {
        Ok(ReservationConflictInfo::from_message(s))
    }
}

impl core::str::FromStr for ReservationConflict {
    type Err = ();

    fn from_str(s: &str) -> Result<Self, Self::Err> {
        ReservationConflict::parse(s)
    }
}

impl core::str::FromStr for ParsedInfo {
    type Err = ();

    fn from_str(s: &str) -> Result<Self, Self::Err> {
        ParsedInfo::parse(s)
    }
}

// ---------------------------------------------------------------------------
// The store's diagnostic text
// ---------------------------------------------------------------------------
impl WindowView {
    /// Both timestamps are real calendar dates and times.
    pub open spec fn wf(self) -> bool {
        self.start.is_valid() && self.end.is_valid()
    }
}

/// The quoted timespan token of one clause: both timestamps rendered in
/// the diagnostic format, each in quotes, joined by a comma.
pub open spec fn spec_quoted_span(w: WindowView) -> Seq<char> {
    seq!['"'] + spec_format_datetime(w.start) + seq!['"', ',', '"'] + spec_format_datetime(w.end)
        + seq!['"']
}

/// The text of one key clause of the diagnostic, from its opening
/// parenthesis through the parenthesis that closes the timespan range.
pub open spec fn spec_clause_text(w: WindowView) -> Seq<char> {
    "(resource_id, timespan)=("@ + w.rid + ", ["@ + spec_quoted_span(w) + seq![')']
}

/// The exact diagnostic text the store emits for an overlap violation
/// between the rejected window `neww` and the existing window `oldw`.
pub open spec fn spec_conflict_detail(neww: WindowView, oldw: WindowView) -> Seq<char> {
    "Key "@ + spec_clause_text(neww) + ") conflicts with existing key "@ + spec_clause_text(oldw)
        + ")."@
}

/// Appends the text of one key clause to `out`.
fn push_clause_text(out: &mut String, w: &ResrvationWindow)
    requires
        w@.wf(),
    ensures
        final(out)@ == old(out)@ + spec_clause_text(w@),
{
    out.append("(resource_id, timespan)=(");
    out.append(w.rid.as_str());
    out.append(", [");
    out.append("\"");
    let s = w.start.format();
    out.append(s.as_str());
    out.append("\",\"");
    let e = w.end.format();
    out.append(e.as_str());
    out.append("\"");
    out.append(")");
    proof {
        reveal_strlit("\"");
        reveal_strlit("\",\"");
        reveal_strlit(")");
        assert(("\""@ + spec_format_datetime(w@.start) + "\",\""@ + spec_format_datetime(w@.end)
            + "\""@) =~= spec_quoted_span(w@));
        assert(")"@ =~= seq![')']);
        assert(final(out)@ =~= old(out)@ + spec_clause_text(w@));
    }
}

/// Renders the diagnostic text for an overlap violation, as the store
/// would.
pub fn format_conflict_detail(neww: &ResrvationWindow, oldw: &ResrvationWindow) -> (r: String)
    requires
        neww@.wf(),
        oldw@.wf(),
    ensures
        r@ == spec_conflict_detail(neww@, oldw@),
{
    let mut out = String::new();
    out.append("Key ");
    push_clause_text(&mut out, neww);
    out.append(") conflicts with existing key ");
    push_clause_text(&mut out, oldw);
    out.append(").");
    proof {
        assert(out@ =~= spec_conflict_detail(neww@, oldw@));
    }
    out
}

// ---------------------------------------------------------------------------
// The grammar inverts the diagnostic formatter
// ---------------------------------------------------------------------------
/// A non-empty run of word characters — the shape of a resource id that
/// the clause grammar can read back.
pub open spec fn spec_word_seq(s: Seq<char>) -> bool {
    s.len() > 0 && forall|i: int| 0 <= i < s.len() ==> is_word_char(#[trigger] s[i])
}

/// Determination of `scan_word`: a word run up to `e`, ended there, is
/// scanned to exactly `e`.
proof fn lemma_scan_word_value(s: Seq<char>, i: int, e: int)
    requires
        0 <= i <= e <= s.len(),
        forall|j: int| i <= j < e ==> is_word_char(#[trigger] s[j]),
        e < s.len() ==> !is_word_char(s[e]),
    ensures
        scan_word(s, i) == e,
    decreases e - i,
{
    if i < e {
        lemma_scan_word_value(s, i + 1, e);
    }
}

/// Determination of `scan_space`.
proof fn lemma_scan_space_value(s: Seq<char>, i: int, e: int)
    requires
        0 <= i <= e <= s.len(),
        forall|j: int| i <= j < e ==> is_space_char(#[trigger] s[j]),
        e < s.len() ==> !is_space_char(s[e]),
    ensures
        scan_space(s, i) == e,
    decreases e - i,
{
    if i < e {
        lemma_scan_space_value(s, i + 1, e);
    }
}

/// Determination of `scan_nonparen`.
proof fn lemma_scan_nonparen_value(s: Seq<char>, i: int, e: int)
    requires
        0 <= i <= e <= s.len(),
        forall|j: int| i <= j < e ==> #[trigger] s[j] != ')',
        e < s.len() ==> s[e] == ')',
    ensures
        scan_nonparen(s, i) == e,
    decreases e - i,
{
    if i < e {
        lemma_scan_nonparen_value(s, i + 1, e);
    }
}

/// Determination of `scan_noncomma`.
proof fn lemma_scan_noncomma_value(s: Seq<char>, i: int, e: int)
    requires
        0 <= i <= e <= s.len(),
        forall|j: int| i <= j < e ==> #[trigger] s[j] != ',',
        e < s.len() ==> s[e] == ',',
    ensures
        scan_noncomma(s, i) == e,
    decreases e - i,
{
    if i < e {
        lemma_scan_noncomma_value(s, i + 1, e);
    }
}

/// De-quoting distributes over concatenation.
proof fn lemma_remove_quotes_concat(a: Seq<char>, b: Seq<char>)
    ensures
        remove_quotes(a + b) == remove_quotes(a) + remove_quotes(b),
    decreases b.len(),
{
    reveal(Seq::filter);
    if b.len() == 0 {
        assert(a + b =~= a);
        assert(remove_quotes(b) =~= Seq::<char>::empty());
        assert(remove_quotes(a) + remove_quotes(b) =~= remove_quotes(a));
    } else {
        lemma_remove_quotes_concat(a, b.drop_last());
        assert((a + b).drop_last() =~= a + b.drop_last());
        assert((a + b).last() == b.last());
        if b.last() != '"' {
            assert(remove_quotes(a + b) == (remove_quotes(a) + remove_quotes(
                b.drop_last(),
            )).push(b.last()));
            assert((remove_quotes(a) + remove_quotes(b.drop_last())).push(b.last())
                =~= remove_quotes(a) + remove_quotes(b.drop_last()).push(b.last()));
        }
    }
}

/// De-quoting keeps a quote-free text unchanged.
proof fn lemma_remove_quotes_id(s: Seq<char>)
    requires
        forall|i: int| 0 <= i < s.len() ==> #[trigger] s[i] != '"',
    ensures
        remove_quotes(s) == s,
    decreases s.len(),
{
    reveal(Seq::filter);
    if s.len() > 0 {
        lemma_remove_quotes_id(s.drop_last());
        assert(remove_quotes(s.drop_last()).push(s.last()) =~= s);
    }
}

/// De-quoting erases a lone quote.
proof fn lemma_remove_quotes_quote()
    ensures
        remove_quotes(seq!['"']) == Seq::<char>::empty(),
{
    reveal(Seq::filter);
    assert(seq!['"'].drop_last() =~= Seq::<char>::empty());
    assert(remove_quotes(Seq::<char>::empty()) =~= Seq::<char>::empty());
}

/// Erasing quotes from a three-character quote-comma-quote token leaves
/// the comma.
proof fn lemma_remove_quotes_qcq()
    ensures
        remove_quotes(seq!['"', ',', '"']) == seq![','],
{
    reveal(Seq::filter);
    let s = seq!['"', ',', '"'];
    let s2 = seq!['"', ','];
    let s1 = seq!['"'];
    let s0 = Seq::<char>::empty();
    assert(s.drop_last() =~= s2 && s.last() == '"');
    assert(s2.drop_last() =~= s1 && s2.last() == ',');
    assert(s1.drop_last() =~= s0 && s1.last() == '"');
    assert(remove_quotes(s0) == s0);
    assert(remove_quotes(s1) == remove_quotes(s0));
    assert(remove_quotes(s2) == remove_quotes(s1).push(','));
    assert(remove_quotes(s) == remove_quotes(s2));
    assert(s0.push(',') =~= seq![',']);
}

/// No character of a formatted timestamp is a quote.
proof fn lemma_format_datetime_no_quote(d: crate::datetime::DateTimeUtc)
    requires
        d.is_valid(),
    ensures
        remove_quotes(spec_format_datetime(d)) == spec_format_datetime(d),
{
    crate::datetime::lemma_format_datetime_chars(d);
    let f = spec_format_datetime(d);
    assert forall|i: int| 0 <= i < f.len() implies #[trigger] f[i] != '"' by {
        assert(is_digit(f[i]) || f[i] == '-' || f[i] == ' ' || f[i] == ':' || f[i] == '+');
    }
    lemma_remove_quotes_id(f);
}

/// De-quoting the quoted timespan token leaves the two timestamps joined
/// by the comma.
proof fn lemma_quoted_span_content(w: WindowView)
    requires
        w.wf(),
    ensures
        remove_quotes(spec_quoted_span(w)) == spec_format_datetime(w.start) + seq![',']
            + spec_format_datetime(w.end),
{
    let f1 = spec_format_datetime(w.start);
    let f2 = spec_format_datetime(w.end);
    let q = seq!['"'];
    let qcq = seq!['"', ',', '"'];
    lemma_remove_quotes_concat(q + f1 + qcq + f2, q);
    lemma_remove_quotes_concat(q + f1 + qcq, f2);
    lemma_remove_quotes_concat(q + f1, qcq);
    lemma_remove_quotes_concat(q, f1);
    lemma_remove_quotes_quote();
    lemma_format_datetime_no_quote(w.start);
    lemma_format_datetime_no_quote(w.end);
    lemma_remove_quotes_qcq();
    let e = Seq::<char>::empty();
    assert(remove_quotes(spec_quoted_span(w)) == (((e + f1) + seq![',']) + f2) + e);
    assert((((e + f1) + seq![',']) + f2) + e =~= f1 + seq![','] + f2);
}

/// Splitting the de-quoted timespan token at its first comma yields the
/// two timestamps exactly.
proof fn lemma_split_span(w: WindowView)
    requires
        w.wf(),
    ensures
        ({
            let tq = spec_format_datetime(w.start) + seq![','] + spec_format_datetime(w.end);
            &&& scan_noncomma(tq, 0) == 22
            &&& tq.take(22) == spec_format_datetime(w.start)
            &&& tq.skip(23) == spec_format_datetime(w.end)
        }),
{
    let f1 = spec_format_datetime(w.start);
    let f2 = spec_format_datetime(w.end);
    crate::datetime::lemma_format_datetime_chars(w.start);
    let tq = f1 + seq![','] + f2;
    assert forall|j: int| 0 <= j < 22 implies #[trigger] tq[j] != ',' by {
        assert(tq[j] == f1[j]);
    }
    assert(tq[22] == ',');
    lemma_scan_noncomma_value(tq, 0, 22);
    assert(tq.take(22) =~= f1);
    assert(tq.skip(23) =~= f2);
}

/// Reading the canonical clause map back yields the window it was built
/// from.
proof fn lemma_window_from_canonical_map(w: WindowView)
    requires
        w.wf(),
    ensures
        spec_window_from_map(
            Map::<Seq<char>, Seq<char>>::empty().insert("resource_id"@, w.rid).insert(
                "timespan"@,
                spec_quoted_span(w),
            ),
        ) == Some(w),
{
    reveal_strlit("resource_id");
    reveal_strlit("timespan");
    let m = Map::<Seq<char>, Seq<char>>::empty().insert("resource_id"@, w.rid).insert(
        "timespan"@,
        spec_quoted_span(w),
    );
    assert("resource_id"@.len() == 11 && "timespan"@.len() == 8);
    assert(m.contains_key("timespan"@) && m["timespan"@] == spec_quoted_span(w));
    assert(m.contains_key("resource_id"@) && m["resource_id"@] == w.rid);
    lemma_quoted_span_content(w);
    lemma_split_span(w);
    crate::datetime::lemma_datetime_round_trip(w.start);
    crate::datetime::lemma_datetime_round_trip(w.end);
    assert(spec_window_from_map(m) == Some(WindowView { rid: w.rid, start: w.start, end: w.end }));
}

/// A word character is never whitespace.
proof fn lemma_word_not_space(c: char)
    ensures
        is_word_char(c) ==> !is_space_char(c),
{
}

/// Concrete character facts about the clause's fixed key prefix.
proof fn lemma_clause_prefix_chars()
    ensures
        "(resource_id, timespan)=("@.len() == 25,
        "(resource_id, timespan)=("@[0] == '(',
        "(resource_id, timespan)=("@[12] == ',',
        "(resource_id, timespan)=("@[13] == ' ',
        "(resource_id, timespan)=("@[22] == ')',
        "(resource_id, timespan)=("@[23] == '=',
        "(resource_id, timespan)=("@[24] == '(',
        "(resource_id, timespan)=("@.subrange(1, 12) == "resource_id"@,
        "(resource_id, timespan)=("@.subrange(14, 22) == "timespan"@,
        forall|j: int|
            1 <= j < 12 ==> is_word_char(#[trigger] "(resource_id, timespan)=("@[j]),
        forall|j: int|
            14 <= j < 22 ==> is_word_char(#[trigger] "(resource_id, timespan)=("@[j]),
{
    reveal_strlit("(resource_id, timespan)=(");
    reveal_strlit("resource_id");
    reveal_strlit("timespan");
    assert("(resource_id, timespan)=("@.subrange(1, 12) =~= "resource_id"@);
    assert("(resource_id, timespan)=("@.subrange(14, 22) =~= "timespan"@);
}

/// The characters of a formatted timestamp are never parentheses.
proof fn lemma_format_datetime_no_paren(d: DateTimeUtc)
    requires
        d.is_valid(),
    ensures
        spec_format_datetime(d).len() == 22,
        forall|i: int|
            0 <= i < spec_format_datetime(d).len() ==> #[trigger] spec_format_datetime(d)[i]
                != ')',
{
    crate::datetime::lemma_format_datetime_chars(d);
    let f = spec_format_datetime(d);
    assert forall|i: int| 0 <= i < f.len() implies #[trigger] f[i] != ')' by {
        assert(is_digit(f[i]) || f[i] == '-' || f[i] == ' ' || f[i] == ':' || f[i] == '+');
    }
}

/// At the start of its rendered text, a clause is read back exactly: its
/// two keys, the resource id, the quoted timespan token, and the position
/// just past its closing parenthesis.
#[verifier::rlimit(100)]
proof fn lemma_clause_at_text(pre: Seq<char>, w: WindowView, post: Seq<char>)
    requires
        spec_word_seq(w.rid),
        w.wf(),
    ensures
        ({
            let s = pre + spec_clause_text(w) + post;
            clause_at(s, pre.len() as int) == Some(
                ClauseView {
                    k1: "resource_id"@,
                    v1: w.rid,
                    k2: "timespan"@,
                    v2: spec_quoted_span(w),
                    end: pre.len() + spec_clause_text(w).len() as int,
                },
            )
        }),
{
    let s = pre + spec_clause_text(w) + post;
    let p = pre.len() as int;
    let rid = w.rid;
    let rn = rid.len() as int;
    let cl = spec_clause_text(w);
    let span = spec_quoted_span(w);
    let f1 = spec_format_datetime(w.start);
    let f2 = spec_format_datetime(w.end);
    let key = "(resource_id, timespan)=("@;
    lemma_clause_prefix_chars();
    lemma_format_datetime_no_paren(w.start);
    lemma_format_datetime_no_paren(w.end);
    reveal_strlit(", [");
    assert(", ["@.len() == 3 && ", ["@[0] == ',' && ", ["@[1] == ' ' && ", ["@[2] == '[');
    assert(span.len() == 49);
    assert(cl.len() == 78 + rn);
    assert forall|o: int| 0 <= o < cl.len() implies #[trigger] s[p + o] == cl[o] by {}
    // the fixed prefix, the resource id, and the ", [" separator
    assert forall|o: int| 0 <= o < 25 implies #[trigger] cl[o] == key[o] by {}
    assert forall|j: int| 0 <= j < rn implies #[trigger] cl[25 + j] == rid[j] by {}
    assert(cl[25 + rn] == ',' && cl[26 + rn] == ' ' && cl[27 + rn] == '[');
    // the quoted timespan token and the closing parenthesis
    assert forall|j: int| 0 <= j < 49 implies #[trigger] cl[28 + rn + j] == span[j] by {}
    assert(cl[77 + rn] == ')');
    assert forall|j: int| 0 <= j < 49 implies #[trigger] span[j] != ')' by {
        if 1 <= j < 23 {
            assert(span[j] == f1[j - 1]);
        } else if 26 <= j < 48 {
            assert(span[j] == f2[j - 26]);
        } else {
            assert(span[j] == '"' || span[j] == ',');
        }
    }
    // the scans of the clause grammar, one boundary at a time
    assert(s[p] == '(');
    assert forall|j: int| p + 1 <= j < p + 12 implies is_word_char(#[trigger] s[j]) by {
        assert(s[j] == key[j - p]);
    }
    assert(!is_word_char(s[p + 12]));
    lemma_scan_word_value(s, p + 1, p + 12);
    assert(s.subrange(p + 1, p + 12) =~= "resource_id"@) by {
        assert forall|o: int| 0 <= o < 11 implies #[trigger] s.subrange(p + 1, p + 12)[o]
            == "resource_id"@[o] by {
            assert(s.subrange(p + 1, p + 12)[o] == s[p + 1 + o]);
            assert(s[p + 1 + o] == key[1 + o]);
            assert(key[1 + o] == key.subrange(1, 12)[o]);
        }
    }
    assert(s[p + 12] == ',');
    assert(is_space_char(s[p + 13]));
    assert(is_word_char(s[p + 14]) && !is_space_char(s[p + 14])) by {
        lemma_word_not_space(s[p + 14]);
    }
    lemma_scan_space_value(s, p + 13, p + 14);
    assert forall|j: int| p + 14 <= j < p + 22 implies is_word_char(#[trigger] s[j]) by {
        assert(s[j] == key[j - p]);
    }
    assert(!is_word_char(s[p + 22]));
    lemma_scan_word_value(s, p + 14, p + 22);
    assert(s.subrange(p + 14, p + 22) =~= "timespan"@) by {
        assert forall|o: int| 0 <= o < 8 implies #[trigger] s.subrange(p + 14, p + 22)[o]
            == "timespan"@[o] by {
            assert(s.subrange(p + 14, p + 22)[o] == s[p + 14 + o]);
            assert(s[p + 14 + o] == key[14 + o]);
            assert(key[14 + o] == key.subrange(14, 22)[o]);
        }
    }
    assert(s[p + 22] == ')' && s[p + 23] == '=' && s[p + 24] == '(');
    assert forall|j: int| p + 25 <= j < p + 25 + rn implies is_word_char(#[trigger] s[j]) by {
        assert(s[j] == rid[j - p - 25]);
    }
    assert(s[p + 25 + rn] == ',' && !is_word_char(s[p + 25 + rn]));
    lemma_scan_word_value(s, p + 25, p + 25 + rn);
    assert(s.subrange(p + 25, p + 25 + rn) =~= rid) by {
        assert forall|o: int| 0 <= o < rn implies #[trigger] s.subrange(p + 25, p + 25 + rn)[o]
            == rid[o] by {
            assert(s.subrange(p + 25, p + 25 + rn)[o] == s[p + 25 + o]);
        }
    }
    assert(!is_space_char(s[p + 25 + rn]));
    lemma_scan_space_value(s, p + 25 + rn, p + 25 + rn);
    assert(is_space_char(s[p + 26 + rn]) && s[p + 27 + rn] == '[' && !is_space_char(
        s[p + 27 + rn],
    ));
    lemma_scan_space_value(s, p + 26 + rn, p + 27 + rn);
    assert forall|j: int| p + 28 + rn <= j < p + 77 + rn implies #[trigger] s[j] != ')' by {
        assert(s[j] == cl[j - p]);
        assert(cl[j - p] == span[j - p - 28 - rn]);
    }
    assert(s[p + 77 + rn] == ')');
    lemma_scan_nonparen_value(s, p + 28 + rn, p + 77 + rn);
    assert(s.subrange(p + 28 + rn, p + 77 + rn) =~= span) by {
        assert forall|o: int| 0 <= o < 49 implies #[trigger] s.subrange(
            p + 28 + rn,
            p + 77 + rn,
        )[o] == span[o] by {
            assert(s.subrange(p + 28 + rn, p + 77 + rn)[o] == s[p + 28 + rn + o]);
            assert(s[p + 28 + rn + o] == cl[28 + rn + o]);
        }
    }
}

/// Scanning a stretch without an opening parenthesis finds nothing.
proof fn lemma_clauses_skip(s: Seq<char>, a: int, b: int)
    requires
        0 <= a <= b <= s.len(),
        forall|j: int| a <= j < b ==> #[trigger] s[j] != '(',
    ensures
        clauses_from(s, a) == clauses_from(s, b),
    decreases b - a,
{
    if a < b {
        assert(clause_at(s, a) is None);
        lemma_clauses_skip(s, a + 1, b);
    }
}

/// Concrete character facts about the gap texts around the clauses.
proof fn lemma_gap_chars()
    ensures
        "Key "@.len() == 4,
        forall|j: int| 0 <= j < 4 ==> #[trigger] "Key "@[j] != '(',
        ") conflicts with existing key "@.len() == 30,
        forall|j: int| 0 <= j < 30 ==> #[trigger] ") conflicts with existing key "@[j] != '(',
        ")."@.len() == 2,
        forall|j: int| 0 <= j < 2 ==> #[trigger] ")."@[j] != '(',
{
    reveal_strlit("Key ");
    reveal_strlit(") conflicts with existing key ");
    reveal_strlit(").");
}

/// Law: the conflict parser inverts the store's diagnostic formatter.
/// For any two well-formed windows whose resource ids are non-empty runs
/// of word characters — the shape the documented grammar can carry — the
/// diagnostic text formatted for them parses back to `Parsed` with exactly
/// those windows: `new` the rejected insert, `old` the existing row.
#[verifier::rlimit(100)]
pub proof fn lemma_conflict_detail_round_trip(neww: WindowView, oldw: WindowView)
    requires
        neww.wf(),
        oldw.wf(),
        spec_word_seq(neww.rid),
        spec_word_seq(oldw.rid),
    ensures
        spec_conflict_info(spec_conflict_detail(neww, oldw)) == ConflictInfoView::Parsed(
            ConflictView { new: neww, old: oldw },
        ),
{
    let s = spec_conflict_detail(neww, oldw);
    let c1t = spec_clause_text(neww);
    let c2t = spec_clause_text(oldw);
    let keyp = "Key "@;
    let mid = ") conflicts with existing key "@;
    let tail = ")."@;
    lemma_gap_chars();
    let end0 = 4 + c1t.len() as int;
    let p1 = end0 + 30;
    let end1 = p1 + c2t.len() as int;
    assert(s.len() == end1 + 2);
    assert forall|j: int| 0 <= j < 4 implies #[trigger] s[j] != '(' by {
        assert(s[j] == keyp[j]);
    }
    lemma_clauses_skip(s, 0, 4);
    lemma_clause_at_text(keyp, neww, mid + c2t + tail);
    assert(s =~= keyp + c1t + (mid + c2t + tail));
    let c0 = ClauseView {
        k1: "resource_id"@,
        v1: neww.rid,
        k2: "timespan"@,
        v2: spec_quoted_span(neww),
        end: end0,
    };
    assert(clause_at(s, 4) == Some(c0));
    assert(clauses_from(s, 4) == seq![c0] + clauses_from(s, end0));
    assert forall|j: int| end0 <= j < p1 implies #[trigger] s[j] != '(' by {
        assert(s[j] == mid[j - end0]);
    }
    lemma_clauses_skip(s, end0, p1);
    lemma_clause_at_text(keyp + c1t + mid, oldw, tail);
    assert(s =~= (keyp + c1t + mid) + c2t + tail);
    assert((keyp + c1t + mid).len() == p1);
    let c1 = ClauseView {
        k1: "resource_id"@,
        v1: oldw.rid,
        k2: "timespan"@,
        v2: spec_quoted_span(oldw),
        end: end1,
    };
    assert(clause_at(s, p1) == Some(c1));
    assert(clauses_from(s, p1) == seq![c1] + clauses_from(s, end1));
    assert forall|j: int| end1 <= j < s.len() implies #[trigger] s[j] != '(' by {
        assert(s[j] == tail[j - end1]);
    }
    lemma_clauses_skip(s, end1, s.len() as int);
    assert(clauses_from(s, s.len() as int) =~= Seq::<ClauseView>::empty());
    assert(spec_clauses(s) =~= seq![c0, c1]);
    lemma_window_from_canonical_map(neww);
    lemma_window_from_canonical_map(oldw);
    assert(spec_parse_conflict(s) == Some(ConflictView { new: neww, old: oldw }));
}
} // verus!
