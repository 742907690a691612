//! The find bar: its state and how matches are found.
use vstd::prelude::*;
use vstd::string::StringSliceAdditionalSpecFns;
use vstd::utf8::encode_utf8;

use crate::text::{byte_len, utf8_len};

verus! {

broadcast use vstd::string::group_string_axioms;

/// One match: the byte range `[start, end)`.
#[derive(Debug, Clone, Copy, PartialEq, Eq)]
pub struct Match {
    pub start: usize,
    pub end: usize,
}

/// At most this many matches are collected, so that a one-character query in
/// a large file does not produce hundreds of thousands.
pub const MAX_MATCHES: usize = 20_000;

/// The state of the find bar.
#[derive(Debug)]
pub struct FindState {
    pub open: bool,
    pub query: String,
    pub case_sensitive: bool,
    pub matches: Vec<Match>,
    /// Index of the current match in `matches`.
    pub current: usize,
    /// The query or the text changed: the matches must be searched again.
    pub dirty: bool,
    /// The bar was just opened: the next frame gives the query field the focus.
    pub just_opened: bool,
}

/// The first position `i >= from` at which `n` occurs in `h`.
pub open spec fn first_occurrence(h: Seq<u8>, n: Seq<u8>, from: int) -> Option<int>
    decreases h.len() + 1 - from,
{
    if from < 0 || from + n.len() > h.len() {
        None
    } else if h.subrange(from, from + n.len()) == n {
        Some(from)
    } else {
        first_occurrence(h, n, from + 1)
    }
}

/// The occurrences of a non-empty `n` in `h` from `from` on, taken from left
/// to right without overlap, at most `budget` of them.
pub open spec fn occurrences(h: Seq<u8>, n: Seq<u8>, from: int, budget: nat) -> Seq<(int, int)>
    decreases budget,
{
    if budget == 0 || n.len() == 0 {
        seq![]
    } else {
        match first_occurrence(h, n, from) {
            Some(i) => seq![(i, i + n.len())] + occurrences(h, n, i + n.len(), (budget - 1) as nat),
            None => seq![],
        }
    }
}

/// What `str::to_lowercase` returns for `s`: its Unicode lower case mapping.
pub uninterp spec fn lowercase(s: Seq<char>) -> Seq<char>;

/// `str::to_lowercase` from the standard library. Unicode case mapping is not
/// restated here: the result is only named.
#[verifier::external_body]
fn to_lowercase(s: &str) -> (r: String)
    ensures
        r@ == lowercase(s@),
{
    s.to_lowercase()
}

/// The matches of `query` in `text`, as byte ranges. Without case
/// sensitivity both are lower-cased first; if that changes the text's length
/// in bytes, the search falls back to the exact text.
pub open spec fn expected_matches(text: Seq<char>, query: Seq<char>, case_sensitive: bool) -> Seq<
    (int, int),
> {
    if query.len() == 0 {
        seq![]
    } else if case_sensitive || utf8_len(lowercase(text)) != utf8_len(text) {
        occurrences(encode_utf8(text), encode_utf8(query), 0, MAX_MATCHES as nat)
    } else {
        occurrences(encode_utf8(lowercase(text)), encode_utf8(lowercase(query)), 0, MAX_MATCHES as nat)
    }
}

/// The byte ranges of `m`.
pub open spec fn ranges(m: Seq<Match>) -> Seq<(int, int)> {
    m.map_values(|x: Match| (x.start as int, x.end as int))
}

/// Whether `n` occurs in `h` at `j`.
pub open spec fn occurs(h: Seq<u8>, n: Seq<u8>, j: int) -> bool {
    0 <= j && j + n.len() <= h.len() && h.subrange(j, j + n.len()) == n
}

/// Where `first_occurrence` points, `n` is found, and it is found nowhere
/// before that from `from` on.
proof fn lemma_first_occurrence(h: Seq<u8>, n: Seq<u8>, from: int)
    requires
        0 <= from,
    ensures
        first_occurrence(h, n, from) matches Some(i) ==> from <= i && i + n.len() <= h.len()
            && h.subrange(i, i + n.len()) == n,
        forall|j: int|
            from <= j && #[trigger] occurs(h, n, j) ==> (first_occurrence(h, n, from) matches Some(
                i,
            ) && i <= j),
    decreases h.len() + 1 - from,
{
    if !(from < 0 || from + n.len() > h.len()) && h.subrange(from, from + n.len()) != n {
        lemma_first_occurrence(h, n, from + 1);
    }
}

/// Every match is an occurrence of the query, at or after where the search
/// began, the matches go from left to right without overlapping, and there
/// are no more of them than the budget allows.
pub proof fn lemma_occurrences_are_matches(h: Seq<u8>, n: Seq<u8>, from: int, budget: nat)
    requires
        0 <= from,
    ensures
        occurrences(h, n, from, budget).len() <= budget,
        forall|k: int|
            0 <= k < occurrences(h, n, from, budget).len() ==> {
                let (a, b) = #[trigger] occurrences(h, n, from, budget)[k];
                &&& from <= a
                &&& b == a + n.len()
                &&& b <= h.len()
                &&& h.subrange(a, b) == n
            },
        forall|k: int|
            0 <= k < occurrences(h, n, from, budget).len() - 1 ==> (#[trigger] occurrences(
                h,
                n,
                from,
                budget,
            )[k]).1 <= occurrences(h, n, from, budget)[k + 1].0,
    decreases budget,
{
    if budget > 0 && n.len() > 0 {
        lemma_first_occurrence(h, n, from);
        if let Some(i) = first_occurrence(h, n, from) {
            let rest = occurrences(h, n, i + n.len(), (budget - 1) as nat);
            lemma_occurrences_are_matches(h, n, i + n.len(), (budget - 1) as nat);
            let all = occurrences(h, n, from, budget);
            assert(all == seq![(i, i + n.len())] + rest);
            assert forall|k: int| 0 <= k < all.len() implies {
                let (a, b) = #[trigger] all[k];
                &&& from <= a
                &&& b == a + n.len()
                &&& b <= h.len()
                &&& h.subrange(a, b) == n
            } by {
                if k > 0 {
                    assert(all[k] == rest[k - 1]);
                }
            }
            assert forall|k: int| 0 <= k < all.len() - 1 implies (#[trigger] all[k]).1 <= all[k
                + 1].0 by {
                assert(all[k + 1] == rest[k]);
                if k > 0 {
                    assert(all[k] == rest[k - 1]);
                }
            }
        }
    }
}

/// No occurrence of the query is missed: each one lies within a match, or
/// the budget of matches ran out before it.
pub proof fn lemma_occurrences_complete(h: Seq<u8>, n: Seq<u8>, from: int, budget: nat, j: int)
    requires
        0 <= from <= j,
        n.len() > 0,
        occurs(h, n, j),
    ensures
        (exists|k: int|
            0 <= k < occurrences(h, n, from, budget).len() && (#[trigger] occurrences(
                h,
                n,
                from,
                budget,
            )[k]).0 <= j < occurrences(h, n, from, budget)[k].1) || (occurrences(
            h,
            n,
            from,
            budget,
        ).len() == budget && (budget == 0 || occurrences(h, n, from, budget)[budget - 1].1 <= j)),
    decreases budget,
{
    if budget > 0 {
        lemma_first_occurrence(h, n, from);
        let i = first_occurrence(h, n, from)->0;
        let all = occurrences(h, n, from, budget);
        let rest = occurrences(h, n, i + n.len(), (budget - 1) as nat);
        assert(all == seq![(i, i + n.len())] + rest);
        if j < i + n.len() {
            assert(all[0].0 <= j < all[0].1);
        } else {
            lemma_occurrences_complete(h, n, i + n.len(), (budget - 1) as nat, j);
            if exists|k: int| 0 <= k < rest.len() && (#[trigger] rest[k]).0 <= j < rest[k].1 {
                let k = choose|k: int| 0 <= k < rest.len() && (#[trigger] rest[k]).0 <= j < rest[k].1;
                assert(all[k + 1] == rest[k]);
            } else {
                if budget > 1 {
                    assert(all[budget - 1] == rest[budget - 2]);
                }
            }
        }
    }
}

/// With case sensitivity on, the matches are exactly where the query's
/// bytes stand in the text's bytes: each match is a byte range of the text
/// holding the query's bytes, the matches go from left to right without
/// overlapping, and every occurrence of the query lies within a match unless
/// the limit of [`MAX_MATCHES`] was reached.
pub proof fn lemma_case_sensitive_matches_exact(text: Seq<char>, query: Seq<char>)
    requires
        query.len() > 0,
    ensures
        ({
            let m = expected_matches(text, query, true);
            let h = encode_utf8(text);
            let n = encode_utf8(query);
            &&& m.len() <= MAX_MATCHES
            &&& forall|k: int|
                0 <= k < m.len() ==> {
                    let (a, b) = #[trigger] m[k];
                    &&& 0 <= a
                    &&& b == a + n.len()
                    &&& b <= h.len()
                    &&& h.subrange(a, b) == n
                }
            &&& forall|k: int| 0 <= k < m.len() - 1 ==> (#[trigger] m[k]).1 <= m[k + 1].0
            &&& forall|j: int|
                #[trigger] occurs(h, n, j) ==> m.len() == MAX_MATCHES || exists|k: int|
                    0 <= k < m.len() && (#[trigger] m[k]).0 <= j < m[k].1
        }),
{
    let h = encode_utf8(text);
    let n = encode_utf8(query);
    crate::text::lemma_utf8_len_ge(query);
    let m = expected_matches(text, query, true);
    assert(m == occurrences(h, n, 0, MAX_MATCHES as nat));
    lemma_occurrences_are_matches(h, n, 0, MAX_MATCHES as nat);
    assert forall|j: int| #[trigger] occurs(h, n, j) implies m.len() == MAX_MATCHES || exists|k: int|
        0 <= k < m.len() && (#[trigger] m[k]).0 <= j < m[k].1 by {
        lemma_occurrences_complete(h, n, 0, MAX_MATCHES as nat, j);
    }
}

/// `(a + d)` reduced into `[0, n)`.
pub open spec fn wrap_index(a: int, d: int, n: int) -> int {
    (a + d) % n
}

/// Stepping through the matches goes round: the result is always a valid
/// index, and stepping back by as many as one stepped forward returns to the
/// match one started from.
pub proof fn lemma_step_round_trip(c: int, d: int, n: int)
    requires
        0 <= c < n,
    ensures
        0 <= wrap_index(c, d, n) < n,
        wrap_index(wrap_index(c, d, n), -d, n) == c,
{
    let w = (c + d) % n;
    vstd::arithmetic::div_mod::lemma_mod_bound(c + d, n);
    vstd::arithmetic::div_mod::lemma_fundamental_div_mod(c + d, n);
    let q = (c + d) / n;
    assert(w - d == c - n * q) by (nonlinear_arith)
        requires
            c + d == n * q + w,
    ;
    assert(c == (w - d) + q * n) by (nonlinear_arith)
        requires
            w - d == c - n * q,
    ;
    vstd::arithmetic::div_mod::lemma_mod_multiples_vanish(q, w - d, n);
    vstd::arithmetic::div_mod::lemma_small_mod(c as nat, n as nat);
}

impl Default for FindState {
    fn default() -> (r: Self)
        ensures
            !r.open,
            r.query@.len() == 0,
            !r.case_sensitive,
            r.matches@.len() == 0,
            r.current == 0,
            !r.is_dirty(),
            !r.just_opened,
    {
        FindState {
            open: false,
            query: String::new(),
            case_sensitive: false,
            matches: Vec::new(),
            current: 0,
            dirty: false,
            just_opened: false,
        }
    }
}

/// Whether `n` occurs in `h` at `i` (`i + n.len() <= h.len()`).
fn matches_at(h: &[u8], n: &[u8], i: usize) -> (r: bool)
    requires
        i + n@.len() <= h@.len(),
    ensures
        r == (h@.subrange(i as int, i + n@.len()) == n@),
{
    let hl = h.len();
    let mut k: usize = 0;
    while k < n.len()
        invariant
            hl == h@.len(),
            i + n@.len() <= h@.len(),
            k <= n@.len(),
            forall|j: int| 0 <= j < k ==> h@[i + j] == n@[j],
        decreases n@.len() - k,
    {
        if h[i + k] != n[k] {
            assert(h@.subrange(i as int, i + n@.len())[k as int] != n@[k as int]);
            return false;
        }
        k += 1;
    }
    assert(h@.subrange(i as int, i + n@.len()) =~= n@);
    true
}

/// Appends the occurrences of `needle` in `haystack`, from left to right
/// without overlap, until there are [`MAX_MATCHES`].
fn scan(haystack: &[u8], needle: &[u8], out: &mut Vec<Match>)
    requires
        old(out)@.len() == 0,
    ensures
        ranges(final(out)@) == occurrences(haystack@, needle@, 0, MAX_MATCHES as nat),
{
    if needle.len() == 0 {
        assert(ranges(out@) =~= Seq::<(int, int)>::empty());
        return;
    }
    let h_len = haystack.len();
    let n_len = needle.len();
    let mut from: usize = 0;
    let mut i: usize = 0;
    while i <= h_len && h_len - i >= n_len
        invariant
            h_len == haystack@.len(),
            n_len == needle@.len() > 0,
            from <= i,
            out@.len() < MAX_MATCHES,
            first_occurrence(haystack@, needle@, from as int) == first_occurrence(
                haystack@,
                needle@,
                i as int,
            ),
            ranges(out@) + occurrences(
                haystack@,
                needle@,
                from as int,
                (MAX_MATCHES - out@.len()) as nat,
            ) == occurrences(haystack@, needle@, 0, MAX_MATCHES as nat),
        decreases h_len - i,
    {
        if matches_at(haystack, needle, i) {
            let ghost before = ranges(out@);
            out.push(Match { start: i, end: i + n_len });
            assert(ranges(out@) =~= before + seq![(i as int, i + n_len)]);
            if out.len() >= MAX_MATCHES {
                assert(occurrences(haystack@, needle@, (i + n_len) as int, 0) =~= Seq::<
                    (int, int),
                >::empty());
                return;
            }
            from = i + n_len;
            i = from;
        } else {
            i += 1;
        }
    }
    assert(first_occurrence(haystack@, needle@, i as int) is None);
}

impl FindState {
    /// Whether the matches must be searched again before they are used.
    pub open spec fn is_dirty(&self) -> bool {
        self.dirty
    }

    /// Opens the find bar, keeping the last query.
    pub fn open(&mut self)
        ensures
            final(self).open,
            final(self).is_dirty(),
            final(self).just_opened,
            final(self).query == old(self).query,
            final(self).case_sensitive == old(self).case_sensitive,
            final(self).matches == old(self).matches,
            final(self).current == old(self).current,
    {
        self.open = true;
        self.dirty = true;
        self.just_opened = true;
    }

    pub fn close(&mut self)
        ensures
            !final(self).open,
            final(self).is_dirty() == old(self).is_dirty(),
            final(self).just_opened == old(self).just_opened,
            final(self).query == old(self).query,
            final(self).case_sensitive == old(self).case_sensitive,
            final(self).matches == old(self).matches,
            final(self).current == old(self).current,
    {
        self.open = false;
    }

    /// The text or the query changed: the next [`Self::rebuild`] searches again.
    pub fn mark_dirty(&mut self)
        ensures
            final(self).is_dirty(),
            final(self).open == old(self).open,
            final(self).just_opened == old(self).just_opened,
            final(self).query == old(self).query,
            final(self).case_sensitive == old(self).case_sensitive,
            final(self).matches == old(self).matches,
            final(self).current == old(self).current,
    {
        self.dirty = true;
    }

    /// Searches `text` again if needed. Called at most once per frame.
    pub fn rebuild(&mut self, text: &str)
        ensures
            !old(self).is_dirty() ==> *final(self) == *old(self),
            old(self).is_dirty() ==> {
                &&& !final(self).is_dirty()
                &&& final(self).open == old(self).open
                &&& final(self).just_opened == old(self).just_opened
                &&& final(self).query == old(self).query
                &&& final(self).case_sensitive == old(self).case_sensitive
                &&& ranges(final(self).matches@) == expected_matches(
                    text@,
                    old(self).query@,
                    old(self).case_sensitive,
                )
                &&& final(self).current == if old(self).current < final(self).matches@.len() {
                    old(self).current
                } else {
                    0
                }
            },
    {
        if !self.dirty {
            return;
        }
        self.dirty = false;
        self.matches.clear();
        if self.query.as_str().is_empty() {
            self.current = 0;
            assert(ranges(self.matches@) =~= Seq::<(int, int)>::empty());
            return;
        }
        if self.case_sensitive {
            scan(text.as_bytes(), self.query.as_str().as_bytes(), &mut self.matches);
        } else {
            let hay = to_lowercase(text);
            let needle = to_lowercase(self.query.as_str());
            if byte_len(hay.as_str()) == byte_len(text) {
                scan(hay.as_str().as_bytes(), needle.as_str().as_bytes(), &mut self.matches);
            } else {
                scan(text.as_bytes(), self.query.as_str().as_bytes(), &mut self.matches);
            }
        }
        if self.current >= self.matches.len() {
            self.current = 0;
        }
    }

    /// Moves `delta` matches forward (or back, if negative), wrapping around.
    pub fn step(&mut self, delta: isize)
        requires
            old(self).matches@.len() <= isize::MAX / 2,
            old(self).matches@.len() > 0 ==> isize::MIN <= (old(self).current as isize) + delta
                <= isize::MAX,
        ensures
            final(self).current == if old(self).matches@.len() == 0 {
                old(self).current as int
            } else {
                wrap_index(
                    (old(self).current as isize) as int,
                    delta as int,
                    old(self).matches@.len() as int,
                )
            },
            final(self).open == old(self).open,
            final(self).is_dirty() == old(self).is_dirty(),
            final(self).just_opened == old(self).just_opened,
            final(self).query == old(self).query,
            final(self).case_sensitive == old(self).case_sensitive,
            final(self).matches == old(self).matches,
    {
        if self.matches.len() == 0 {
            return;
        }
        let n = self.matches.len();
        let c: isize = #[verifier::truncate] (self.current as isize);
        let x: i128 = c as i128 + delta as i128;
        if x >= 0 {
            let r = (x as usize) % n;
            self.current = r;
        } else {
            let m = ((0 - x) as usize) % n;
            let r = if m == 0 {
                0
            } else {
                n - m
            };
            proof {
                let xi = x as int;
                let ni = n as int;
                let q = (-xi) / ni;
                assert(m == (-xi) % ni);
                vstd::arithmetic::div_mod::lemma_fundamental_div_mod(-xi, ni);
                assert(-xi == ni * q + m);
                if m == 0 {
                    assert(xi == (-q) * ni + 0) by (nonlinear_arith)
                        requires
                            -xi == ni * q + m,
                            m == 0,
                    ;
                    vstd::arithmetic::div_mod::lemma_fundamental_div_mod_converse_mod(xi, ni, -q, 0);
                } else {
                    assert(0 <= m < ni) by {
                        vstd::arithmetic::div_mod::lemma_mod_bound(-xi, ni);
                    }
                    assert(xi == (-q - 1) * ni + (ni - m)) by (nonlinear_arith)
                        requires
                            -xi == ni * q + m,
                    ;
                    vstd::arithmetic::div_mod::lemma_fundamental_div_mod_converse_mod(
                        xi,
                        ni,
                        -q - 1,
                        ni - m,
                    );
                }
            }
            self.current = r;
        }
    }

    pub fn current_match(&self) -> (r: Option<Match>)
        ensures
            r == if self.current < self.matches@.len() {
                Some(self.matches@[self.current as int])
            } else {
                None
            },
    {
        if self.current < self.matches.len() {
            Some(self.matches[self.current])
        } else {
            None
        }
    }
}

} // verus!
