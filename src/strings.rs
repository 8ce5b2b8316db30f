//! Splitting encrypted strings at a pattern.
//!
//! A string is held as its character bytes. A padded string may end with
//! null bytes, which are not part of its value; an unpadded one holds none.
//! The split operations find the pattern, then cut the string with two
//! character shifts, as the homomorphic evaluation does.
use vstd::prelude::*;

verus! {

/// An encrypted string, by its character bytes.
#[derive(Clone, Debug)]
pub struct FheString {
    pub chars: Vec<u8>,
    pub padded: bool,
}

/// A clear pattern: bytes with no null among them.
#[derive(Clone, Debug)]
pub struct ClearString {
    pub chars: Vec<u8>,
}

/// A pattern given in the clear or encrypted.
pub enum GenericPatternRef<'a> {
    Clear(&'a ClearString),
    Enc(&'a FheString),
}

/// The evaluation key of the string operations. Strings are held here by
/// their character bytes, so the key carries no material of its own.
#[derive(Clone, Copy, Debug)]
pub struct ServerKey {}

/// `n` is where the value of `c` ends: no null before it, only nulls after.
pub open spec fn is_value_len(c: Seq<u8>, n: int) -> bool {
    &&& 0 <= n <= c.len()
    &&& forall|i: int| 0 <= i < n ==> c[i] != 0
    &&& forall|i: int| n <= i < c.len() ==> c[i] == 0
}

/// The bytes of `c` before its padding.
pub open spec fn value_of(c: Seq<u8>) -> Seq<u8> {
    c.take(choose|n: int| is_value_len(c, n))
}

/// `p` occurs in `s` at `i`.
pub open spec fn matches_at(s: Seq<u8>, p: Seq<u8>, i: int) -> bool {
    0 <= i && i + p.len() <= s.len() && s.subrange(i, i + p.len()) == p
}

/// `i` is the first place where `p` occurs in `s`.
pub open spec fn is_first_match(s: Seq<u8>, p: Seq<u8>, i: int) -> bool {
    matches_at(s, p, i) && forall|j: int| 0 <= j < i ==> !matches_at(s, p, j)
}

/// `i` is the last place where `p` occurs in `s`.
pub open spec fn is_last_match(s: Seq<u8>, p: Seq<u8>, i: int) -> bool {
    matches_at(s, p, i) && forall|j: int| i < j <= s.len() ==> !matches_at(s, p, j)
}

/// Whether `p` occurs anywhere in `s`.
pub open spec fn occurs(s: Seq<u8>, p: Seq<u8>) -> bool {
    exists|i: int| matches_at(s, p, i)
}

/// `(lhs, rhs)` is `s` cut around the occurrence of `p` at `i`.
pub open spec fn cut_at(s: Seq<u8>, p: Seq<u8>, i: int, lhs: Seq<u8>, rhs: Seq<u8>) -> bool {
    lhs == s.take(i) && rhs == s.skip(i + p.len())
}

/// The meaning of a split-once result: on a match at `i`, the parts around
/// it; without a match, an empty left part and the whole string.
pub open spec fn split_once_result(
    s: Seq<u8>,
    p: Seq<u8>,
    first: bool,
    lhs: Seq<u8>,
    rhs: Seq<u8>,
    found: bool,
) -> bool {
    &&& found == occurs(s, p)
    &&& found ==> exists|i: int|
        (if first { is_first_match(s, p, i) } else { is_last_match(s, p, i) })
            && #[trigger] cut_at(s, p, i, lhs, rhs)
    &&& !found ==> lhs == Seq::<u8>::empty() && rhs == s
}

impl FheString {
    pub open spec fn wf(&self) -> bool {
        exists|n: int| is_value_len(self.chars@, n) && (!self.padded ==> n == self.chars@.len())
    }

    /// The string's value.
    pub open spec fn value(&self) -> Seq<u8> {
        value_of(self.chars@)
    }

    /// The empty string.
    pub fn empty() -> (r: FheString)
        ensures
            r.wf(),
            r.value() == Seq::<u8>::empty(),
    {
        let r = FheString { chars: Vec::new(), padded: false };
        proof {
            assert(is_value_len(r.chars@, 0));
            lemma_value_of(r.chars@, 0);
        }
        r
    }

    /// The string's value as bytes, without its padding.
    pub fn to_bytes(&self) -> (r: Vec<u8>)
        requires
            self.wf(),
        ensures
            r@ == self.value(),
    {
        let n = value_len(&self.chars);
        proof {
            lemma_value_of(self.chars@, n as int);
        }
        copy_range(&self.chars, 0, n)
    }

    /// A copy of the string.
    pub fn duplicate(&self) -> (r: FheString)
        ensures
            r.chars@ == self.chars@,
            r.padded == self.padded,
    {
        let chars = copy_range(&self.chars, 0, self.chars.len());
        assert(chars@ =~= self.chars@);
        FheString { chars, padded: self.padded }
    }

    /// Marks the string as padded by appending one null byte.
    fn append_null(&mut self)
        requires
            exists|n: int| is_value_len(old(self).chars@, n),
        ensures
            final(self).wf(),
            final(self).padded,
            final(self).value() == old(self).value(),
    {
        let ghost n = choose|n: int| is_value_len(self.chars@, n);
        self.chars.push(0);
        self.padded = true;
        proof {
            assert(is_value_len(self.chars@, n));
            lemma_value_of(self.chars@, n);
            lemma_value_of(old(self).chars@, n);
            assert(self.chars@.take(n) =~= old(self).chars@.take(n));
        }
    }

    /// Whether the string's value is empty.
    pub fn is_empty(&self) -> (r: bool)
        requires
            self.wf(),
        ensures
            r == (self.value().len() == 0),
    {
        let n = value_len(&self.chars);
        proof {
            lemma_value_of(self.chars@, n as int);
        }
        n == 0
    }
}

impl ClearString {
    pub open spec fn wf(&self) -> bool {
        forall|i: int| 0 <= i < self.chars@.len() ==> self.chars@[i] != 0
    }
}

impl<'a> GenericPatternRef<'a> {
    pub open spec fn wf(&self) -> bool {
        match self {
            GenericPatternRef::Clear(c) => c.wf(),
            GenericPatternRef::Enc(e) => e.wf(),
        }
    }

    /// The pattern's value.
    pub open spec fn value(&self) -> Seq<u8> {
        match self {
            GenericPatternRef::Clear(c) => c.chars@,
            GenericPatternRef::Enc(e) => e.value(),
        }
    }
}

/// The value length is unique, and the value is the bytes before it.
proof fn lemma_value_of(c: Seq<u8>, n: int)
    requires
        is_value_len(c, n),
    ensures
        value_of(c) == c.take(n),
{
    let m = choose|m: int| is_value_len(c, m);
    assert(is_value_len(c, m));
    if m < n {
        assert(c[m] == 0);
    } else if n < m {
        assert(c[n] == 0);
    }
}

/// Where the value of a well-formed string ends.
fn value_len(c: &Vec<u8>) -> (n: usize)
    requires
        exists|n: int| is_value_len(c@, n),
    ensures
        is_value_len(c@, n as int),
{
    let mut i: usize = 0;
    while i < c.len() && c[i] != 0
        invariant
            i <= c@.len(),
            forall|j: int| 0 <= j < i ==> c@[j] != 0,
        decreases c@.len() - i,
    {
        i = i + 1;
    }
    proof {
        let n = choose|n: int| is_value_len(c@, n);
        if i < c@.len() {
            assert(c@[i as int] == 0);
            if (i as int) < n {
                assert(false);
            }
            assert forall|j: int| i <= j < c@.len() implies c@[j] == 0 by {
                if j < n {
                    assert(c@[j] != 0);
                    assert(c@[i as int] != 0);
                }
            }
        }
    }
    i
}

/// The bytes `c[lo..hi]`.
fn copy_range(c: &Vec<u8>, lo: usize, hi: usize) -> (r: Vec<u8>)
    requires
        lo <= hi <= c@.len(),
    ensures
        r@ == c@.subrange(lo as int, hi as int),
{
    let mut r: Vec<u8> = Vec::new();
    let mut i: usize = lo;
    while i < hi
        invariant
            lo <= i <= hi <= c@.len(),
            r@ == c@.subrange(lo as int, i as int),
        decreases hi - i,
    {
        r.push(c[i]);
        i = i + 1;
        assert(r@ =~= c@.subrange(lo as int, i as int));
    }
    r
}

/// The bytes of a pattern's value.
fn pattern_bytes(pat: &GenericPatternRef) -> (r: Vec<u8>)
    requires
        pat.wf(),
    ensures
        r@ == pat.value(),
{
    match pat {
        GenericPatternRef::Clear(c) => {
            let r = copy_range(&c.chars, 0, c.chars.len());
            assert(r@ =~= c.chars@);
            r
        },
        GenericPatternRef::Enc(e) => e.to_bytes(),
    }
}

/// Whether `p` occurs in `s` at `i`.
fn bytes_match_at(s: &Vec<u8>, p: &Vec<u8>, i: usize) -> (r: bool)
    requires
        i + p@.len() <= s@.len(),
    ensures
        r == matches_at(s@, p@, i as int),
{
    let slen = s.len();
    let mut k: usize = 0;
    while k < p.len()
        invariant
            slen == s@.len(),
            i + p@.len() <= s@.len(),
            k <= p@.len(),
            forall|j: int| 0 <= j < k ==> s@[i + j] == p@[j],
        decreases p@.len() - k,
    {
        if s[i + k] != p[k] {
            assert(s@.subrange(i as int, i + p@.len())[k as int] != p@[k as int]);
            return false;
        }
        k = k + 1;
    }
    assert(s@.subrange(i as int, i + p@.len()) =~= p@);
    true
}

/// The first occurrence of `p` in `s`, if any; the index is `0` when there
/// is none.
fn find_bytes(s: &Vec<u8>, p: &Vec<u8>) -> (r: (usize, bool))
    ensures
        r.1 == occurs(s@, p@),
        r.1 ==> is_first_match(s@, p@, r.0 as int),
        !r.1 ==> r.0 == 0,
{
    if p.len() > s.len() {
        return (0, false);
    }
    let last = s.len() - p.len();
    let mut i: usize = 0;
    loop
        invariant
            last + p@.len() == s@.len(),
            i <= last,
            forall|j: int| 0 <= j < i ==> !matches_at(s@, p@, j),
        decreases last - i,
    {
        if bytes_match_at(s, p, i) {
            return (i, true);
        }
        if i == last {
            assert forall|j: int| #![auto] matches_at(s@, p@, j) implies false by {
                assert(j <= last);
            }
            return (0, false);
        }
        i = i + 1;
    }
}

/// The last occurrence of `p` in `s`, if any; the index is `0` when there is
/// none.
fn rfind_bytes(s: &Vec<u8>, p: &Vec<u8>) -> (r: (usize, bool))
    ensures
        r.1 == occurs(s@, p@),
        r.1 ==> is_last_match(s@, p@, r.0 as int),
        !r.1 ==> r.0 == 0,
{
    if p.len() > s.len() {
        return (0, false);
    }
    let mut i: usize = s.len() - p.len();
    loop
        invariant
            i + p@.len() <= s@.len(),
            forall|j: int| i < j <= s@.len() ==> !matches_at(s@, p@, j),
        decreases i,
    {
        if bytes_match_at(s, p, i) {
            return (i, true);
        }
        if i == 0 {
            assert forall|j: int| #![auto] matches_at(s@, p@, j) implies false by {
                assert(0 <= j);
            }
            return (0, false);
        }
        i = i - 1;
    }
}

/// `c` moved `k` places towards its end, nulls coming in at the front.
fn shift_right_chars(c: &Vec<u8>, k: usize) -> (r: Vec<u8>)
    ensures
        r@.len() == c@.len(),
        forall|j: int| 0 <= j < c@.len() ==> #[trigger] r@[j] == if j >= k { c@[j - k] } else { 0u8 },
{
    let mut r: Vec<u8> = Vec::new();
    let mut j: usize = 0;
    while j < c.len()
        invariant
            j <= c@.len(),
            r@.len() == j,
            forall|m: int| 0 <= m < j ==> #[trigger] r@[m] == if m >= k { c@[m - k] } else { 0u8 },
        decreases c@.len() - j,
    {
        if j >= k {
            r.push(c[j - k]);
        } else {
            r.push(0);
        }
        j = j + 1;
    }
    r
}

/// `c` moved `k` places towards its start, nulls coming in at the end.
fn shift_left_chars(c: &Vec<u8>, k: usize) -> (r: Vec<u8>)
    ensures
        r@.len() == c@.len(),
        forall|j: int| 0 <= j < c@.len() ==> #[trigger] r@[j] == if j + k < c@.len() { c@[j + k] } else { 0u8 },
{
    let mut r: Vec<u8> = Vec::new();
    let mut j: usize = 0;
    while j < c.len()
        invariant
            j <= c@.len(),
            r@.len() == j,
            forall|m: int| 0 <= m < j ==> #[trigger] r@[m] == if m + k < c@.len() { c@[m + k] } else { 0u8 },
        decreases c@.len() - j,
    {
        if k < c.len() - j {
            r.push(c[j + k]);
        } else {
            r.push(0);
        }
        j = j + 1;
    }
    r
}

impl ServerKey {
    pub fn new() -> (r: ServerKey) {
        ServerKey {}
    }

    /// Cuts `str` around the pattern occurrence at `index` of its value:
    /// the part before it (with the pattern when `inclusive`) and the part
    /// after it. Both parts come back padded.
    fn split_pat_at_index(
        &self,
        str: &FheString,
        pat_len: usize,
        index: usize,
        inclusive: bool,
    ) -> (r: (FheString, FheString))
        requires
            str.wf(),
            index + pat_len <= str.value().len(),
        ensures
            r.0.wf(),
            r.1.wf(),
            r.0.value() == str.value().take(if inclusive { index + pat_len } else { index as int }),
            r.1.value() == str.value().skip(index + pat_len),
    {
        let ghost n = choose|n: int| is_value_len(str.chars@, n);
        proof {
            lemma_value_of(str.chars@, n);
        }
        let len = str.chars.len();
        let cut = if inclusive { index + pat_len } else { index };
        let shift_right = len - cut;
        let moved = shift_right_chars(&str.chars, shift_right);
        let lhs_chars = shift_left_chars(&moved, shift_right);
        let rhs_chars = shift_left_chars(&str.chars, index + pat_len);
        let mut lhs = FheString { chars: lhs_chars, padded: str.padded };
        let mut rhs = FheString { chars: rhs_chars, padded: str.padded };
        proof {
            let c = str.chars@;
            assert forall|j: int| 0 <= j < len implies #[trigger] lhs.chars@[j] == if j < cut { c[j] } else { 0u8 } by {
                if j + shift_right < len {
                    assert(moved@[j + shift_right] == c[j]);
                }
            }
            assert(is_value_len(lhs.chars@, cut as int));
            lemma_value_of(lhs.chars@, cut as int);
            assert(lhs.chars@.take(cut as int) =~= str.value().take(cut as int));
            let m = n - index - pat_len;
            assert forall|j: int| 0 <= j < len implies #[trigger] rhs.chars@[j] == if j < m { c[j + index + pat_len] } else { 0u8 } by {}
            assert(is_value_len(rhs.chars@, m));
            lemma_value_of(rhs.chars@, m);
            assert(rhs.chars@.take(m) =~= str.value().skip(index + pat_len));
        }
        if str.padded {
            lhs.padded = true;
            rhs.padded = true;
        } else {
            lhs.append_null();
            rhs.append_null();
        }
        (lhs, rhs)
    }

    /// The result of a split that found no match: an empty left part and the
    /// whole string.
    fn no_split(str: &FheString) -> (r: (FheString, FheString, bool))
        requires
            str.wf(),
        ensures
            r.0.wf(),
            r.1.wf(),
            r.0.value() == Seq::<u8>::empty(),
            r.1.value() == str.value(),
            !r.2,
    {
        (FheString::empty(), str.duplicate(), false)
    }

    /// Splits `str` at the first occurrence of `pat` into the part before it
    /// and the part after it, and tells whether there was one. Without a
    /// match the parts are the empty string and `str`. An empty pattern
    /// matches at the start.
    pub fn split_once(&self, str: &FheString, pat: GenericPatternRef<'_>) -> (r: (
        FheString,
        FheString,
        bool,
    ))
        requires
            str.wf(),
            pat.wf(),
        ensures
            r.0.wf(),
            r.1.wf(),
            split_once_result(str.value(), pat.value(), true, r.0.value(), r.1.value(), r.2),
    {
        let s = str.to_bytes();
        let p = pattern_bytes(&pat);
        let (index, found) = find_bytes(&s, &p);
        if !found {
            return Self::no_split(str);
        }
        let (lhs, rhs) = self.split_pat_at_index(str, p.len(), index, false);
        assert(cut_at(s@, p@, index as int, lhs.value(), rhs.value()));
        (lhs, rhs, true)
    }

    /// Splits `str` at the last occurrence of `pat` into the part before it
    /// and the part after it, and tells whether there was one. Without a
    /// match the parts are the empty string and `str`. An empty pattern
    /// matches at the end.
    pub fn rsplit_once(&self, str: &FheString, pat: GenericPatternRef<'_>) -> (r: (
        FheString,
        FheString,
        bool,
    ))
        requires
            str.wf(),
            pat.wf(),
        ensures
            r.0.wf(),
            r.1.wf(),
            split_once_result(str.value(), pat.value(), false, r.0.value(), r.1.value(), r.2),
    {
        let s = str.to_bytes();
        let p = pattern_bytes(&pat);
        let (index, found) = rfind_bytes(&s, &p);
        if !found {
            return Self::no_split(str);
        }
        let (lhs, rhs) = self.split_pat_at_index(str, p.len(), index, false);
        assert(cut_at(s@, p@, index as int, lhs.value(), rhs.value()));
        (lhs, rhs, true)
    }
}

/// Which way a split iterator walks and whether the pieces keep the pattern.
#[derive(Clone, Copy, Debug, PartialEq, Eq, Structural)]
pub enum SplitType {
    Split,
    RSplit,
    SplitInclusive,
}

/// The state of a split iterator, by values.
pub struct SplitView {
    pub state: Seq<u8>,
    pub prev_was_some: bool,
    pub counter: int,
    pub max_counter: int,
    pub counter_lt_max: bool,
}

/// The index that a search of `p` in `s` reports, and whether it found one;
/// the index is `0` when it did not.
pub open spec fn search(s: Seq<u8>, p: Seq<u8>, rev: bool) -> (int, bool) {
    if !occurs(s, p) {
        (0, false)
    } else if rev {
        (choose|i: int| is_last_match(s, p, i), true)
    } else {
        (choose|i: int| is_first_match(s, p, i), true)
    }
}

/// One step of a split iterator: the next state, the piece handed out and
/// whether it is a piece at all.
///
/// The pattern is searched in what is left (from the end for `RSplit`). An
/// empty pattern always matches, so after the first step its match is moved
/// one place on, which makes `"ab"` split into `""`, `"a"`, `"b"`, `""`. A
/// match yields the part before it (after it for `RSplit`) and keeps the
/// rest; no match yields the whole rest, which is still a piece when the
/// previous step matched. No piece comes once the counter has passed
/// `max_counter`.
pub open spec fn split_step(t: SplitType, v: SplitView, p: Seq<u8>) -> (SplitView, Seq<u8>, bool) {
    let rev = t == SplitType::RSplit;
    let (i0, found) = search(v.state, p, rev);
    let i = if v.counter > 0 && p.len() == 0 {
        if rev { i0 - 1 } else { i0 + 1 }
    } else {
        i0
    };
    let in_range = 0 <= i && i + p.len() <= v.state.len();
    let cut = if t == SplitType::SplitInclusive { i + p.len() } else { i };
    let lhs = if in_range { v.state.take(cut) } else { Seq::<u8>::empty() };
    let rhs = if in_range { v.state.skip(i + p.len()) } else { Seq::<u8>::empty() };
    let piece = if !found { v.state } else if rev { rhs } else { lhs };
    let next = SplitView {
        state: if rev { lhs } else { rhs },
        prev_was_some: found,
        counter: if v.counter < usize::MAX { v.counter + 1 } else { v.counter },
        max_counter: v.max_counter,
        counter_lt_max: v.max_counter > v.counter,
    };
    (next, piece, (found || v.prev_was_some) && v.counter_lt_max)
}

/// The iterator behind `split`, `rsplit` and `split_inclusive`.
pub struct SplitInternal {
    pub split_type: SplitType,
    pub state: FheString,
    pub pat: Vec<u8>,
    pub prev_was_some: bool,
    pub counter: usize,
    pub max_counter: usize,
    pub counter_lt_max: bool,
}

/// The iterator behind `splitn` and `rsplitn`: at most `n` pieces, the last
/// one being all that is left.
pub struct SplitNInternal {
    pub internal: SplitInternal,
    pub n: usize,
    pub counter: usize,
    pub not_exceeded: bool,
}

/// The iterator behind `split_terminator`: a split without its trailing
/// empty piece.
pub struct SplitNoTrailing {
    pub internal: SplitInternal,
}

/// The iterator behind `rsplit_terminator`: a reverse split without its
/// leading empty piece, one step ahead of what it hands out.
pub struct SplitNoLeading {
    pub internal: SplitInternal,
    pub prev_return: (FheString, bool),
    pub leading_empty_str: bool,
}

impl SplitInternal {
    pub open spec fn wf(&self) -> bool {
        self.state.wf()
    }

    pub open spec fn view(&self) -> SplitView {
        SplitView {
            state: self.state.value(),
            prev_was_some: self.prev_was_some,
            counter: self.counter as int,
            max_counter: self.max_counter as int,
            counter_lt_max: self.counter_lt_max,
        }
    }

    /// The next piece, and whether there is one.
    pub fn next(&mut self, sk: &ServerKey) -> (r: (FheString, bool))
        requires
            old(self).wf(),
        ensures
            final(self).wf(),
            final(self).split_type == old(self).split_type,
            final(self).pat@ == old(self).pat@,
            r.0.wf(),
            (final(self).view(), r.0.value(), r.1) == split_step(old(self).split_type, old(self).view(), old(self).pat@),
    {
        let ghost v = self.view();
        let ghost p = self.pat@;
        let s = self.state.to_bytes();
        let rev = matches!(self.split_type, SplitType::RSplit);
        let (index0, found) = if rev {
            rfind_bytes(&s, &self.pat)
        } else {
            find_bytes(&s, &self.pat)
        };
        proof {
            let (i0, f0) = search(v.state, p, rev);
            if found {
                if rev {
                    let c = choose|i: int| is_last_match(v.state, p, i);
                    assert(is_last_match(v.state, p, c));
                    if c < index0 { assert(matches_at(v.state, p, index0 as int)); }
                    if c > index0 { assert(matches_at(v.state, p, c)); }
                } else {
                    let c = choose|i: int| is_first_match(v.state, p, i);
                    assert(is_first_match(v.state, p, c));
                    if c < index0 { assert(matches_at(v.state, p, c)); }
                    if c > index0 { assert(matches_at(v.state, p, index0 as int)); }
                }
            }
            assert(i0 == index0 && f0 == found);
        }
        let plen = self.pat.len();
        let mut index = index0;
        let mut in_range = true;
        if self.counter > 0 && plen == 0 {
            if rev {
                if index0 == 0 {
                    in_range = false;
                } else {
                    index = index0 - 1;
                }
            } else {
                if index0 >= s.len() {
                    in_range = false;
                } else {
                    index = index0 + 1;
                }
            }
        }
        if in_range && (index > s.len() || plen > s.len() - index) {
            in_range = false;
        }
        let inclusive = matches!(self.split_type, SplitType::SplitInclusive);
        let (lhs, rhs) = if in_range {
            sk.split_pat_at_index(&self.state, plen, index, inclusive)
        } else {
            (FheString::empty(), FheString::empty())
        };
        let result = if rev {
            let piece = if found { rhs } else { self.state.duplicate() };
            self.state = lhs;
            piece
        } else {
            let piece = if found { lhs } else { self.state.duplicate() };
            self.state = rhs;
            piece
        };
        let is_some = (found || self.prev_was_some) && self.counter_lt_max;
        self.prev_was_some = found;
        self.counter_lt_max = self.max_counter > self.counter;
        self.counter = self.counter.saturating_add(1);
        proof {
            let (nv, piece, some) = split_step(self.split_type, v, p);
            assert(self.view().state == nv.state);
            assert(self.view() == nv);
        }
        (result, is_some)
    }
}

/// `n + 1`, held at the largest `usize`.
pub open spec fn succ_sat(n: int) -> int {
    if n < usize::MAX { n + 1 } else { n }
}

/// The state of a split-n iterator, by values.
pub struct SplitNView {
    pub inner: SplitView,
    pub n: int,
    pub counter: int,
    pub not_exceeded: bool,
}

/// One step of a split-n iterator: the inner split steps as usual; once the
/// `n`-th piece is due, the whole rest is handed out instead, and nothing
/// after it.
pub open spec fn splitn_step(t: SplitType, v: SplitNView, p: Seq<u8>) -> (SplitNView, Seq<u8>, bool) {
    let (iv, piece, some) = split_step(t, v.inner, p);
    let last = v.counter + 1 >= v.n;
    let next = SplitNView {
        inner: iv,
        n: v.n,
        counter: succ_sat(v.counter),
        not_exceeded: !last && v.not_exceeded,
    };
    (next, if last { v.inner.state } else { piece }, some && v.not_exceeded)
}

impl SplitNInternal {
    pub open spec fn wf(&self) -> bool {
        self.internal.wf()
    }

    pub open spec fn view(&self) -> SplitNView {
        SplitNView {
            inner: self.internal.view(),
            n: self.n as int,
            counter: self.counter as int,
            not_exceeded: self.not_exceeded,
        }
    }

    /// The next piece, and whether there is one.
    pub fn next(&mut self, sk: &ServerKey) -> (r: (FheString, bool))
        requires
            old(self).wf(),
        ensures
            final(self).wf(),
            final(self).internal.split_type == old(self).internal.split_type,
            final(self).internal.pat@ == old(self).internal.pat@,
            r.0.wf(),
            (final(self).view(), r.0.value(), r.1) == splitn_step(
                old(self).internal.split_type,
                old(self).view(),
                old(self).internal.pat@,
            ),
    {
        let state = self.internal.state.duplicate();
        let (mut result, mut is_some) = self.internal.next(sk);
        is_some = is_some && self.not_exceeded;
        if self.n == 0 || self.counter >= self.n - 1 {
            result = state;
            self.not_exceeded = false;
        }
        self.counter = self.counter.saturating_add(1);
        (result, is_some)
    }
}

impl SplitNoTrailing {
    pub open spec fn wf(&self) -> bool {
        self.internal.wf()
    }

    /// The next piece, and whether there is one: that of the inner split,
    /// except that an empty rest handed out after a failed search is no
    /// piece.
    pub fn next(&mut self, sk: &ServerKey) -> (r: (FheString, bool))
        requires
            old(self).wf(),
        ensures
            final(self).wf(),
            final(self).internal.split_type == old(self).internal.split_type,
            final(self).internal.pat@ == old(self).internal.pat@,
            r.0.wf(),
            ({
                let (iv, piece, some) = split_step(
                    old(self).internal.split_type,
                    old(self).internal.view(),
                    old(self).internal.pat@,
                );
                &&& final(self).internal.view() == iv
                &&& r.0.value() == piece
                &&& r.1 == (some && !(piece.len() == 0 && !iv.prev_was_some))
            }),
    {
        let (result, is_some) = self.internal.next(sk);
        let result_is_empty = result.is_empty();
        let trailing_empty_str = result_is_empty && !self.internal.prev_was_some;
        (result, is_some && !trailing_empty_str)
    }
}

impl SplitNoLeading {
    pub open spec fn wf(&self) -> bool {
        self.internal.wf() && self.prev_return.0.wf()
    }

    /// The next piece, and whether there is one. When the reverse split's
    /// first piece was empty, the pieces are those of the inner split one
    /// step on; otherwise they are its pieces, handed out one step late.
    pub fn next(&mut self, sk: &ServerKey) -> (r: (FheString, bool))
        requires
            old(self).wf(),
        ensures
            final(self).wf(),
            final(self).internal.split_type == old(self).internal.split_type,
            final(self).internal.pat@ == old(self).internal.pat@,
            final(self).leading_empty_str == old(self).leading_empty_str,
            r.0.wf(),
            ({
                let (iv, piece, some) = split_step(
                    old(self).internal.split_type,
                    old(self).internal.view(),
                    old(self).internal.pat@,
                );
                &&& final(self).internal.view() == iv
                &&& final(self).prev_return.0.value() == piece
                &&& final(self).prev_return.1 == some
                &&& r.0.value() == if old(self).leading_empty_str {
                    piece
                } else {
                    old(self).prev_return.0.value()
                }
                &&& r.1 == if old(self).leading_empty_str { some } else { old(self).prev_return.1 }
            }),
    {
        let (result, is_some) = self.internal.next(sk);
        let return_result = if self.leading_empty_str {
            result.duplicate()
        } else {
            self.prev_return.0.duplicate()
        };
        let return_is_some = if self.leading_empty_str { is_some } else { self.prev_return.1 };
        self.prev_return = (result, is_some);
        (return_result, return_is_some)
    }
}

impl ServerKey {
    /// A split iterator over `str` at `pat`, walking as `split_type` says.
    /// It can hand out at most one piece more than `str` has characters.
    pub fn split_internal(&self, str: &FheString, pat: GenericPatternRef<'_>, split_type: SplitType) -> (r: SplitInternal)
        requires
            str.wf(),
            pat.wf(),
        ensures
            r.wf(),
            r.split_type == split_type,
            r.pat@ == pat.value(),
            r.view() == (SplitView {
                state: str.value(),
                prev_was_some: true,
                counter: 0,
                max_counter: succ_sat(str.value().len() as int),
                counter_lt_max: true,
            }),
    {
        let n = value_len(&str.chars);
        proof {
            lemma_value_of(str.chars@, n as int);
        }
        SplitInternal {
            split_type,
            state: str.duplicate(),
            pat: pattern_bytes(&pat),
            prev_was_some: true,
            counter: 0,
            max_counter: n.saturating_add(1),
            counter_lt_max: true,
        }
    }

    /// A split iterator that hands out at most `n` pieces, the last being
    /// all that is left. Only plain and reverse splits can be bounded.
    pub fn splitn_internal(
        &self,
        str: &FheString,
        pat: GenericPatternRef<'_>,
        n: usize,
        split_type: SplitType,
    ) -> (r: SplitNInternal)
        requires
            str.wf(),
            pat.wf(),
            split_type != SplitType::SplitInclusive,
        ensures
            r.wf(),
            r.internal.split_type == split_type,
            r.internal.pat@ == pat.value(),
            r.view() == (SplitNView {
                inner: SplitView {
                    state: str.value(),
                    prev_was_some: true,
                    counter: 0,
                    max_counter: succ_sat(str.value().len() as int),
                    counter_lt_max: true,
                },
                n: n as int,
                counter: 0,
                not_exceeded: n != 0,
            }),
    {
        let internal = self.split_internal(str, pat, split_type);
        SplitNInternal { internal, n, counter: 0, not_exceeded: n != 0 }
    }

    /// A forward split (plain or inclusive) that drops a trailing empty
    /// piece.
    pub fn split_no_trailing(&self, str: &FheString, pat: GenericPatternRef<'_>, split_type: SplitType) -> (r: SplitNoTrailing)
        requires
            str.wf(),
            pat.wf(),
            split_type != SplitType::RSplit,
        ensures
            r.wf(),
            r.internal.split_type == split_type,
            r.internal.pat@ == pat.value(),
            r.internal.view() == (SplitView {
                state: str.value(),
                prev_was_some: true,
                counter: 0,
                max_counter: str.value().len() as int,
                counter_lt_max: true,
            }),
    {
        let n = value_len(&str.chars);
        proof {
            lemma_value_of(str.chars@, n as int);
        }
        let internal = SplitInternal {
            split_type,
            state: str.duplicate(),
            pat: pattern_bytes(&pat),
            prev_was_some: true,
            counter: 0,
            max_counter: n,
            counter_lt_max: true,
        };
        SplitNoTrailing { internal }
    }

    /// A reverse split that drops a leading empty piece. It takes the first
    /// step of the reverse split at once.
    pub fn split_no_leading(&self, str: &FheString, pat: GenericPatternRef<'_>) -> (r: SplitNoLeading)
        requires
            str.wf(),
            pat.wf(),
        ensures
            r.wf(),
            r.internal.split_type == SplitType::RSplit,
            r.internal.pat@ == pat.value(),
            ({
                let v0 = SplitView {
                    state: str.value(),
                    prev_was_some: true,
                    counter: 0,
                    max_counter: succ_sat(str.value().len() as int),
                    counter_lt_max: true,
                };
                let (iv, piece, some) = split_step(SplitType::RSplit, v0, pat.value());
                &&& r.internal.view() == iv
                &&& r.prev_return.0.value() == piece
                &&& r.prev_return.1 == some
                &&& r.leading_empty_str == (piece.len() == 0)
            }),
    {
        let mut internal = self.split_internal(str, pat, SplitType::RSplit);
        let prev_return = internal.next(self);
        let leading_empty_str = prev_return.0.is_empty();
        SplitNoLeading { internal, prev_return, leading_empty_str }
    }
}

} // verus!
