//! Sentence boundary detection: splits on terminal punctuation (`.`, `?`,
//! `!`) while leaving abbreviations and ellipses inside their sentence.
use vstd::prelude::*;

use crate::text::{
    chars_of, lemma_trim_idempotent, lemma_trim_start_shape, lemma_visible_add, lemma_visible_trim,
    spec_is_whitespace, trim, trim_bounds, trim_end, trim_start, visible,
};

verus! {

/// Terminal punctuation.
pub open spec fn spec_is_terminal(c: char) -> bool {
    c == '.' || c == '?' || c == '!'
}

/// Whether `c` is terminal punctuation.
pub fn is_terminal(c: char) -> (b: bool)
    ensures
        b == spec_is_terminal(c),
{
    c == '.' || c == '?' || c == '!'
}

/// The abbreviations whose final period does not end a sentence.
pub open spec fn abbreviations() -> Seq<Seq<char>> {
    seq![
        "Mr."@,
        "Mrs."@,
        "Ms."@,
        "Dr."@,
        "Prof."@,
        "Sr."@,
        "Jr."@,
        "St."@,
        "vs."@,
        "etc."@,
        "Inc."@,
        "Ltd."@,
        "Corp."@,
        "Dept."@,
        "Univ."@,
        "Ave."@,
        "Blvd."@,
        "e.g."@,
        "i.e."@,
        "a.m."@,
        "p.m."@,
    ]
}

/// The abbreviations, in the order of `abbreviations()`.
fn abbreviation_list() -> (r: Vec<&'static str>)
    ensures
        r@.map_values(|a: &str| a@) == abbreviations(),
{
    let r = vec![
        "Mr.",
        "Mrs.",
        "Ms.",
        "Dr.",
        "Prof.",
        "Sr.",
        "Jr.",
        "St.",
        "vs.",
        "etc.",
        "Inc.",
        "Ltd.",
        "Corp.",
        "Dept.",
        "Univ.",
        "Ave.",
        "Blvd.",
        "e.g.",
        "i.e.",
        "a.m.",
        "p.m.",
    ];
    assert(r@.map_values(|a: &str| a@) =~= abbreviations());
    r
}

/// `s` ends with `suffix`.
pub open spec fn ends_with(s: Seq<char>, suffix: Seq<char>) -> bool {
    suffix.len() <= s.len() && s.subrange(s.len() - suffix.len(), s.len() as int) == suffix
}

/// `text`, trimmed, ends with one of the abbreviations.
pub open spec fn spec_is_abbreviation(text: Seq<char>) -> bool {
    exists|k: int| 0 <= k < abbreviations().len() && ends_with(trim(text), #[trigger] abbreviations()[k])
}

/// Whether `s[lo..hi]` ends with `suffix`.
fn ends_with_at(s: &Vec<char>, lo: usize, hi: usize, suffix: &Vec<char>) -> (b: bool)
    requires
        lo <= hi <= s.len(),
    ensures
        b == ends_with(s@.subrange(lo as int, hi as int), suffix@),
{
    let m = suffix.len();
    if m > hi - lo {
        return false;
    }
    let base = hi - m;
    let mut j: usize = 0;
    while j < m
        invariant
            lo <= base <= hi <= s.len(),
            m == suffix.len(),
            base + m == hi,
            j <= m,
            forall|q: int| 0 <= q < j ==> s@[base + q] == suffix@[q],
        decreases m - j,
    {
        if s[base + j] != suffix[j] {
            proof {
                let t = s@.subrange(lo as int, hi as int);
                assert(t.subrange(t.len() - m, t.len() as int)[j as int] == s@[base + j]);
            }
            return false;
        }
        j = j + 1;
    }
    let ghost t = s@.subrange(lo as int, hi as int);
    assert(t.subrange(t.len() - m, t.len() as int) =~= suffix@);
    true
}

/// Whether `s[lo..hi]`, trimmed, ends with an abbreviation.
fn abbreviation_at(s: &Vec<char>, lo: usize, hi: usize) -> (b: bool)
    requires
        lo <= hi <= s.len(),
    ensures
        b == spec_is_abbreviation(s@.subrange(lo as int, hi as int)),
{
    let (a, b) = trim_bounds(s, lo, hi);
    let list = abbreviation_list();
    let mut k: usize = 0;
    while k < list.len()
        invariant
            lo <= a <= b <= hi <= s.len(),
            s@.subrange(a as int, b as int) == trim(s@.subrange(lo as int, hi as int)),
            list@.map_values(|a: &str| a@) == abbreviations(),
            k <= list.len(),
            forall|q: int|
                0 <= q < k ==> !ends_with(
                    s@.subrange(a as int, b as int),
                    #[trigger] abbreviations()[q],
                ),
        decreases list.len() - k,
    {
        let abbr = chars_of(list[k]);
        assert(abbr@ == abbreviations()[k as int]);
        if ends_with_at(s, a, b, &abbr) {
            return true;
        }
        k = k + 1;
    }
    false
}

/// Whether `text`, trimmed, ends with an abbreviation.
pub fn is_abbreviation(text: &str) -> (b: bool)
    ensures
        b == spec_is_abbreviation(text@),
{
    let chars = chars_of(text);
    assert(chars@.subrange(0, chars@.len() as int) =~= text@);
    abbreviation_at(&chars, 0, chars.len())
}

/// `a` occurs in `s` at position `p`.
pub open spec fn occurs_at(s: Seq<char>, p: int, a: Seq<char>) -> bool {
    0 <= p && p + a.len() <= s.len() && s.subrange(p, p + a.len()) == a
}

/// The period at `i` is an inner period of an occurrence of the
/// abbreviation `a` that lies in `buf` from `start` on: `a` begins `j`
/// characters before `i`, and its `j`-th character is a period that is not
/// its last one (as the first period of "e.g.").
pub open spec fn inner_period_of(buf: Seq<char>, start: int, i: int, a: Seq<char>) -> bool {
    exists|j: int|
        #![trigger a[j]]
        0 <= j < a.len() - 1 && a[j] == '.' && start <= i - j && occurs_at(buf, i - j, a)
}

/// The period at `i` lies inside one of the abbreviations, which the rest
/// of that abbreviation follows.
pub open spec fn inside_abbreviation(buf: Seq<char>, start: int, i: int) -> bool {
    exists|k: int|
        0 <= k < abbreviations().len() && inner_period_of(buf, start, i, #[trigger] abbreviations()[k])
}

/// Whether `a` occurs in `s` at position `p`.
fn occurs_at_exec(s: &Vec<char>, p: usize, a: &Vec<char>) -> (b: bool)
    ensures
        b == occurs_at(s@, p as int, a@),
{
    if p > s.len() || a.len() > s.len() - p {
        return false;
    }
    let mut q: usize = 0;
    while q < a.len()
        invariant
            p + a.len() <= s.len(),
            q <= a.len(),
            forall|r: int| 0 <= r < q ==> s@[p + r] == a@[r],
        decreases a.len() - q,
    {
        if s[p + q] != a[q] {
            assert(s@.subrange(p as int, p + a.len())[q as int] == s@[p + q]);
            return false;
        }
        q = q + 1;
    }
    assert(s@.subrange(p as int, p + a.len()) =~= a@);
    true
}

/// Whether the period at `i` is an inner period of an occurrence of `a`
/// from `start` on.
fn inner_period_exec(s: &Vec<char>, start: usize, i: usize, a: &Vec<char>) -> (b: bool)
    requires
        start <= i < s.len(),
    ensures
        b == inner_period_of(s@, start as int, i as int, a@),
{
    let mut j: usize = 0;
    while j < a.len() && j < a.len() - 1
        invariant
            start <= i < s.len(),
            forall|q: int|
                #![trigger a@[q]]
                0 <= q < j && q < a@.len() - 1 ==> !(a@[q] == '.' && start <= i - q && occurs_at(
                    s@,
                    i - q,
                    a@,
                )),
        decreases a.len() - j,
    {
        if a[j] == '.' && j <= i - start {
            if occurs_at_exec(s, i - j, a) {
                assert(a@[j as int] == '.');
                return true;
            }
        }
        j = j + 1;
    }
    false
}

/// Whether the period at `i` lies inside an abbreviation that begins at or
/// after `start`.
fn inside_abbreviation_exec(s: &Vec<char>, start: usize, i: usize) -> (b: bool)
    requires
        start <= i < s.len(),
    ensures
        b == inside_abbreviation(s@, start as int, i as int),
{
    let list = abbreviation_list();
    let mut k: usize = 0;
    while k < list.len()
        invariant
            start <= i < s.len(),
            list@.map_values(|a: &str| a@) == abbreviations(),
            k <= list.len(),
            forall|q: int|
                0 <= q < k ==> !inner_period_of(
                    s@,
                    start as int,
                    i as int,
                    #[trigger] abbreviations()[q],
                ),
        decreases list.len() - k,
    {
        let abbr = chars_of(list[k]);
        assert(abbr@ == abbreviations()[k as int]);
        if inner_period_exec(s, start, i, &abbr) {
            return true;
        }
        k = k + 1;
    }
    false
}

/// Three periods starting at `i`, the last of them not at the end of `s`'s
/// scanned range: an ellipsis, which never ends a sentence.
pub open spec fn ellipsis_at(s: Seq<char>, i: int) -> bool {
    &&& s[i] == '.'
    &&& i + 2 < s.len()
    &&& s[i + 1] == '.'
    &&& s[i + 2] == '.'
}

/// Scans `buf` from position `i`, the current sentence having begun at
/// `start`. Yields the complete sentences found (trimmed, empty ones
/// dropped) and where the unfinished fragment begins.
pub open spec fn scan(buf: Seq<char>, start: int, i: int) -> (Seq<Seq<char>>, int)
    decreases buf.len() - i,
{
    if !(0 <= i < buf.len()) {
        (seq![], start)
    } else if !spec_is_terminal(buf[i]) {
        scan(buf, start, i + 1)
    } else if ellipsis_at(buf, i) {
        scan(buf, start, i + 3)
    } else if buf[i] == '.' && (spec_is_abbreviation(buf.subrange(start, i + 1))
        || inside_abbreviation(buf, start, i)) {
        scan(buf, start, i + 1)
    } else {
        let piece = trim(buf.subrange(start, i + 1));
        let rest = scan(buf, i + 1, i + 1);
        (
            if piece.len() > 0 {
                seq![piece] + rest.0
            } else {
                rest.0
            },
            rest.1,
        )
    }
}

/// The complete sentences of `buf` and the trimmed fragment after them.
pub open spec fn split_sentences(buf: Seq<char>) -> (Seq<Seq<char>>, Seq<char>) {
    let r = scan(buf, 0, 0);
    (r.0, trim(buf.subrange(r.1, buf.len() as int)))
}

/// Splits accumulated transcription text into sentences.
pub struct SentenceDetector {
    buffer: String,
}

impl SentenceDetector {
    /// The text kept since the last complete sentence.
    pub closed spec fn buffer(&self) -> Seq<char> {
        self.buffer@
    }

    /// A detector with nothing buffered.
    pub fn new() -> (r: Self)
        ensures
            r.buffer() == Seq::<char>::empty(),
    {
        SentenceDetector { buffer: String::new() }
    }

    /// Appends `text` to the buffer and returns the complete sentences it
    /// now holds and the remaining fragment, which becomes the buffer.
    pub fn process(&mut self, text: &str) -> (r: (Vec<String>, String))
        ensures
            r.0.deep_view() == split_sentences(old(self).buffer() + text@).0,
            r.1@ == split_sentences(old(self).buffer() + text@).1,
            final(self).buffer() == r.1@,
    {
        self.buffer.append(text);
        let chars = chars_of(self.buffer.as_str());
        let ghost buf = chars@;
        let len = chars.len();
        let mut sentences: Vec<String> = Vec::new();
        let mut start: usize = 0;
        let mut i: usize = 0;
        assert(sentences.deep_view() + scan(buf, 0, 0).0 =~= scan(buf, 0, 0).0);
        while i < len
            invariant
                chars@ == buf,
                self.buffer@ == buf,
                len == buf.len(),
                start <= i <= len,
                sentences.deep_view() + scan(buf, start as int, i as int).0 == scan(buf, 0, 0).0,
                scan(buf, start as int, i as int).1 == scan(buf, 0, 0).1,
            decreases len - i,
        {
            if is_terminal(chars[i]) {
                if chars[i] == '.' && len - i > 2 && chars[i + 1] == '.' && chars[i + 2] == '.' {
                    i = i + 3;
                    continue;
                }
                if chars[i] == '.' && (abbreviation_at(&chars, start, i + 1)
                    || inside_abbreviation_exec(&chars, start, i)) {
                    i = i + 1;
                    continue;
                }
                let (a, b) = trim_bounds(&chars, start, i + 1);
                let ghost prev = sentences.deep_view();
                let ghost rest = scan(buf, i + 1, i + 1);
                if a < b {
                    let sentence = String::from_str(self.buffer.as_str().substring_char(a, b));
                    sentences.push(sentence);
                    assert(sentences.deep_view() =~= prev.push(sentence@));
                    assert(prev + (seq![sentence@] + rest.0) =~= sentences.deep_view() + rest.0);
                }
                start = i + 1;
            }
            i = i + 1;
        }
        let (a, b) = trim_bounds(&chars, start, len);
        let remaining = String::from_str(self.buffer.as_str().substring_char(a, b));
        assert(sentences.deep_view() + seq![] =~= sentences.deep_view());
        self.buffer = remaining.clone();
        (sentences, remaining)
    }

    /// Drops whatever is buffered.
    pub fn reset(&mut self)
        ensures
            final(self).buffer() == Seq::<char>::empty(),
    {
        self.buffer = String::new();
    }

    /// Returns the buffered text, trimmed, as a last sentence when it is not
    /// empty, and empties the buffer.
    pub fn flush(&mut self) -> (r: Option<String>)
        ensures
            final(self).buffer() == Seq::<char>::empty(),
            r.deep_view() == if trim(old(self).buffer()).len() > 0 {
                Some(trim(old(self).buffer()))
            } else {
                None
            },
    {
        let chars = chars_of(self.buffer.as_str());
        let (a, b) = trim_bounds(&chars, 0, chars.len());
        assert(chars@.subrange(0, chars@.len() as int) =~= chars@);
        let text = String::from_str(self.buffer.as_str().substring_char(a, b));
        self.buffer = String::new();
        if a == b {
            None
        } else {
            Some(text)
        }
    }
}

/// A complete sentence: not empty, without surrounding whitespace, and
/// ending in terminal punctuation.
pub open spec fn is_complete_sentence(s: Seq<char>) -> bool {
    &&& s.len() > 0
    &&& spec_is_terminal(s.last())
    &&& trim(s) == s
}

proof fn lemma_scan(buf: Seq<char>, start: int, i: int)
    requires
        0 <= start <= i <= buf.len(),
    ensures
        start <= scan(buf, start, i).1 <= buf.len(),
        forall|k: int|
            0 <= k < scan(buf, start, i).0.len() ==> is_complete_sentence(
                #[trigger] scan(buf, start, i).0[k],
            ),
        visible(scan(buf, start, i).0.flatten()) + visible(
            buf.subrange(scan(buf, start, i).1, buf.len() as int),
        ) == visible(buf.subrange(start, buf.len() as int)),
    decreases buf.len() - i,
{
    let n = buf.len() as int;
    if !(0 <= i < n) {
        assert(scan(buf, start, i).0.flatten() =~= Seq::<char>::empty());
        assert(Seq::<char>::empty() + visible(buf.subrange(start, n)) =~= visible(
            buf.subrange(start, n),
        ));
    } else if !spec_is_terminal(buf[i]) {
        lemma_scan(buf, start, i + 1);
    } else if ellipsis_at(buf, i) {
        lemma_scan(buf, start, i + 3);
    } else if buf[i] == '.' && (spec_is_abbreviation(buf.subrange(start, i + 1))
        || inside_abbreviation(buf, start, i)) {
        lemma_scan(buf, start, i + 1);
    } else {
        let sub = buf.subrange(start, i + 1);
        let piece = trim(sub);
        let rest = scan(buf, i + 1, i + 1);
        lemma_scan(buf, i + 1, i + 1);
        let tail = buf.subrange(rest.1, n);
        lemma_visible_trim(sub);
        assert(buf.subrange(start, n) =~= sub + buf.subrange(i + 1, n));
        lemma_visible_add(sub, buf.subrange(i + 1, n));
        if piece.len() > 0 {
            let k = lemma_trim_start_shape(sub);
            assert(sub.last() == buf[i]);
            assert(!spec_is_whitespace(buf[i]));
            assert(k < sub.len());
            let t = trim_start(sub);
            assert(t.last() == buf[i]);
            assert(trim_end(t) == t);
            lemma_trim_idempotent(sub);
            assert(is_complete_sentence(piece));
            let all = seq![piece] + rest.0;
            assert(all.drop_first() =~= rest.0);
            assert(all.flatten() == piece + rest.0.flatten());
            lemma_visible_add(piece, rest.0.flatten());
            assert forall|q: int| 0 <= q < all.len() implies is_complete_sentence(#[trigger] all[q]) by {
                if q > 0 {
                    assert(all[q] == rest.0[q - 1]);
                }
            }
            assert(visible(piece) + visible(rest.0.flatten()) + visible(tail) =~= visible(piece) + (
            visible(rest.0.flatten()) + visible(tail)));
        } else {
            assert(visible(piece) =~= Seq::<char>::empty());
            assert(visible(sub) + visible(buf.subrange(i + 1, n)) =~= visible(
                buf.subrange(i + 1, n),
            ));
        }
    }
}

/// Every sentence that detection yields is complete: non-empty, trimmed,
/// and ending in `.`, `?` or `!`.
pub proof fn law_sentences_are_complete(buf: Seq<char>)
    ensures
        forall|k: int|
            0 <= k < split_sentences(buf).0.len() ==> is_complete_sentence(
                #[trigger] split_sentences(buf).0[k],
            ),
{
    lemma_scan(buf, 0, 0);
}

/// Detection loses no text but whitespace: the sentences followed by the
/// fragment hold exactly the non-whitespace characters of the input, in
/// order.
pub proof fn law_no_text_lost(buf: Seq<char>)
    ensures
        visible(split_sentences(buf).0.flatten() + split_sentences(buf).1) == visible(buf),
{
    lemma_scan(buf, 0, 0);
    let r = scan(buf, 0, 0);
    lemma_visible_add(r.0.flatten(), split_sentences(buf).1);
    lemma_visible_trim(buf.subrange(r.1, buf.len() as int));
    assert(buf.subrange(0, buf.len() as int) =~= buf);
}

/// The fragment kept for the next call is already trimmed.
pub proof fn law_fragment_is_trimmed(buf: Seq<char>)
    ensures
        trim(split_sentences(buf).1) == split_sentences(buf).1,
{
    let r = scan(buf, 0, 0);
    lemma_trim_idempotent(buf.subrange(r.1, buf.len() as int));
}

proof fn lemma_scan_no_terminal(buf: Seq<char>, start: int, i: int)
    requires
        0 <= start <= i <= buf.len(),
        forall|j: int| 0 <= j < buf.len() ==> !spec_is_terminal(#[trigger] buf[j]),
    ensures
        scan(buf, start, i) == (Seq::<Seq<char>>::empty(), start),
    decreases buf.len() - i,
{
    if i < buf.len() {
        assert(!spec_is_terminal(buf[i]));
        lemma_scan_no_terminal(buf, start, i + 1);
    } else {
        assert(scan(buf, start, i).0 =~= Seq::<Seq<char>>::empty());
    }
}

/// Text without terminal punctuation yields no sentence; all of it,
/// trimmed, stays as the fragment.
pub proof fn law_no_terminal_no_sentence(buf: Seq<char>)
    requires
        forall|j: int| 0 <= j < buf.len() ==> !spec_is_terminal(#[trigger] buf[j]),
    ensures
        split_sentences(buf).0.len() == 0,
        split_sentences(buf).1 == trim(buf),
{
    lemma_scan_no_terminal(buf, 0, 0);
    assert(buf.subrange(0, buf.len() as int) =~= buf);
}

proof fn lemma_piece_nonempty(sub: Seq<char>)
    requires
        sub.len() > 0,
        spec_is_terminal(sub.last()),
    ensures
        trim(sub).len() > 0,
{
    let k = lemma_trim_start_shape(sub);
    assert(!spec_is_whitespace(sub.last()));
    assert(k < sub.len());
    let t = trim_start(sub);
    assert(t.last() == sub.last());
    assert(trim_end(t) == t);
}

proof fn lemma_scan_offsets(buf: Seq<char>, start: int, i: int) -> (e: Seq<int>)
    requires
        0 <= start <= i <= buf.len(),
    ensures
        e.len() == scan(buf, start, i).0.len() + 1,
        e[0] == start,
        e.last() == scan(buf, start, i).1,
        forall|j: int|
            #![trigger e[j + 1]]
            0 <= j < e.len() - 1 ==> e[j] < e[j + 1] <= buf.len() && spec_is_terminal(
                buf[e[j + 1] - 1],
            ) && scan(buf, start, i).0[j] == trim(buf.subrange(e[j], e[j + 1])),
    decreases buf.len() - i,
{
    let n = buf.len() as int;
    if !(0 <= i < n) {
        seq![start]
    } else if !spec_is_terminal(buf[i]) {
        lemma_scan_offsets(buf, start, i + 1)
    } else if ellipsis_at(buf, i) {
        lemma_scan_offsets(buf, start, i + 3)
    } else if buf[i] == '.' && (spec_is_abbreviation(buf.subrange(start, i + 1))
        || inside_abbreviation(buf, start, i)) {
        lemma_scan_offsets(buf, start, i + 1)
    } else {
        let sub = buf.subrange(start, i + 1);
        assert(sub.last() == buf[i]);
        lemma_piece_nonempty(sub);
        let rest = scan(buf, i + 1, i + 1);
        let e1 = lemma_scan_offsets(buf, i + 1, i + 1);
        let e = seq![start] + e1;
        let all = scan(buf, start, i).0;
        assert(all == seq![trim(sub)] + rest.0);
        assert forall|j: int|
            #![trigger e[j + 1]]
            0 <= j < e.len() - 1 implies e[j] < e[j + 1] <= buf.len() && spec_is_terminal(
                buf[e[j + 1] - 1],
            ) && all[j] == trim(buf.subrange(e[j], e[j + 1])) by {
            if j == 0 {
                assert(e[1] == e1[0]);
            } else {
                assert(e[j] == e1[j - 1]);
                assert(e[j + 1] == e1[(j - 1) + 1]);
                assert(all[j] == rest.0[j - 1]);
            }
        }
        e
    }
}

/// Where the sentences come from: there are offsets
/// `0 == e[0] < e[1] < ... < e[k] <= buf.len()`, `k` the number of
/// sentences, such that each `buf[..e[j + 1]]` ends in terminal
/// punctuation, sentence `j` is `buf[e[j]..e[j + 1]]` trimmed, and the
/// fragment is `buf[e[k]..]` trimmed.
pub proof fn law_sentence_boundaries(buf: Seq<char>) -> (e: Seq<int>)
    ensures
        e.len() == split_sentences(buf).0.len() + 1,
        e[0] == 0,
        e.last() <= buf.len(),
        forall|j: int|
            #![trigger e[j + 1]]
            0 <= j < e.len() - 1 ==> e[j] < e[j + 1] && spec_is_terminal(buf[e[j + 1] - 1])
                && split_sentences(buf).0[j] == trim(buf.subrange(e[j], e[j + 1])),
        split_sentences(buf).1 == trim(buf.subrange(e.last(), buf.len() as int)),
{
    lemma_scan(buf, 0, 0);
    lemma_scan_offsets(buf, 0, 0)
}

/// `a` looks like an abbreviation: at least two characters, no
/// whitespace, ending in a period, its only terminal punctuation periods,
/// and no two periods in a row.
spec fn abbreviation_shaped(a: Seq<char>) -> bool {
    &&& a.len() >= 2
    &&& a.last() == '.'
    &&& forall|q: int| 0 <= q < a.len() ==> !spec_is_whitespace(#[trigger] a[q])
    &&& forall|q: int| 0 <= q < a.len() && spec_is_terminal(#[trigger] a[q]) ==> a[q] == '.'
    &&& forall|q: int| 0 <= q < a.len() - 1 && #[trigger] a[q] == '.' ==> a[q + 1] != '.'
}

proof fn lemma_listed(a: Seq<char>)
    requires
        a == "Mr."@
        || a == "Mrs."@
        || a == "Ms."@
        || a == "Dr."@
        || a == "Prof."@
        || a == "Sr."@
        || a == "Jr."@
        || a == "St."@
        || a == "vs."@
        || a == "etc."@
        || a == "Inc."@
        || a == "Ltd."@
        || a == "Corp."@
        || a == "Dept."@
        || a == "Univ."@
        || a == "Ave."@
        || a == "Blvd."@
        || a == "e.g."@
        || a == "i.e."@
        || a == "a.m."@
        || a == "p.m."@,
    ensures
        abbreviation_shaped(a),
        exists|k: int| 0 <= k < abbreviations().len() && #[trigger] abbreviations()[k] == a,
{
    reveal_strlit("Mr.");
    reveal_strlit("Mrs.");
    reveal_strlit("Ms.");
    reveal_strlit("Dr.");
    reveal_strlit("Prof.");
    reveal_strlit("Sr.");
    reveal_strlit("Jr.");
    reveal_strlit("St.");
    reveal_strlit("vs.");
    reveal_strlit("etc.");
    reveal_strlit("Inc.");
    reveal_strlit("Ltd.");
    reveal_strlit("Corp.");
    reveal_strlit("Dept.");
    reveal_strlit("Univ.");
    reveal_strlit("Ave.");
    reveal_strlit("Blvd.");
    reveal_strlit("e.g.");
    reveal_strlit("i.e.");
    reveal_strlit("a.m.");
    reveal_strlit("p.m.");
    let l = abbreviations();
    if a == "Mr."@ {
        assert(l[0] == a);
    }
    if a == "Mrs."@ {
        assert(l[1] == a);
    }
    if a == "Ms."@ {
        assert(l[2] == a);
    }
    if a == "Dr."@ {
        assert(l[3] == a);
    }
    if a == "Prof."@ {
        assert(l[4] == a);
    }
    if a == "Sr."@ {
        assert(l[5] == a);
    }
    if a == "Jr."@ {
        assert(l[6] == a);
    }
    if a == "St."@ {
        assert(l[7] == a);
    }
    if a == "vs."@ {
        assert(l[8] == a);
    }
    if a == "etc."@ {
        assert(l[9] == a);
    }
    if a == "Inc."@ {
        assert(l[10] == a);
    }
    if a == "Ltd."@ {
        assert(l[11] == a);
    }
    if a == "Corp."@ {
        assert(l[12] == a);
    }
    if a == "Dept."@ {
        assert(l[13] == a);
    }
    if a == "Univ."@ {
        assert(l[14] == a);
    }
    if a == "Ave."@ {
        assert(l[15] == a);
    }
    if a == "Blvd."@ {
        assert(l[16] == a);
    }
    if a == "e.g."@ {
        assert(l[17] == a);
    }
    if a == "i.e."@ {
        assert(l[18] == a);
    }
    if a == "a.m."@ {
        assert(l[19] == a);
    }
    if a == "p.m."@ {
        assert(l[20] == a);
    }
}

/// A trimmed text still ends with a suffix that holds no whitespace.
proof fn lemma_trim_keeps_suffix(x: Seq<char>, a: Seq<char>)
    requires
        x.len() >= a.len() > 0,
        x.subrange(x.len() - a.len(), x.len() as int) == a,
        forall|q: int| 0 <= q < a.len() ==> !spec_is_whitespace(#[trigger] a[q]),
    ensures
        ends_with(trim(x), a),
{
    let n = x.len() as int;
    let m = a.len() as int;
    let k0 = lemma_trim_start_shape(x);
    assert(x[n - m] == a[0]);
    assert(k0 <= n - m);
    let t = trim_start(x);
    assert(t.last() == a[m - 1]) by {
        assert(x[n - 1] == a[m - 1]);
    }
    assert(trim_end(t) == t);
    assert(t.subrange(t.len() - m, t.len() as int) =~= a) by {
        assert forall|q: int| 0 <= q < m implies t.subrange(t.len() - m, t.len() as int)[q] == a[q] by {
            assert(x.subrange(n - m, n)[q] == x[n - m + q]);
        }
    }
}

proof fn lemma_scan_plain(buf: Seq<char>, start: int, i: int, k: int)
    requires
        0 <= start <= i <= k <= buf.len(),
        forall|j: int| i <= j < k ==> !spec_is_terminal(#[trigger] buf[j]),
    ensures
        scan(buf, start, i) == scan(buf, start, k),
    decreases k - i,
{
    if i < k {
        lemma_scan_plain(buf, start, i + 1, k);
    }
}

proof fn lemma_scan_through(buf: Seq<char>, p: int, a: Seq<char>, q: int)
    requires
        abbreviation_shaped(a),
        exists|k: int| 0 <= k < abbreviations().len() && #[trigger] abbreviations()[k] == a,
        0 <= p,
        p + a.len() < buf.len(),
        occurs_at(buf, p, a),
        buf[p + a.len()] == ' ',
        0 <= q <= a.len(),
    ensures
        scan(buf, 0, p + q) == scan(buf, 0, p + a.len()),
    decreases a.len() - q,
{
    let m = a.len() as int;
    if q < m {
        let i = p + q;
        assert(buf[i] == buf.subrange(p, p + m)[q]);
        assert(buf[i] == a[q]);
        lemma_scan_through(buf, p, a, q + 1);
        if spec_is_terminal(buf[i]) {
            assert(a[q] == '.');
            if q < m - 1 {
                assert(buf[i + 1] == buf.subrange(p, p + m)[q + 1]);
                assert(buf[i + 1] != '.');
                assert(inner_period_of(buf, 0, i, a)) by {
                    assert(a[q] == '.');
                }
                let k = choose|k: int| 0 <= k < abbreviations().len() && #[trigger] abbreviations()[k] == a;
                assert(inner_period_of(buf, 0, i, abbreviations()[k]));
                assert(inside_abbreviation(buf, 0, i));
            } else {
                assert(!ellipsis_at(buf, i));
                let x = buf.subrange(0, i + 1);
                assert(x.subrange(x.len() - m, x.len() as int) =~= a) by {
                    assert forall|r: int| 0 <= r < m implies x.subrange(x.len() - m, x.len() as int)[r] == a[r] by {
                        assert(buf.subrange(p, p + m)[r] == buf[p + r]);
                    }
                }
                lemma_trim_keeps_suffix(x, a);
                let k = choose|k: int| 0 <= k < abbreviations().len() && #[trigger] abbreviations()[k] == a;
                assert(ends_with(trim(x), abbreviations()[k]));
                assert(spec_is_abbreviation(x));
            }
        }
    }
}

proof fn lemma_one_sentence(p: Seq<char>, a: Seq<char>, w: Seq<char>)
    requires
        abbreviation_shaped(a),
        exists|k: int| 0 <= k < abbreviations().len() && #[trigger] abbreviations()[k] == a,
        forall|j: int| 0 <= j < p.len() ==> !spec_is_terminal(#[trigger] p[j]),
        forall|j: int| 0 <= j < w.len() ==> !spec_is_terminal(#[trigger] w[j]),
    ensures
        split_sentences(p + a + seq![' '] + w + seq!['?']).0 == seq![
            trim(p + a + seq![' '] + w + seq!['?']),
        ],
        split_sentences(p + a + seq![' '] + w + seq!['?']).1 == Seq::<char>::empty(),
{
    let buf = p + a + seq![' '] + w + seq!['?'];
    let n = buf.len() as int;
    let pl = p.len() as int;
    let m = a.len() as int;
    assert forall|j: int| 0 <= j < pl implies !spec_is_terminal(#[trigger] buf[j]) by {
        assert(buf[j] == p[j]);
    }
    lemma_scan_plain(buf, 0, 0, pl);
    assert(buf.subrange(pl, pl + m) =~= a);
    assert(buf[pl + m] == ' ');
    lemma_scan_through(buf, pl, a, 0);
    assert forall|j: int| pl + m <= j < n - 1 implies !spec_is_terminal(#[trigger] buf[j]) by {
        if j > pl + m {
            assert(buf[j] == w[j - pl - m - 1]);
        }
    }
    lemma_scan_plain(buf, 0, pl + m, n - 1);
    assert(buf[n - 1] == '?');
    let sub = buf.subrange(0, n);
    assert(sub =~= buf);
    lemma_piece_nonempty(sub);
    assert(scan(buf, n, n) == (Seq::<Seq<char>>::empty(), n));
    assert(scan(buf, 0, n - 1) == (seq![trim(sub)] + Seq::<Seq<char>>::empty(), n));
    assert(seq![trim(sub)] + Seq::<Seq<char>>::empty() =~= seq![trim(buf)]);
    assert(buf.subrange(n, n) =~= Seq::<char>::empty());
    assert(trim(Seq::<char>::empty()) =~= Seq::<char>::empty());
}


/// A period that ends one of the abbreviations (Mr., Mrs., Ms., Dr.,
/// Prof., Sr., Jr., St., vs., etc., Inc., Ltd., Corp., Dept., Univ., Ave.,
/// Blvd., e.g., i.e., a.m., p.m.), or lies inside one, never ends a
/// sentence: text without terminal punctuation, then such an abbreviation,
/// a space, more text without terminal punctuation and a question mark,
/// is one sentence, with nothing left over.
pub proof fn law_abbreviations_do_not_end_sentences(p: Seq<char>, a: Seq<char>, w: Seq<char>)
    requires
        a == "Mr."@
        || a == "Mrs."@
        || a == "Ms."@
        || a == "Dr."@
        || a == "Prof."@
        || a == "Sr."@
        || a == "Jr."@
        || a == "St."@
        || a == "vs."@
        || a == "etc."@
        || a == "Inc."@
        || a == "Ltd."@
        || a == "Corp."@
        || a == "Dept."@
        || a == "Univ."@
        || a == "Ave."@
        || a == "Blvd."@
        || a == "e.g."@
        || a == "i.e."@
        || a == "a.m."@
        || a == "p.m."@,
        forall|j: int| 0 <= j < p.len() ==> !spec_is_terminal(#[trigger] p[j]),
        forall|j: int| 0 <= j < w.len() ==> !spec_is_terminal(#[trigger] w[j]),
    ensures
        split_sentences(p + a + seq![' '] + w + seq!['?']).0 == seq![
            trim(p + a + seq![' '] + w + seq!['?']),
        ],
        split_sentences(p + a + seq![' '] + w + seq!['?']).1 == Seq::<char>::empty(),
{
    lemma_listed(a);
    lemma_one_sentence(p, a, w);
}

/// An ellipsis followed by more text never ends a sentence: text without
/// terminal punctuation, then "...", a space, more text without terminal
/// punctuation and a question mark, is one sentence, with nothing left
/// over.
pub proof fn law_ellipsis_does_not_end_sentence(p: Seq<char>, w: Seq<char>)
    requires
        forall|j: int| 0 <= j < p.len() ==> !spec_is_terminal(#[trigger] p[j]),
        forall|j: int| 0 <= j < w.len() ==> !spec_is_terminal(#[trigger] w[j]),
    ensures
        split_sentences(p + seq!['.', '.', '.', ' '] + w + seq!['?']).0 == seq![
            trim(p + seq!['.', '.', '.', ' '] + w + seq!['?']),
        ],
        split_sentences(p + seq!['.', '.', '.', ' '] + w + seq!['?']).1 == Seq::<char>::empty(),
{
    let buf = p + seq!['.', '.', '.', ' '] + w + seq!['?'];
    let n = buf.len() as int;
    let pl = p.len() as int;
    assert forall|j: int| 0 <= j < pl implies !spec_is_terminal(#[trigger] buf[j]) by {
        assert(buf[j] == p[j]);
    }
    lemma_scan_plain(buf, 0, 0, pl);
    assert(buf[pl] == '.' && buf[pl + 1] == '.' && buf[pl + 2] == '.' && buf[pl + 3] == ' ');
    assert(ellipsis_at(buf, pl));
    assert(scan(buf, 0, pl) == scan(buf, 0, pl + 3));
    assert forall|j: int| pl + 3 <= j < n - 1 implies !spec_is_terminal(#[trigger] buf[j]) by {
        if j > pl + 3 {
            assert(buf[j] == w[j - pl - 4]);
        }
    }
    lemma_scan_plain(buf, 0, pl + 3, n - 1);
    assert(buf[n - 1] == '?');
    let sub = buf.subrange(0, n);
    assert(sub =~= buf);
    lemma_piece_nonempty(sub);
    assert(scan(buf, n, n) == (Seq::<Seq<char>>::empty(), n));
    assert(scan(buf, 0, n - 1) == (seq![trim(sub)] + Seq::<Seq<char>>::empty(), n));
    assert(seq![trim(sub)] + Seq::<Seq<char>>::empty() =~= seq![trim(buf)]);
    assert(buf.subrange(n, n) =~= Seq::<char>::empty());
    assert(trim(Seq::<char>::empty()) =~= Seq::<char>::empty());
}

} // verus!
