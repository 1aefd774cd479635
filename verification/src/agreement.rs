//! LocalAgreement-n: words are confirmed only once the last `n`
//! transcription passes agree on them as a word-level prefix.
use std::collections::VecDeque;
use vstd::prelude::*;

use crate::text::{
    chars_of, join_range, join_words, lowercase_of, split_words, to_lowercase, word_ranges,
};

verus! {

/// A window of transcription passes, each a sequence of words.
pub type Window = Seq<Seq<Seq<char>>>;

/// The lowercased words of a transcription.
pub open spec fn lower_words(text: Seq<char>) -> Seq<Seq<char>> {
    split_words(text).map_values(|w: Seq<char>| lowercase_of(w))
}

/// Every pass of `h` has a `j`-th word, and it is the first pass's `j`-th word.
pub open spec fn column_agrees(h: Window, j: int) -> bool {
    forall|e: int| 0 <= e < h.len() ==> j < #[trigger] h[e].len() && h[e][j] == h[0][j]
}

/// Every pass of `h` has the same first `k` words.
pub open spec fn agree_upto(h: Window, k: int) -> bool {
    forall|j: int| 0 <= j < k ==> #[trigger] column_agrees(h, j)
}

/// The length of the longest common word prefix of the passes of `h`,
/// counted from position `k` on.
pub open spec fn common_prefix_from(h: Window, k: nat) -> nat
    decreases h[0].len() - k,
{
    if h.len() > 0 && k < h[0].len() && column_agrees(h, k as int) {
        common_prefix_from(h, k + 1)
    } else {
        k
    }
}

/// The length of the longest word prefix that all passes of `h` share
/// (0 for an empty window).
pub open spec fn common_prefix_len(h: Window) -> nat {
    common_prefix_from(h, 0)
}

/// The window after a pass is added: the newest `n` passes.
pub open spec fn next_window(h: Window, n: nat, words: Seq<Seq<char>>) -> Window {
    let p = h.push(words);
    if p.len() > n {
        p.drop_first()
    } else {
        p
    }
}

/// Whether the window `h` confirms words beyond the first `c`.
pub open spec fn confirms_more(h: Window, n: nat, c: nat) -> bool {
    h.len() >= n && common_prefix_len(h) > c
}

/// The newly confirmed words, joined with spaces, that a window `h` of
/// `n` passes yields when the first `c` words were confirmed before.
pub open spec fn confirmed_delta(h: Window, n: nat, c: nat) -> Option<Seq<char>> {
    if confirms_more(h, n, c) {
        Some(join_words(h.last().subrange(c as int, common_prefix_len(h) as int)))
    } else {
        None
    }
}

/// The number of confirmed words after the window `h` was seen.
pub open spec fn next_confirmed(h: Window, n: nat, c: nat) -> nat {
    if confirms_more(h, n, c) {
        common_prefix_len(h)
    } else {
        c
    }
}

/// LocalAgreement-n policy: text is emitted only when `n` consecutive
/// transcription passes agree on a word-level prefix.
pub struct LocalAgreement {
    n: usize,
    history: VecDeque<Vec<String>>,
    confirmed_len: usize,
    passes: Ghost<Seq<Seq<Seq<char>>>>,
}

impl LocalAgreement {
    #[verifier::type_invariant]
    spec fn inv(self) -> bool {
        &&& self.n >= 1
        &&& self.history@.len() <= self.n
        &&& self.history.deep_view() == replay(self.n as nat, self.passes@).0
        &&& self.confirmed_len == replay(self.n as nat, self.passes@).1
    }

    /// How many consecutive passes must agree.
    pub closed spec fn n(&self) -> nat {
        self.n as nat
    }

    /// The last passes seen since the last reset, oldest first, each as its
    /// lowercased words.
    pub closed spec fn window(&self) -> Window {
        self.history.deep_view()
    }

    /// How many words of the agreed prefix have been emitted.
    pub closed spec fn confirmed(&self) -> nat {
        self.confirmed_len as nat
    }

    /// All passes fed since the policy was made or last reset, oldest
    /// first, each as its lowercased words.
    pub closed spec fn passes(&self) -> Seq<Seq<Seq<char>>> {
        self.passes@
    }

    /// A policy that needs `n` agreeing passes (at least one).
    pub fn new(n: usize) -> (r: Self)
        ensures
            r.n() == if n >= 1 {
                n as nat
            } else {
                1
            },
            r.window() == Seq::<Seq<Seq<char>>>::empty(),
            r.confirmed() == 0,
            r.passes() == Seq::<Seq<Seq<char>>>::empty(),
    {
        let history: VecDeque<Vec<String>> = VecDeque::new();
        assert(history.deep_view() =~= Seq::<Seq<Seq<char>>>::empty());
        LocalAgreement {
            n: if n >= 1 {
                n
            } else {
                1
            },
            history,
            confirmed_len: 0,
            passes: Ghost(Seq::empty()),
        }
    }

    /// Feeds a transcription pass. Returns the newly confirmed words,
    /// joined with spaces, or `None` when no new word is agreed.
    pub fn process(&mut self, text: &str) -> (r: Option<String>)
        ensures
            final(self).n() == old(self).n(),
            final(self).n() >= 1,
            final(self).passes() == old(self).passes().push(lower_words(text@)),
            final(self).window() == next_window(
                old(self).window(),
                old(self).n(),
                lower_words(text@),
            ),
            final(self).window().len() <= final(self).n(),
            r.deep_view() == confirmed_delta(
                final(self).window(),
                final(self).n(),
                old(self).confirmed(),
            ),
            final(self).confirmed() == next_confirmed(
                final(self).window(),
                final(self).n(),
                old(self).confirmed(),
            ),
            final(self).window() == replay(final(self).n(), final(self).passes()).0,
            final(self).confirmed() == replay(final(self).n(), final(self).passes()).1,
            r matches Some(d) ==> d@.len() > 0,
    {
        let words = lowercase_words(text);
        self.process_words(words)
    }

    /// Feeds a transcription pass given as its lowercased words. Returns the
    /// newly confirmed words, joined with spaces, or `None` when no new word
    /// is agreed.
    pub fn process_words(&mut self, words: Vec<String>) -> (r: Option<String>)
        ensures
            final(self).n() == old(self).n(),
            final(self).n() >= 1,
            final(self).passes() == old(self).passes().push(words.deep_view()),
            final(self).window() == next_window(
                old(self).window(),
                old(self).n(),
                words.deep_view(),
            ),
            final(self).window().len() <= final(self).n(),
            r.deep_view() == confirmed_delta(
                final(self).window(),
                final(self).n(),
                old(self).confirmed(),
            ),
            final(self).confirmed() == next_confirmed(
                final(self).window(),
                final(self).n(),
                old(self).confirmed(),
            ),
            final(self).window() == replay(final(self).n(), final(self).passes()).0,
            final(self).confirmed() == replay(final(self).n(), final(self).passes()).1,
            (forall|k: int| 0 <= k < words@.len() ==> #[trigger] words@[k]@.len() > 0) ==> (
            r matches Some(d) ==> d@.len() > 0),
    {
        proof {
            use_type_invariant(&*self);
        }
        let mut state = LocalAgreement::new(self.n);
        std::mem::swap(&mut state, self);
        proof {
            use_type_invariant(&state);
        }
        let n = state.n;
        let ghost passes = state.passes@;
        let ghost old_h = state.history.deep_view();
        let ghost ws = words.deep_view();
        let confirmed_len = state.confirmed_len;
        let mut history = state.history;
        if history.len() >= n {
            history.pop_front();
        }
        history.push_back(words);
        let ghost new_passes = passes.push(ws);
        proof {
            let p = old_h.push(ws);
            if p.len() > n {
                assert(history.deep_view() =~= p.drop_first());
            } else {
                assert(history.deep_view() =~= p);
            }
            assert(new_passes.drop_last() =~= passes);
            assert(history.deep_view() == replay(n as nat, new_passes).0);
        }
        if history.len() < n {
            *self = LocalAgreement { n, history, confirmed_len, passes: Ghost(new_passes) };
            return None;
        }
        let common_len = common_prefix_of(&history);
        if common_len > confirmed_len {
            let last = history.len() - 1;
            proof {
                lemma_common_prefix_bound(history.deep_view());
                assert(history.deep_view()[last as int] == history@[last as int].deep_view());
                assert(history.deep_view()[last as int] == ws);
            }
            let delta = join_range(&history[last], confirmed_len, common_len);
            proof {
                let part = ws.subrange(confirmed_len as int, common_len as int);
                if forall|k: int| 0 <= k < words@.len() ==> #[trigger] words@[k]@.len() > 0 {
                    assert(ws[common_len - 1] == words@[common_len - 1]@);
                    assert(part.last() == ws[common_len - 1]);
                    lemma_join_words_last(part);
                }
            }
            *self = LocalAgreement {
                n,
                history,
                confirmed_len: common_len,
                passes: Ghost(new_passes),
            };
            Some(delta)
        } else {
            *self = LocalAgreement { n, history, confirmed_len, passes: Ghost(new_passes) };
            None
        }
    }

    /// Forgets all passes between speech segments.
    pub fn reset(&mut self)
        ensures
            final(self).n() == old(self).n(),
            final(self).window() == Seq::<Seq<Seq<char>>>::empty(),
            final(self).confirmed() == 0,
            final(self).passes() == Seq::<Seq<Seq<char>>>::empty(),
    {
        proof {
            use_type_invariant(&*self);
        }
        *self = LocalAgreement::new(self.n);
    }
}

/// Joined words are at least as long as the last of them.
proof fn lemma_join_words_last(ws: Seq<Seq<char>>)
    requires
        ws.len() > 0,
    ensures
        join_words(ws).len() >= ws.last().len(),
{
}

/// The length of the longest word prefix common to the passes kept.
fn common_prefix_of(history: &VecDeque<Vec<String>>) -> (r: usize)
    ensures
        r == common_prefix_len(history.deep_view()),
{
    let ghost h = history.deep_view();
    if history.len() == 0 {
        return 0;
    }
    let count = history.len();
    assert forall|g: int| 0 <= g < count implies #[trigger] h[g] == history@[g].deep_view()
        && h[g].len() == history@[g]@.len() by {}
    let mut min_len = history[0].len();
    assert(h[0].len() == min_len);
    let mut e: usize = 1;
    while e < count
        invariant
            count == history@.len(),
            h == history.deep_view(),
            forall|g: int| 0 <= g < count ==> #[trigger] h[g] == history@[g].deep_view()
                && h[g].len() == history@[g]@.len(),
            1 <= e <= count,
            exists|f: int| 0 <= f < e && #[trigger] h[f].len() == min_len,
            forall|f: int| 0 <= f < e ==> min_len <= #[trigger] h[f].len(),
        decreases count - e,
    {
        assert(h[e as int].len() == history@[e as int]@.len());
        if history[e].len() < min_len {
            min_len = history[e].len();
        }
        e = e + 1;
    }
    let mut common: usize = 0;
    while common < min_len
        invariant
            count == history@.len(),
            count >= 1,
            h == history.deep_view(),
            forall|g: int| 0 <= g < count ==> #[trigger] h[g] == history@[g].deep_view()
                && h[g].len() == history@[g]@.len(),
            common <= min_len,
            exists|f: int| 0 <= f < count && #[trigger] h[f].len() == min_len,
            forall|f: int| 0 <= f < count ==> min_len <= #[trigger] h[f].len(),
            common_prefix_from(h, common as nat) == common_prefix_len(h),
        decreases min_len - common,
    {
        let word = &history[0][common];
        let mut all = true;
        let mut f: usize = 0;
        while f < count
            invariant
                count == history@.len(),
                count >= 1,
                h == history.deep_view(),
                forall|g: int| 0 <= g < count ==> #[trigger] h[g] == history@[g].deep_view()
                    && h[g].len() == history@[g]@.len(),
                f <= count,
                common < min_len,
                forall|g: int| 0 <= g < count ==> min_len <= #[trigger] h[g].len(),
                *word == history@[0]@[common as int],
                all == (forall|g: int|
                    0 <= g < f ==> #[trigger] h[g][common as int] == h[0][common as int]),
            decreases count - f,
        {
            assert(h[f as int][common as int] == history@[f as int]@[common as int]@);
            assert(h[0][common as int] == history@[0]@[common as int]@);
            if !(history[f][common] == *word) {
                all = false;
            }
            f = f + 1;
        }
        if all {
            assert(column_agrees(h, common as int));
            common = common + 1;
        } else {
            proof {
                let g = choose|g: int|
                    0 <= g < count && #[trigger] h[g][common as int] != h[0][common as int];
                assert(!(common < h[g].len() && h[g][common as int] == h[0][common as int]));
            }
            return common;
        }
    }
    proof {
        let f = choose|f: int| 0 <= f < count && #[trigger] h[f].len() == min_len;
        assert(!column_agrees(h, min_len as int)) by {
            assert(!(min_len < h[f].len()));
        }
    }
    common
}


/// The lowercased words of `text`, in order.
fn lowercase_words(text: &str) -> (r: Vec<String>)
    ensures
        r.deep_view() == lower_words(text@),
        forall|k: int| 0 <= k < r@.len() ==> #[trigger] r@[k]@.len() > 0,
{
    let chars = chars_of(text);
    let ranges = word_ranges(&chars);
    let ghost ws = split_words(text@);
    let mut r: Vec<String> = Vec::new();
    let mut k: usize = 0;
    while k < ranges.len()
        invariant
            chars@ == text@,
            k <= ranges.len(),
            ws == split_words(text@),
            ranges@.map_values(|p: (usize, usize)| chars@.subrange(p.0 as int, p.1 as int)) == ws,
            forall|q: int| #![trigger ranges@[q]] 0 <= q < ranges.len() ==> ranges@[q].0 < ranges@[q].1 <= chars.len(),
            r.deep_view() == ws.take(k as int).map_values(|w: Seq<char>| lowercase_of(w)),
            r@.len() == k,
            forall|q: int| 0 <= q < k ==> #[trigger] r@[q]@.len() > 0,
        decreases ranges.len() - k,
    {
        let (a, b) = ranges[k];
        let w = text.substring_char(a, b);
        assert(ranges@.map_values(|p: (usize, usize)| chars@.subrange(p.0 as int, p.1 as int))[k as int]
            == chars@.subrange(a as int, b as int));
        assert(w@ == ws[k as int]);
        let ghost prev = r.deep_view();
        let lw = to_lowercase(w);
        assert(w@.len() == b - a);
        r.push(lw);
        assert(r.deep_view() =~= prev.push(lw@));
        assert(ws.take(k + 1) =~= ws.take(k as int).push(ws[k as int]));
        assert(r.deep_view() =~= ws.take(k + 1).map_values(|w: Seq<char>| lowercase_of(w)));
        k = k + 1;
    }
    assert(ws.take(k as int) =~= ws);
    r
}

/// A common prefix is no longer than any pass.
pub proof fn lemma_common_prefix_bound(h: Window)
    requires
        h.len() > 0,
    ensures
        agree_upto(h, common_prefix_len(h) as int),
        forall|e: int| 0 <= e < h.len() ==> common_prefix_len(h) <= #[trigger] h[e].len(),
{
    lemma_common_prefix_from(h, 0);
}

proof fn lemma_common_prefix_from(h: Window, k: nat)
    requires
        h.len() > 0,
        agree_upto(h, k as int),
        k <= h[0].len(),
    ensures
        agree_upto(h, common_prefix_from(h, k) as int),
        common_prefix_from(h, k) >= k,
        common_prefix_from(h, k) == h[0].len() || !column_agrees(
            h,
            common_prefix_from(h, k) as int,
        ),
        forall|e: int| 0 <= e < h.len() ==> common_prefix_from(h, k) <= #[trigger] h[e].len(),
    decreases h[0].len() - k,
{
    if k < h[0].len() && column_agrees(h, k as int) {
        assert(agree_upto(h, k + 1 as int)) by {
            assert forall|j: int| 0 <= j < k + 1 implies #[trigger] column_agrees(h, j) by {
                if j < k {
                    assert(column_agrees(h, j));
                }
            }
        }
        lemma_common_prefix_from(h, k + 1);
    } else {
        assert forall|e: int| 0 <= e < h.len() implies k <= #[trigger] h[e].len() by {
            if k > 0 {
                assert(column_agrees(h, k - 1));
            }
        }
    }
}

/// Words are emitted only when `n` passes agree: whenever a window yields
/// new words, it holds at least `n` passes, and every one of them has, word
/// for word, the same first `next_confirmed` words as the newest pass,
/// from which the emitted words are taken.
pub proof fn law_emitted_words_are_agreed(h: Window, n: nat, c: nat)
    requires
        confirmed_delta(h, n, c) is Some,
    ensures
        h.len() >= n,
        c < next_confirmed(h, n, c) <= h.last().len(),
        forall|e: int, j: int|
            0 <= e < h.len() && 0 <= j < next_confirmed(h, n, c) ==> j < h[e].len() && #[trigger] h[e][j]
                == h.last()[j],
{
    let cp = common_prefix_len(h);
    assert(h.len() > 0) by {
        if h.len() == 0 {
            assert(common_prefix_from(h, 0) == 0);
        }
    }
    lemma_common_prefix_bound(h);
    assert forall|e: int, j: int|
        0 <= e < h.len() && 0 <= j < cp implies j < h[e].len() && #[trigger] h[e][j] == h.last()[j] by {
        assert(column_agrees(h, j));
        assert(h[h.len() - 1][j] == h[0][j]);
    }
}

/// The window keeps exactly the newest passes, at most `n` of them: after
/// a pass is added to a window of at most `n` passes, it is the last
/// `min(n, len + 1)` passes of the history extended by the new pass.
pub proof fn law_window_keeps_newest_passes(h: Window, n: nat, words: Seq<Seq<char>>)
    requires
        n >= 1,
        h.len() <= n,
    ensures
        next_window(h, n, words).len() <= n,
        next_window(h, n, words).last() == words,
        next_window(h, n, words) == h.push(words).subrange(
            (h.len() + 1 - next_window(h, n, words).len()) as int,
            (h.len() + 1) as int,
        ),
{
    let p = h.push(words);
    if p.len() > n {
        assert(p.drop_first() =~= p.subrange(1, p.len() as int));
    } else {
        assert(p =~= p.subrange(0, p.len() as int));
    }
}

/// The agreed prefix is the longest one: every pass shares its first
/// `common_prefix_len` words with the first pass, and the prefix stops
/// either at the end of the first pass or where some pass ends or differs
/// from the first.
pub proof fn law_common_prefix_is_longest(h: Window)
    requires
        h.len() > 0,
    ensures
        forall|e: int, j: int|
            0 <= e < h.len() && 0 <= j < common_prefix_len(h) ==> j < h[e].len() && #[trigger] h[e][j]
                == h[0][j],
        common_prefix_len(h) <= h[0].len(),
        common_prefix_len(h) == h[0].len() || exists|e: int|
            0 <= e < h.len() && (common_prefix_len(h) >= (#[trigger] h[e]).len() || h[e][common_prefix_len(
                h,
            ) as int] != h[0][common_prefix_len(h) as int]),
{
    lemma_common_prefix_from(h, 0);
    let cp = common_prefix_len(h);
    assert forall|e: int, j: int|
        0 <= e < h.len() && 0 <= j < cp implies j < h[e].len() && #[trigger] h[e][j] == h[0][j] by {
        assert(column_agrees(h, j));
    }
    if cp != h[0].len() {
        assert(!column_agrees(h, cp as int));
        let e = choose|e: int|
            0 <= e < h.len() && !(cp < #[trigger] h[e].len() && h[e][cp as int] == h[0][cp as int]);
        assert(0 <= e < h.len());
    }
}

/// The count of confirmed words never falls while passes are fed, and it
/// grows exactly when new words are emitted.
pub proof fn law_confirmed_grows_with_output(h: Window, n: nat, c: nat)
    ensures
        next_confirmed(h, n, c) >= c,
        (next_confirmed(h, n, c) > c) == (confirmed_delta(h, n, c) is Some),
{
}

/// Until `n` passes have been seen since the last reset, nothing is emitted.
pub proof fn law_nothing_before_n_passes(h: Window, n: nat, c: nat)
    requires
        h.len() < n,
    ensures
        confirmed_delta(h, n, c) is None,
        next_confirmed(h, n, c) == c,
{
}

/// A policy's window, confirmed count and total of emitted words after
/// the passes `passes` (each as its lowercased words) since it was made or
/// reset: each emission of the words from position `c` to `c'` of the
/// newest pass counts `c' - c` words.
pub open spec fn replay(n: nat, passes: Seq<Seq<Seq<char>>>) -> (Window, nat, nat)
    decreases passes.len(),
{
    if passes.len() == 0 {
        (Seq::empty(), 0, 0)
    } else {
        let r = replay(n, passes.drop_last());
        let w = next_window(r.0, n, passes.last());
        let c = next_confirmed(w, n, r.1);
        (w, c, r.2 + (c - r.1) as nat)
    }
}

/// The longest prefix that any full window of the passes agreed on (0 when
/// none was full).
pub open spec fn best_agreed(n: nat, passes: Seq<Seq<Seq<char>>>) -> nat
    decreases passes.len(),
{
    if passes.len() == 0 {
        0
    } else {
        let before = best_agreed(n, passes.drop_last());
        let w = replay(n, passes).0;
        let here: nat = if w.len() >= n {
            common_prefix_len(w)
        } else {
            0
        };
        if here > before {
            here
        } else {
            before
        }
    }
}

/// Over a whole run of passes since the policy was made or reset (its
/// `passes()`, with `window()` and `confirmed()` their `replay`): the
/// window holds the newest `n` passes; the number of words emitted so far
/// equals the confirmed count; and that count is the longest prefix that
/// any full window so far agreed on, so it never falls.
pub proof fn law_replay(n: nat, passes: Seq<Seq<Seq<char>>>)
    requires
        n >= 1,
    ensures
        replay(n, passes).0 == passes.subrange(
            passes.len() - (if passes.len() < n {
                passes.len() as int
            } else {
                n as int
            }),
            passes.len() as int,
        ),
        replay(n, passes).2 == replay(n, passes).1,
        replay(n, passes).1 == best_agreed(n, passes),
    decreases passes.len(),
{
    if passes.len() == 0 {
        assert(passes.subrange(0, 0) =~= Seq::<Seq<Seq<char>>>::empty());
    } else {
        let prev = passes.drop_last();
        law_replay(n, prev);
        let r = replay(n, prev);
        let m = passes.len() as int;
        let k_prev: int = if prev.len() < n {
            prev.len() as int
        } else {
            n as int
        };
        assert(r.0.len() <= n);
        law_window_keeps_newest_passes(r.0, n, passes.last());
        let w = next_window(r.0, n, passes.last());
        let p = r.0.push(passes.last());
        assert(p =~= passes.subrange(m - 1 - k_prev, m));
        assert(w =~= passes.subrange(
            m - (if passes.len() < n {
                m
            } else {
                n as int
            }),
            m,
        ));
    }
}

} // verus!
