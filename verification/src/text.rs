//! Character-level text model shared by the agreement policy and the
//! sentence detector: Unicode whitespace, trimming, word splitting and
//! joining, all stated over `Seq<char>`.
use vstd::prelude::*;

verus! {

/// The Unicode `White_Space` property, the notion of whitespace that
/// `char::is_whitespace`, `str::trim` and `str::split_whitespace` use.
pub open spec fn spec_is_whitespace(c: char) -> bool {
    let u = c as u32;
    ||| 0x09 <= u <= 0x0D
    ||| u == 0x20
    ||| u == 0x85
    ||| u == 0xA0
    ||| u == 0x1680
    ||| 0x2000 <= u <= 0x200A
    ||| u == 0x2028
    ||| u == 0x2029
    ||| u == 0x202F
    ||| u == 0x205F
    ||| u == 0x3000
}

/// Whether `c` is Unicode whitespace.
pub fn is_whitespace(c: char) -> (b: bool)
    ensures
        b == spec_is_whitespace(c),
{
    let u = c as u32;
    (0x09 <= u && u <= 0x0D) || u == 0x20 || u == 0x85 || u == 0xA0 || u == 0x1680 || (0x2000
        <= u && u <= 0x200A) || u == 0x2028 || u == 0x2029 || u == 0x202F || u == 0x205F || u
        == 0x3000
}

/// `s` without its leading whitespace.
pub open spec fn trim_start(s: Seq<char>) -> Seq<char>
    decreases s.len(),
{
    if s.len() > 0 && spec_is_whitespace(s[0]) {
        trim_start(s.drop_first())
    } else {
        s
    }
}

/// `s` without its trailing whitespace.
pub open spec fn trim_end(s: Seq<char>) -> Seq<char>
    decreases s.len(),
{
    if s.len() > 0 && spec_is_whitespace(s.last()) {
        trim_end(s.drop_last())
    } else {
        s
    }
}

/// `s` without leading and trailing whitespace (what `str::trim` gives).
pub open spec fn trim(s: Seq<char>) -> Seq<char> {
    trim_end(trim_start(s))
}

/// Skipping a whitespace prefix does not change what `trim_start` gives.
pub proof fn lemma_trim_start_skip(s: Seq<char>, k: int)
    requires
        0 <= k <= s.len(),
        forall|j: int| 0 <= j < k ==> spec_is_whitespace(#[trigger] s[j]),
    ensures
        trim_start(s) == trim_start(s.subrange(k, s.len() as int)),
    decreases k,
{
    if k == 0 {
        assert(s.subrange(0, s.len() as int) =~= s);
    } else {
        let t = s.drop_first();
        assert forall|j: int| 0 <= j < k - 1 implies spec_is_whitespace(#[trigger] t[j]) by {
            assert(t[j] == s[j + 1]);
        }
        lemma_trim_start_skip(t, k - 1);
        assert(t.subrange(k - 1, t.len() as int) =~= s.subrange(k, s.len() as int));
    }
}

/// Dropping a whitespace suffix does not change what `trim_end` gives.
pub proof fn lemma_trim_end_skip(s: Seq<char>, k: int)
    requires
        0 <= k <= s.len(),
        forall|j: int| k <= j < s.len() ==> spec_is_whitespace(#[trigger] s[j]),
    ensures
        trim_end(s) == trim_end(s.subrange(0, k)),
    decreases s.len() - k,
{
    if k == s.len() {
        assert(s.subrange(0, k) =~= s);
    } else {
        let t = s.drop_last();
        assert forall|j: int| k <= j < t.len() implies spec_is_whitespace(#[trigger] t[j]) by {
            assert(t[j] == s[j]);
        }
        lemma_trim_end_skip(t, k);
        assert(t.subrange(0, k) =~= s.subrange(0, k));
    }
}

/// The bounds, within `[lo, hi)`, of `s[lo..hi]` with surrounding
/// whitespace removed.
pub fn trim_bounds(s: &Vec<char>, lo: usize, hi: usize) -> (r: (usize, usize))
    requires
        lo <= hi <= s.len(),
    ensures
        lo <= r.0 <= r.1 <= hi,
        s@.subrange(r.0 as int, r.1 as int) == trim(s@.subrange(lo as int, hi as int)),
{
    let mut a = lo;
    while a < hi && is_whitespace(s[a])
        invariant
            lo <= a <= hi <= s.len(),
            forall|j: int| lo <= j < a ==> spec_is_whitespace(#[trigger] s@[j]),
        decreases hi - a,
    {
        a = a + 1;
    }
    let ghost t = s@.subrange(lo as int, hi as int);
    proof {
        assert forall|j: int| 0 <= j < a - lo implies spec_is_whitespace(#[trigger] t[j]) by {
            assert(t[j] == s@[lo + j]);
        }
        lemma_trim_start_skip(t, a - lo);
        assert(t.subrange(a - lo, t.len() as int) =~= s@.subrange(a as int, hi as int));
        let u = s@.subrange(a as int, hi as int);
        if u.len() > 0 {
            assert(u[0] == s@[a as int]);
        }
        assert(trim_start(u) == u);
    }
    let mut b = hi;
    while b > a && is_whitespace(s[b - 1])
        invariant
            lo <= a <= b <= hi <= s.len(),
            forall|j: int| b <= j < hi ==> spec_is_whitespace(#[trigger] s@[j]),
        decreases b - a,
    {
        b = b - 1;
    }
    proof {
        let u = s@.subrange(a as int, hi as int);
        assert forall|j: int| b - a <= j < u.len() implies spec_is_whitespace(#[trigger] u[j]) by {
            assert(u[j] == s@[a + j]);
        }
        lemma_trim_end_skip(u, b - a);
        let v = s@.subrange(a as int, b as int);
        assert(u.subrange(0, b - a) =~= v);
        if v.len() > 0 {
            assert(v.last() == s@[b - 1]);
        }
        assert(trim_end(v) == v);
    }
    (a, b)
}

/// The characters of `s`, in order.
pub fn chars_of(s: &str) -> (v: Vec<char>)
    ensures
        v@ == s@,
{
    let mut v: Vec<char> = Vec::new();
    for c in it: s.chars()
        invariant
            it.seq() == s@,
            v@ == it.seq().take(it.index() as int),
    {
        v.push(c);
    }
    v
}

/// The words of `s` read from its start, where `cur` is the word already
/// begun: maximal runs of non-whitespace characters, in order.
pub open spec fn words_from(s: Seq<char>, cur: Seq<char>) -> Seq<Seq<char>>
    decreases s.len(),
{
    if s.len() == 0 {
        if cur.len() > 0 {
            seq![cur]
        } else {
            seq![]
        }
    } else if spec_is_whitespace(s[0]) {
        (if cur.len() > 0 {
            seq![cur]
        } else {
            seq![]
        }) + words_from(s.drop_first(), seq![])
    } else {
        words_from(s.drop_first(), cur.push(s[0]))
    }
}

/// The words of `s` (what `str::split_whitespace` yields).
pub open spec fn split_words(s: Seq<char>) -> Seq<Seq<char>> {
    words_from(s, seq![])
}

/// The pieces of `s` that a list of index ranges picks out.
pub open spec fn pieces(s: Seq<char>, r: Seq<(usize, usize)>) -> Seq<Seq<char>> {
    r.map_values(|p: (usize, usize)| s.subrange(p.0 as int, p.1 as int))
}

proof fn lemma_words_from(s: Seq<char>, cur: Seq<char>)
    requires
        forall|j: int| 0 <= j < cur.len() ==> !spec_is_whitespace(#[trigger] cur[j]),
    ensures
        words_from(s, cur).flatten() == cur + visible(s),
        forall|k: int|
            0 <= k < words_from(s, cur).len() ==> (#[trigger] words_from(s, cur)[k]).len() > 0
                && forall|j: int|
                0 <= j < words_from(s, cur)[k].len() ==> !spec_is_whitespace(
                    words_from(s, cur)[k][j],
                ),
    decreases s.len(),
{
    let ws = words_from(s, cur);
    let head: Seq<Seq<char>> = if cur.len() > 0 {
        seq![cur]
    } else {
        seq![]
    };
    assert(head.flatten() =~= cur) by {
        if cur.len() > 0 {
            assert(head.drop_first() =~= Seq::<Seq<char>>::empty());
            assert(Seq::<Seq<char>>::empty().flatten() =~= Seq::<char>::empty());
        }
    }
    if s.len() == 0 {
        assert(ws == head);
        assert(visible(s) =~= Seq::<char>::empty());
        assert(cur + Seq::<char>::empty() =~= cur);
    } else if spec_is_whitespace(s[0]) {
        let rest = words_from(s.drop_first(), seq![]);
        lemma_words_from(s.drop_first(), seq![]);
        assert(ws == head + rest);
        vstd::seq_lib::lemma_flatten_concat(head, rest);
        assert(seq![] + visible(s.drop_first()) =~= visible(s.drop_first()));
        assert forall|k: int| 0 <= k < ws.len() implies (#[trigger] ws[k]).len() > 0
            && forall|j: int| 0 <= j < ws[k].len() ==> !spec_is_whitespace(ws[k][j]) by {
            if k < head.len() {
                assert(ws[k] == cur);
            } else {
                assert(ws[k] == rest[k - head.len()]);
            }
        }
    } else {
        let c2 = cur.push(s[0]);
        assert forall|j: int| 0 <= j < c2.len() implies !spec_is_whitespace(#[trigger] c2[j]) by {
            if j < cur.len() {
                assert(c2[j] == cur[j]);
            }
        }
        lemma_words_from(s.drop_first(), c2);
        assert(c2 + visible(s.drop_first()) =~= cur + (seq![s[0]] + visible(s.drop_first())));
    }
}

/// The words of a text are exactly its maximal runs of non-whitespace
/// characters: each is non-empty and holds no whitespace, and together, in
/// order, they hold every non-whitespace character of the text (so
/// punctuation stays in its word).
pub proof fn law_words_are_whitespace_runs(s: Seq<char>)
    ensures
        split_words(s).flatten() == visible(s),
        forall|k: int|
            0 <= k < split_words(s).len() ==> (#[trigger] split_words(s)[k]).len() > 0 && forall|
                j: int,
            |
                0 <= j < split_words(s)[k].len() ==> !spec_is_whitespace(split_words(s)[k][j]),
{
    lemma_words_from(s, seq![]);
    assert(Seq::<char>::empty() + visible(s) =~= visible(s));
}

/// The index ranges of the words of `s`.
pub fn word_ranges(s: &Vec<char>) -> (r: Vec<(usize, usize)>)
    ensures
        pieces(s@, r@) == split_words(s@),
        forall|k: int| #![trigger r@[k]] 0 <= k < r.len() ==> r@[k].0 < r@[k].1 <= s.len(),
{
    let n = s.len();
    let mut r: Vec<(usize, usize)> = Vec::new();
    let mut in_word = false;
    let mut start: usize = 0;
    let mut i: usize = 0;
    assert(s@.subrange(0, n as int) =~= s@);
    assert(pieces(s@, r@) + split_words(s@) =~= split_words(s@));
    while i < n
        invariant
            n == s.len(),
            i <= n,
            in_word ==> start < i,
            forall|k: int| #![trigger r@[k]] 0 <= k < r.len() ==> r@[k].0 < r@[k].1 <= n,
            pieces(s@, r@) + words_from(
                s@.subrange(i as int, n as int),
                if in_word {
                    s@.subrange(start as int, i as int)
                } else {
                    seq![]
                },
            ) == split_words(s@),
        decreases n - i,
    {
        let ghost cur = if in_word {
            s@.subrange(start as int, i as int)
        } else {
            seq![]
        };
        let ghost rest = s@.subrange(i as int, n as int);
        let ghost old_r = r@;
        assert(rest.drop_first() =~= s@.subrange(i + 1, n as int));
        assert(rest[0] == s@[i as int]);
        if is_whitespace(s[i]) {
            if in_word {
                r.push((start, i));
                assert(pieces(s@, r@) =~= pieces(s@, old_r) + seq![cur]);
                assert(pieces(s@, old_r) + (seq![cur] + words_from(s@.subrange(i + 1, n as int), seq![]))
                    =~= pieces(s@, r@) + words_from(s@.subrange(i + 1, n as int), seq![]));
            } else {
                assert(seq![] + words_from(s@.subrange(i + 1, n as int), seq![]) =~= words_from(
                    s@.subrange(i + 1, n as int),
                    seq![],
                ));
            }
            in_word = false;
        } else {
            if !in_word {
                start = i;
            }
            in_word = true;
            assert(cur.push(s@[i as int]) =~= s@.subrange(start as int, i + 1));
        }
        i = i + 1;
    }
    let ghost cur = if in_word {
        s@.subrange(start as int, n as int)
    } else {
        seq![]
    };
    let ghost old_r = r@;
    assert(s@.subrange(n as int, n as int).len() == 0);
    if in_word {
        r.push((start, n));
        assert(pieces(s@, r@) =~= pieces(s@, old_r) + seq![cur]);
        assert forall|k: int| #![trigger r@[k]] 0 <= k < r.len() implies r@[k].0 < r@[k].1 <= s.len() by {
            if k < old_r.len() {
                assert(r@[k] == old_r[k]);
            }
        }
    } else {
        assert(pieces(s@, r@) + seq![] =~= pieces(s@, r@));
    }
    r
}

/// Words joined with single spaces between them.
pub open spec fn join_words(ws: Seq<Seq<char>>) -> Seq<char>
    decreases ws.len(),
{
    if ws.len() == 0 {
        seq![]
    } else if ws.len() == 1 {
        ws[0]
    } else {
        join_words(ws.drop_last()) + seq![' '] + ws.last()
    }
}

/// `words[lo..hi]` joined with single spaces.
pub fn join_range(words: &Vec<String>, lo: usize, hi: usize) -> (r: String)
    requires
        lo <= hi <= words.len(),
    ensures
        r@ == join_words(words.deep_view().subrange(lo as int, hi as int)),
{
    let ghost dv = words.deep_view();
    let mut r = String::new();
    let mut j = lo;
    proof {
        reveal_strlit(" ");
        assert(dv.subrange(lo as int, lo as int).len() == 0);
    }
    while j < hi
        invariant
            lo <= j <= hi <= words.len(),
            dv == words.deep_view(),
            r@ == join_words(dv.subrange(lo as int, j as int)),
            " "@ == seq![' '],
        decreases hi - j,
    {
        let ghost prev = dv.subrange(lo as int, j as int);
        let ghost next = dv.subrange(lo as int, j + 1);
        assert(next.drop_last() =~= prev);
        assert(next.last() == words@[j as int]@);
        if j > lo {
            r.append(" ");
        } else {
            assert(prev.len() == 0);
        }
        r.append(words[j].as_str());
        j = j + 1;
    }
    r
}

/// Names what `str::to_lowercase` returns: the lowercase mapping of the
/// Unicode standard applied to each character of the argument (a
/// character may map to several, and a capital sigma at the end of a
/// word maps to the final form).
pub uninterp spec fn lowercase_of(s: Seq<char>) -> Seq<char>;

/// Calls `str::to_lowercase`; the result is `lowercase_of` the argument,
/// and, as each character's lowercase mapping is one or more characters
/// (the documentation of `char::to_lowercase`, which `str::to_lowercase`
/// applies to each character), it is no shorter than the argument.
#[verifier::external_body]
pub(crate) fn to_lowercase(s: &str) -> (r: String)
    ensures
        r@ == lowercase_of(s@),
        r@.len() >= s@.len(),
{
    s.to_lowercase()
}

/// `trim_start` drops a whitespace prefix and stops at the first other
/// character.
pub proof fn lemma_trim_start_shape(s: Seq<char>) -> (k: int)
    ensures
        0 <= k <= s.len(),
        trim_start(s) == s.subrange(k, s.len() as int),
        forall|j: int| 0 <= j < k ==> spec_is_whitespace(#[trigger] s[j]),
        k < s.len() ==> !spec_is_whitespace(s[k]),
    decreases s.len(),
{
    if s.len() > 0 && spec_is_whitespace(s[0]) {
        let t = s.drop_first();
        let k1 = lemma_trim_start_shape(t);
        assert(t.subrange(k1, t.len() as int) =~= s.subrange(k1 + 1, s.len() as int));
        assert forall|j: int| 0 <= j < k1 + 1 implies spec_is_whitespace(#[trigger] s[j]) by {
            if j > 0 {
                assert(s[j] == t[j - 1]);
            }
        }
        k1 + 1
    } else {
        assert(s.subrange(0, s.len() as int) =~= s);
        0
    }
}

/// `trim_end` drops a whitespace suffix and stops at the last other
/// character.
pub proof fn lemma_trim_end_shape(s: Seq<char>) -> (k: int)
    ensures
        0 <= k <= s.len(),
        trim_end(s) == s.subrange(0, k),
        forall|j: int| k <= j < s.len() ==> spec_is_whitespace(#[trigger] s[j]),
        k > 0 ==> !spec_is_whitespace(s[k - 1]),
    decreases s.len(),
{
    if s.len() > 0 && spec_is_whitespace(s.last()) {
        let t = s.drop_last();
        let k1 = lemma_trim_end_shape(t);
        assert(t.subrange(0, k1) =~= s.subrange(0, k1));
        assert forall|j: int| k1 <= j < s.len() implies spec_is_whitespace(#[trigger] s[j]) by {
            if j < t.len() {
                assert(s[j] == t[j]);
            }
        }
        k1
    } else {
        assert(s.subrange(0, s.len() as int) =~= s);
        s.len() as int
    }
}

/// A sequence that neither begins nor ends with whitespace is its own trim.
pub proof fn lemma_trim_fixed(s: Seq<char>)
    requires
        s.len() > 0 ==> !spec_is_whitespace(s[0]) && !spec_is_whitespace(s.last()),
    ensures
        trim(s) == s,
{
    assert(trim_start(s) == s);
    assert(trim_end(s) == s);
}

/// What `trim` gives begins and ends with non-whitespace, and trimming it
/// again changes nothing.
pub proof fn lemma_trim_idempotent(s: Seq<char>)
    ensures
        trim(s).len() > 0 ==> !spec_is_whitespace(trim(s)[0]) && !spec_is_whitespace(
            trim(s).last(),
        ),
        trim(trim(s)) == trim(s),
{
    let a = lemma_trim_start_shape(s);
    let t = trim_start(s);
    let b = lemma_trim_end_shape(t);
    let u = trim(s);
    if u.len() > 0 {
        assert(u[0] == t[0]);
        assert(u.last() == t[b - 1]);
    }
    lemma_trim_fixed(u);
}

/// The non-whitespace characters of `s`, in order.
pub open spec fn visible(s: Seq<char>) -> Seq<char>
    decreases s.len(),
{
    if s.len() == 0 {
        seq![]
    } else if spec_is_whitespace(s[0]) {
        visible(s.drop_first())
    } else {
        seq![s[0]] + visible(s.drop_first())
    }
}

/// `visible` distributes over concatenation.
pub proof fn lemma_visible_add(a: Seq<char>, b: Seq<char>)
    ensures
        visible(a + b) == visible(a) + visible(b),
    decreases a.len(),
{
    if a.len() == 0 {
        assert(a + b =~= b);
        assert(visible(a) + visible(b) =~= visible(b));
    } else {
        assert((a + b).drop_first() =~= a.drop_first() + b);
        assert((a + b)[0] == a[0]);
        lemma_visible_add(a.drop_first(), b);
        if !spec_is_whitespace(a[0]) {
            assert(seq![a[0]] + (visible(a.drop_first()) + visible(b)) =~= (seq![a[0]] + visible(
                a.drop_first(),
            )) + visible(b));
        }
    }
}

/// Whitespace has no visible characters.
pub proof fn lemma_visible_blank(s: Seq<char>)
    requires
        forall|j: int| 0 <= j < s.len() ==> spec_is_whitespace(#[trigger] s[j]),
    ensures
        visible(s) == Seq::<char>::empty(),
    decreases s.len(),
{
    if s.len() > 0 {
        assert(spec_is_whitespace(s[0]));
        let t = s.drop_first();
        assert forall|j: int| 0 <= j < t.len() implies spec_is_whitespace(#[trigger] t[j]) by {
            assert(t[j] == s[j + 1]);
        }
        lemma_visible_blank(t);
    }
}

/// A space is not visible.
pub proof fn lemma_visible_space()
    ensures
        visible(seq![' ']) == Seq::<char>::empty(),
{
    let s = seq![' '];
    assert(spec_is_whitespace(s[0]));
    assert(s.drop_first() =~= Seq::<char>::empty());
    assert(visible(Seq::<char>::empty()) =~= Seq::<char>::empty());
}

/// Trimming keeps every visible character.
pub proof fn lemma_visible_trim(s: Seq<char>)
    ensures
        visible(trim(s)) == visible(s),
{
    let a = lemma_trim_start_shape(s);
    let t = trim_start(s);
    let b = lemma_trim_end_shape(t);
    assert(s =~= s.subrange(0, a) + t);
    lemma_visible_add(s.subrange(0, a), t);
    lemma_visible_blank(s.subrange(0, a));
    assert(t =~= t.subrange(0, b) + t.subrange(b, t.len() as int));
    lemma_visible_add(t.subrange(0, b), t.subrange(b, t.len() as int));
    assert forall|j: int| 0 <= j < t.len() - b implies spec_is_whitespace(
        #[trigger] t.subrange(b, t.len() as int)[j],
    ) by {
        assert(t.subrange(b, t.len() as int)[j] == t[b + j]);
    }
    lemma_visible_blank(t.subrange(b, t.len() as int));
    assert(visible(s.subrange(0, a)) + visible(t) =~= visible(t));
    assert(visible(t.subrange(0, b)) + visible(t.subrange(b, t.len() as int)) =~= visible(
        t.subrange(0, b),
    ));
}

/// `s` without leading and trailing whitespace.
pub fn trimmed(s: &str) -> (r: String)
    ensures
        r@ == trim(s@),
{
    let chars = chars_of(s);
    let (a, b) = trim_bounds(&chars, 0, chars.len());
    assert(chars@.subrange(0, chars@.len() as int) =~= s@);
    String::from_str(s.substring_char(a, b))
}

} // verus!
