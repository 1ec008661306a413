//! Character-level text model shared by the parsers: Unicode whitespace,
//! trimming, whitespace-separated words and occurrences of a pattern.

use vstd::prelude::*;

verus! {

/// Unicode `White_Space`, the set that `char::is_whitespace` tests.
pub open spec fn is_ws(c: char) -> bool {
    let u = c as u32;
    ||| 0x09 <= u <= 0x0d
    ||| u == 0x20
    ||| u == 0x85
    ||| u == 0xa0
    ||| u == 0x1680
    ||| 0x2000 <= u <= 0x200a
    ||| u == 0x2028
    ||| u == 0x2029
    ||| u == 0x202f
    ||| u == 0x205f
    ||| u == 0x3000
}

/// `s` without its leading whitespace.
pub open spec fn trim_start(s: Seq<char>) -> Seq<char>
    decreases s.len(),
{
    if s.len() > 0 && is_ws(s[0]) {
        trim_start(s.drop_first())
    } else {
        s
    }
}

/// `s` without its trailing whitespace.
pub open spec fn trim_end(s: Seq<char>) -> Seq<char>
    decreases s.len(),
{
    if s.len() > 0 && is_ws(s.last()) {
        trim_end(s.drop_last())
    } else {
        s
    }
}

/// `s` without leading and trailing whitespace.
pub open spec fn trim(s: Seq<char>) -> Seq<char> {
    trim_end(trim_start(s))
}

/// The characters of `s` before its first whitespace character.
pub open spec fn leading_word(s: Seq<char>) -> Seq<char>
    decreases s.len(),
{
    if s.len() == 0 || is_ws(s[0]) {
        Seq::empty()
    } else {
        seq![s[0]] + leading_word(s.drop_first())
    }
}

/// The maximal runs of non-whitespace characters of `s`, in order.
pub open spec fn words(s: Seq<char>) -> Seq<Seq<char>>
    decreases s.len(),
{
    let t = trim_start(s);
    if t.len() == 0 {
        Seq::empty()
    } else {
        proof {
            lemma_trim_start_shorter(s);
            lemma_leading_word_nonempty(t);
        }
        let w = leading_word(t);
        seq![w] + words(t.skip(w.len() as int))
    }
}

/// `p` is a prefix of `s`.
pub open spec fn starts_with(s: Seq<char>, p: Seq<char>) -> bool {
    p.len() <= s.len() && s.take(p.len() as int) == p
}

/// `p` occurs in `s` at index `i`.
pub open spec fn occurs_at(s: Seq<char>, p: Seq<char>, i: int) -> bool {
    0 <= i && i + p.len() <= s.len() && s.subrange(i, i + p.len()) == p
}

pub proof fn lemma_trim_start_shorter(s: Seq<char>)
    ensures
        trim_start(s).len() <= s.len(),
        trim_start(s).len() > 0 ==> !is_ws(trim_start(s)[0]),
    decreases s.len(),
{
    if s.len() > 0 && is_ws(s[0]) {
        lemma_trim_start_shorter(s.drop_first());
    }
}

pub proof fn lemma_leading_word_nonempty(t: Seq<char>)
    ensures
        leading_word(t).len() <= t.len(),
        t.len() > 0 && !is_ws(t[0]) ==> leading_word(t).len() >= 1,
    decreases t.len(),
{
    if t.len() > 0 && !is_ws(t[0]) {
        lemma_leading_word_nonempty(t.drop_first());
    }
}

/// Dropping whitespace from `s[a..b]` up to the first non-whitespace index `c`.
pub proof fn lemma_trim_start_sub(s: Seq<char>, a: int, b: int, c: int)
    requires
        0 <= a <= c <= b <= s.len(),
        forall|k: int| a <= k < c ==> is_ws(#[trigger] s[k]),
        c == b || !is_ws(s[c]),
    ensures
        trim_start(s.subrange(a, b)) == s.subrange(c, b),
    decreases c - a,
{
    if a < c {
        assert(s.subrange(a, b).drop_first() =~= s.subrange(a + 1, b));
        lemma_trim_start_sub(s, a + 1, b, c);
    }
}

/// Dropping whitespace from the end of `s[a..b]` down to index `c`.
pub proof fn lemma_trim_end_sub(s: Seq<char>, a: int, b: int, c: int)
    requires
        0 <= a <= c <= b <= s.len(),
        forall|k: int| c <= k < b ==> is_ws(#[trigger] s[k]),
        c == a || !is_ws(s[c - 1]),
    ensures
        trim_end(s.subrange(a, b)) == s.subrange(a, c),
    decreases b - c,
{
    if c < b {
        assert(s.subrange(a, b).drop_last() =~= s.subrange(a, b - 1));
        lemma_trim_end_sub(s, a, b - 1, c);
    }
}

/// The leading word of `s[q..b]` is `s[q..r]`.
pub proof fn lemma_leading_word_sub(s: Seq<char>, q: int, r: int, b: int)
    requires
        0 <= q <= r <= b <= s.len(),
        forall|k: int| q <= k < r ==> !is_ws(#[trigger] s[k]),
        r == b || is_ws(s[r]),
    ensures
        leading_word(s.subrange(q, b)) == s.subrange(q, r),
    decreases r - q,
{
    if q < r {
        assert(s.subrange(q, b).drop_first() =~= s.subrange(q + 1, b));
        lemma_leading_word_sub(s, q + 1, r, b);
        assert(seq![s[q]] + s.subrange(q + 1, r) =~= s.subrange(q, r));
    } else {
        assert(s.subrange(q, r) =~= Seq::<char>::empty());
    }
}

/// Trimming the end of a text whose first character is not whitespace keeps
/// that character.
pub proof fn lemma_trim_end_keeps_first(s: Seq<char>)
    requires
        s.len() > 0,
        !is_ws(s[0]),
    ensures
        trim_end(s).len() > 0,
    decreases s.len(),
{
    if is_ws(s.last()) {
        lemma_trim_end_keeps_first(s.drop_last());
    }
}

/// Whether `c` is Unicode whitespace.
pub fn is_whitespace(c: char) -> (b: bool)
    ensures
        b == is_ws(c),
{
    let u = c as u32;
    (0x09 <= u && u <= 0x0d) || u == 0x20 || u == 0x85 || u == 0xa0 || u == 0x1680 || (0x2000
        <= u && u <= 0x200a) || u == 0x2028 || u == 0x2029 || u == 0x202f || u == 0x205f || u
        == 0x3000
}

/// The characters of `s`, one per element.
pub fn chars_of(s: &str) -> (v: Vec<char>)
    ensures
        v@ == s@,
{
    let mut v: Vec<char> = Vec::new();
    for c in it: s.chars()
        invariant
            it.seq() == s@,
            v@ == it.seq().take(it.index() as int),
    {
        v.push(c);
    }
    v
}

/// The first index in `from..to` that is `to` or holds no whitespace.
pub fn skip_ws_forward(v: &Vec<char>, from: usize, to: usize) -> (c: usize)
    requires
        from <= to <= v.len(),
    ensures
        from <= c <= to,
        forall|k: int| from <= k < c ==> is_ws(#[trigger] v@[k]),
        c == to || !is_ws(v@[c as int]),
{
    let mut c = from;
    while c < to && is_whitespace(v[c])
        invariant
            from <= c <= to <= v.len(),
            forall|k: int| from <= k < c ==> is_ws(#[trigger] v@[k]),
        decreases to - c,
    {
        c = c + 1;
    }
    c
}

/// The last index in `from..=to` that is `from` or follows a non-whitespace
/// character, going down from `to`.
pub fn skip_ws_backward(v: &Vec<char>, from: usize, to: usize) -> (c: usize)
    requires
        from <= to <= v.len(),
    ensures
        from <= c <= to,
        forall|k: int| c <= k < to ==> is_ws(#[trigger] v@[k]),
        c == from || !is_ws(v@[c - 1]),
{
    let mut c = to;
    while c > from && is_whitespace(v[c - 1])
        invariant
            from <= c <= to <= v.len(),
            forall|k: int| c <= k < to ==> is_ws(#[trigger] v@[k]),
        decreases c - from,
    {
        c = c - 1;
    }
    c
}

/// The first index in `from..to` that is `to` or holds whitespace.
pub fn skip_word(v: &Vec<char>, from: usize, to: usize) -> (c: usize)
    requires
        from <= to <= v.len(),
    ensures
        from <= c <= to,
        forall|k: int| from <= k < c ==> !is_ws(#[trigger] v@[k]),
        c == to || is_ws(v@[c as int]),
{
    let mut c = from;
    while c < to && !is_whitespace(v[c])
        invariant
            from <= c <= to <= v.len(),
            forall|k: int| from <= k < c ==> !is_ws(#[trigger] v@[k]),
        decreases to - c,
    {
        c = c + 1;
    }
    c
}

/// Whether `p` occurs in `v` at index `i`.
pub fn matches_at(v: &Vec<char>, i: usize, p: &Vec<char>) -> (b: bool)
    ensures
        b == occurs_at(v@, p@, i as int),
{
    if i > v.len() || p.len() > v.len() - i {
        return false;
    }
    let mut k: usize = 0;
    while k < p.len()
        invariant
            i + p.len() <= v.len(),
            k <= p.len(),
            forall|j: int| 0 <= j < k ==> v@[i + j] == p@[j],
        decreases p.len() - k,
    {
        if v[i + k] != p[k] {
            assert(v@.subrange(i as int, i + p.len())[k as int] != p@[k as int]);
            return false;
        }
        k = k + 1;
    }
    assert(v@.subrange(i as int, i + p.len()) =~= p@);
    true
}

/// Trimming removes exactly the surrounding whitespace: `u` with whitespace
/// before and after it trims to `u`, when `u` is empty or neither starts nor
/// ends with whitespace.
pub proof fn lemma_trim_removes_surrounding_whitespace(before: Seq<char>, u: Seq<char>, after: Seq<char>)
    requires
        forall|k: int| 0 <= k < before.len() ==> is_ws(#[trigger] before[k]),
        forall|k: int| 0 <= k < after.len() ==> is_ws(#[trigger] after[k]),
        u.len() == 0 || (!is_ws(u[0]) && !is_ws(u.last())),
    ensures
        trim(before + u + after) == u,
{
    let s = before + u + after;
    let a = before.len() as int;
    let c = a + u.len();
    let n = s.len() as int;
    assert(s.subrange(0, n) =~= s);
    assert forall|k: int| 0 <= k < a implies is_ws(#[trigger] s[k]) by {
        assert(s[k] == before[k]);
    }
    assert forall|k: int| c <= k < n implies is_ws(#[trigger] s[k]) by {
        assert(s[k] == after[k - c]);
    }
    if u.len() > 0 {
        assert(s[a] == u[0]);
        assert(s[c - 1] == u.last());
        lemma_trim_start_sub(s, 0, n, a);
        lemma_trim_end_sub(s, a, n, c);
    } else {
        lemma_trim_start_sub(s, 0, n, n);
        lemma_trim_end_sub(s, n, n, n);
    }
    assert(s.subrange(a, c) =~= u);
}

/// The words of `s` depend only on `s` without its leading whitespace.
proof fn lemma_words_after_whitespace(s: Seq<char>, t: Seq<char>)
    requires
        trim_start(s) == trim_start(t),
    ensures
        words(s) == words(t),
{
}

proof fn lemma_trim_start_of_ws_first(c: char, s: Seq<char>)
    requires
        is_ws(c),
    ensures
        trim_start(seq![c] + s) == trim_start(s),
{
    assert((seq![c] + s).drop_first() =~= s);
}

/// The leading word of `s` is its first `leading_word(s).len()` characters,
/// none of them whitespace, followed by the end of `s` or whitespace.
proof fn lemma_leading_word_shape(s: Seq<char>)
    ensures
        leading_word(s).len() <= s.len(),
        leading_word(s) == s.take(leading_word(s).len() as int),
        forall|k: int| 0 <= k < leading_word(s).len() ==> !is_ws(#[trigger] s[k]),
        leading_word(s).len() == s.len() || is_ws(s[leading_word(s).len() as int]),
    decreases s.len(),
{
    if s.len() > 0 && !is_ws(s[0]) {
        let t = s.drop_first();
        lemma_leading_word_shape(t);
        assert(s.take(leading_word(s).len() as int) =~= seq![s[0]] + t.take(
            leading_word(t).len() as int,
        ));
        assert forall|k: int| 0 <= k < leading_word(s).len() implies !is_ws(#[trigger] s[k]) by {
            if k > 0 {
                assert(s[k] == t[k - 1]);
            }
        }
        if leading_word(s).len() < s.len() {
            assert(s[leading_word(s).len() as int] == t[leading_word(t).len() as int]);
        }
    } else {
        assert(s.take(0) =~= Seq::<char>::empty());
    }
}

/// A run of non-whitespace is a single word.
pub proof fn lemma_single_word(u: Seq<char>)
    requires
        u.len() > 0,
        forall|k: int| 0 <= k < u.len() ==> !is_ws(#[trigger] u[k]),
    ensures
        words(u) == seq![u],
{
    let n = u.len() as int;
    assert(u.subrange(0, n) =~= u);
    lemma_trim_start_sub(u, 0, n, 0);
    lemma_leading_word_sub(u, 0, n, n);
    assert(u.skip(n) =~= Seq::<char>::empty());
    assert(words(Seq::<char>::empty()) =~= Seq::<Seq<char>>::empty());
    assert(seq![u] + Seq::<Seq<char>>::empty() =~= seq![u]);
}

/// Whitespace separates words: the words of `a`, a whitespace character and
/// `b` are the words of `a` followed by the words of `b`.
pub proof fn lemma_words_split_at_whitespace(a: Seq<char>, c: char, b: Seq<char>)
    requires
        is_ws(c),
    ensures
        words(a + seq![c] + b) == words(a) + words(b),
    decreases a.len(),
{
    let s = a + seq![c] + b;
    if a.len() == 0 {
        assert(s =~= seq![c] + b);
        lemma_trim_start_of_ws_first(c, b);
        lemma_words_after_whitespace(s, b);
        assert(trim_start(a).len() == 0);
        assert(words(a) =~= Seq::<Seq<char>>::empty());
        assert(words(a) + words(b) =~= words(b));
    } else if is_ws(a[0]) {
        let a1 = a.drop_first();
        assert(s.drop_first() =~= a1 + seq![c] + b);
        assert(trim_start(s) == trim_start(a1 + seq![c] + b));
        lemma_words_after_whitespace(s, a1 + seq![c] + b);
        assert(trim_start(a) == trim_start(a1));
        lemma_words_after_whitespace(a, a1);
        lemma_words_split_at_whitespace(a1, c, b);
    } else {
        lemma_leading_word_shape(s);
        lemma_leading_word_shape(a);
        let r = leading_word(a).len() as int;
        // The first word of `s` ends where that of `a` does.
        assert forall|k: int| 0 <= k < r implies !is_ws(#[trigger] s[k]) by {
            assert(s[k] == a[k]);
        }
        if r < a.len() {
            assert(s[r] == a[r]);
        } else {
            assert(s[r] == c);
        }
        let n = s.len() as int;
        assert(s.subrange(0, n) =~= s);
        lemma_leading_word_sub(s, 0, r, n);
        assert(leading_word(s) =~= a.take(r));
        assert(trim_start(s) == s);
        assert(trim_start(a) == a);
        assert(s.skip(r) =~= a.skip(r) + seq![c] + b);
        lemma_words_split_at_whitespace(a.skip(r), c, b);
        if r == a.len() {
            assert(a.skip(r) =~= Seq::<char>::empty());
            assert(words(a.skip(r)) =~= Seq::<Seq<char>>::empty());
        }
        assert(words(s) == seq![a.take(r)] + words(s.skip(r)));
        assert(words(a) == seq![a.take(r)] + words(a.skip(r)));
        assert(words(s) =~= words(a) + words(b));
    }
}

} // verus!
