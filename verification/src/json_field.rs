//! Reading one top-level `"key": "value"` string out of a JSON document: a
//! member of the outermost object whose value is a string, found without a
//! full JSON parse. Keys nested in inner objects or arrays, and quoted text
//! inside string values, are skipped; a text that is a bare list of members,
//! with no enclosing braces, is read as its own top level.

use vstd::prelude::*;

use crate::text::{chars_of, is_ws, matches_at, occurs_at, skip_ws_forward};

verus! {

/// What a left-to-right reading of JSON text knows after some prefix: how
/// deeply brackets are nested, whether it is inside a string, and whether the
/// next character in that string is escaped by a backslash.
pub struct LexState {
    pub depth: int,
    pub in_string: bool,
    pub escaped: bool,
}

/// The reading state after one more character `c`. Outside strings, `{` and
/// `[` open a level, `}` and `]` close one, `"` opens a string; inside a
/// string, `\` escapes the next character and an unescaped `"` closes it.
pub open spec fn lex_step(st: LexState, c: char) -> LexState {
    if st.in_string {
        if st.escaped {
            LexState { depth: st.depth, in_string: true, escaped: false }
        } else if c == '\\' {
            LexState { depth: st.depth, in_string: true, escaped: true }
        } else if c == '"' {
            LexState { depth: st.depth, in_string: false, escaped: false }
        } else {
            st
        }
    } else if c == '"' {
        LexState { depth: st.depth, in_string: true, escaped: false }
    } else if c == '{' || c == '[' {
        LexState { depth: st.depth + 1, in_string: false, escaped: false }
    } else if c == '}' || c == ']' {
        LexState { depth: st.depth - 1, in_string: false, escaped: false }
    } else {
        st
    }
}

/// The reading state after the first `i` characters of `s`.
pub open spec fn lex_before(s: Seq<char>, i: int) -> LexState
    decreases i,
{
    if i <= 0 || i > s.len() {
        LexState { depth: 0, in_string: false, escaped: false }
    } else {
        lex_step(lex_before(s, i - 1), s[i - 1])
    }
}

/// The first index at or after `k` of a quote that closes a string.
pub open spec fn string_close_from(s: Seq<char>, k: int) -> Option<int>
    decreases s.len() - k,
{
    if k < 0 || k >= s.len() {
        None
    } else if s[k] == '"' && lex_before(s, k).in_string && !lex_before(s, k).escaped {
        Some(k)
    } else {
        string_close_from(s, k + 1)
    }
}

/// The first index at or after `k` that is the end of `s` or holds no
/// whitespace.
pub open spec fn ws_end(s: Seq<char>, k: int) -> int
    decreases s.len() - k,
{
    if 0 <= k < s.len() && is_ws(s[k]) {
        ws_end(s, k + 1)
    } else {
        k
    }
}

/// The value of the member whose colon is at index `c`: the raw characters of
/// the string that follows (escapes left as written), or `None` when the value
/// is not a string or the string does not close.
pub open spec fn member_value(s: Seq<char>, c: int) -> Option<Seq<char>> {
    let m = ws_end(s, c + 1);
    if 0 <= m < s.len() && s[m] == '"' {
        match string_close_from(s, m + 1) {
            Some(e) => Some(s.subrange(m + 1, e)),
            None => None,
        }
    } else {
        None
    }
}

/// A string that opens at nesting depth `depth` is at the top level: directly
/// inside the outermost brackets, or outside any brackets in a text that is a
/// bare list of members.
pub open spec fn top_level_depth(depth: int) -> bool {
    0 <= depth <= 1
}

/// If a string that opens at index `i` at the top level is the key `key` of a
/// member (it is followed by a colon), the value of that member.
pub open spec fn member_at(s: Seq<char>, key: Seq<char>, i: int) -> Option<Option<Seq<char>>> {
    if 0 <= i < s.len() && s[i] == '"' && !lex_before(s, i).in_string && top_level_depth(
        lex_before(s, i).depth,
    ) {
        match string_close_from(s, i + 1) {
            Some(j) => {
                let c = ws_end(s, j + 1);
                if 0 <= c < s.len() && s[c] == ':' && s.subrange(i + 1, j) == key {
                    Some(member_value(s, c))
                } else {
                    None
                }
            },
            None => None,
        }
    } else {
        None
    }
}

/// The value of the first top-level member named `key` at or after index `i`.
pub open spec fn field_from(s: Seq<char>, key: Seq<char>, i: int) -> Option<Seq<char>>
    decreases s.len() - i,
{
    if i < 0 || i >= s.len() {
        None
    } else {
        match member_at(s, key, i) {
            Some(value) => value,
            None => field_from(s, key, i + 1),
        }
    }
}

/// The string value of the first member named `key` of the outermost object
/// or array of `text` (or, for a text that is a bare list of members, of that
/// list); `None` when there is no such member or its value is not a string. Keys and values are compared and returned as written,
/// without decoding escapes.
pub open spec fn json_string_field(text: Seq<char>, key: Seq<char>) -> Option<Seq<char>> {
    field_from(text, key, 0)
}

/// Characters that change the reading state outside strings.
pub open spec fn is_structural(c: char) -> bool {
    c == '"' || c == '{' || c == '[' || c == '}' || c == ']'
}

/// Outside strings, characters that are not structural leave the reading
/// state as it is.
proof fn lemma_plain_stretch(s: Seq<char>, a: int, b: int)
    requires
        0 <= a <= b <= s.len(),
        !lex_before(s, a).in_string,
        forall|k: int| a <= k < b ==> !is_structural(#[trigger] s[k]),
    ensures
        lex_before(s, b) == lex_before(s, a),
    decreases b - a,
{
    if a < b {
        lemma_plain_stretch(s, a, b - 1);
    }
}

/// Inside a string, characters that are neither quotes nor backslashes leave
/// the reading state as it is, and none of them closes the string.
proof fn lemma_string_stretch(s: Seq<char>, a: int, b: int)
    requires
        0 <= a <= b <= s.len(),
        lex_before(s, a).in_string,
        !lex_before(s, a).escaped,
        forall|k: int| a <= k < b ==> #[trigger] s[k] != '"' && s[k] != '\\',
    ensures
        lex_before(s, b) == lex_before(s, a),
        string_close_from(s, a) == string_close_from(s, b),
    decreases b - a,
{
    if a < b {
        lemma_string_stretch(s, a + 1, b);
        assert(lex_before(s, a + 1) == lex_step(lex_before(s, a), s[a]));
        lemma_string_stretch(s, a, b - 1);
    }
}

/// `skip_ws_forward`'s result is `ws_end`.
proof fn lemma_ws_end(s: Seq<char>, a: int, c: int)
    requires
        0 <= a <= c <= s.len(),
        forall|k: int| a <= k < c ==> is_ws(#[trigger] s[k]),
        c == s.len() || !is_ws(s[c]),
    ensures
        ws_end(s, a) == c,
    decreases c - a,
{
    if a < c {
        lemma_ws_end(s, a + 1, c);
    }
}

/// Find the quote that closes the string being read at `from`.
fn close_string(v: &Vec<char>, from: usize) -> (r: Option<usize>)
    requires
        from <= v.len(),
        lex_before(v@, from as int).in_string,
        !lex_before(v@, from as int).escaped,
    ensures
        match r {
            Some(j) => {
                &&& from <= j < v.len()
                &&& string_close_from(v@, from as int) == Some(j as int)
                &&& lex_before(v@, j + 1) == (LexState {
                    depth: lex_before(v@, from as int).depth,
                    in_string: false,
                    escaped: false,
                })
            },
            None => string_close_from(v@, from as int) is None,
        },
{
    let ghost d = lex_before(v@, from as int).depth;
    let mut p = from;
    let mut esc = false;
    while p < v.len()
        invariant
            from <= p <= v.len(),
            d == lex_before(v@, from as int).depth,
            lex_before(v@, p as int) == (LexState { depth: d, in_string: true, escaped: esc }),
            string_close_from(v@, from as int) == string_close_from(v@, p as int),
        decreases v.len() - p,
    {
        let c = v[p];
        assert(lex_before(v@, p + 1) == lex_step(lex_before(v@, p as int), c));
        if c == '"' && !esc {
            assert(string_close_from(v@, p as int) == Some(p as int));
            return Some(p);
        }
        if esc {
            esc = false;
        } else if c == '\\' {
            esc = true;
        }
        p = p + 1;
    }
    None
}

/// The member whose key string opens at `i`, if that string is the key `key`:
/// `Some(bounds)` of its string value, or `Some(None)` for a value that is not
/// a string.
fn member_at_exec(v: &Vec<char>, k: &Vec<char>, i: usize) -> (r: Option<Option<(usize, usize)>>)
    requires
        i < v.len(),
        v@[i as int] == '"',
        !lex_before(v@, i as int).in_string,
        top_level_depth(lex_before(v@, i as int).depth),
    ensures
        match r {
            Some(Some((a, b))) => a <= b <= v.len() && member_at(v@, k@, i as int) == Some(
                Some(v@.subrange(a as int, b as int)),
            ),
            Some(None) => member_at(v@, k@, i as int) == Some(None::<Seq<char>>),
            None => member_at(v@, k@, i as int) is None,
        },
{
    let n = v.len();
    assert(lex_before(v@, i + 1) == lex_step(lex_before(v@, i as int), v@[i as int]));
    let j = match close_string(v, i + 1) {
        Some(j) => j,
        None => return None,
    };
    let c = skip_ws_forward(v, j + 1, n);
    proof {
        lemma_ws_end(v@, j + 1, c as int);
    }
    if c >= n || v[c] != ':' {
        return None;
    }
    let same = j - (i + 1) == k.len() && matches_at(v, i + 1, k);
    proof {
        if j - (i + 1) == k.len() {
            assert(occurs_at(v@, k@, i + 1) == (v@.subrange(i + 1, j as int) == k@));
        }
    }
    if !same {
        return None;
    }
    let m = skip_ws_forward(v, c + 1, n);
    proof {
        lemma_ws_end(v@, c + 1, m as int);
        assert forall|x: int| j + 1 <= x < m implies !is_structural(#[trigger] v@[x]) by {
            if x < c {
                assert(is_ws(v@[x]));
            } else if x > c {
                assert(is_ws(v@[x]));
            }
        }
        lemma_plain_stretch(v@, j + 1, m as int);
    }
    if m >= n || v[m] != '"' {
        return Some(None);
    }
    assert(lex_before(v@, m + 1) == lex_step(lex_before(v@, m as int), v@[m as int]));
    match close_string(v, m + 1) {
        Some(e) => Some(Some((m + 1, e))),
        None => Some(None),
    }
}

/// Pull one top-level `"key": "value"` string out of a JSON document.
pub fn extract_json_string_field(text: &str, key: &str) -> (r: Option<String>)
    ensures
        match r {
            Some(v) => json_string_field(text@, key@) == Some(v@),
            None => json_string_field(text@, key@) is None,
        },
{
    let v = chars_of(text);
    let k = chars_of(key);
    let n = v.len();
    let mut i: usize = 0;
    let mut depth: i128 = 0;
    let mut in_string = false;
    let mut escaped = false;
    while i < n
        invariant
            i <= n == v.len(),
            v@ == text@,
            k@ == key@,
            -(i as int) <= depth <= i,
            !in_string ==> !escaped,
            lex_before(v@, i as int) == (LexState {
                depth: depth as int,
                in_string,
                escaped,
            }),
            json_string_field(v@, k@) == field_from(v@, k@, i as int),
        decreases n - i,
    {
        let c = v[i];
        if c == '"' && !in_string && 0 <= depth && depth <= 1 {
            match member_at_exec(&v, &k, i) {
                Some(Some((a, b))) => return Some(text.substring_char(a, b).to_owned()),
                Some(None) => return None,
                None => {},
            }
        }
        assert(lex_before(v@, i + 1) == lex_step(lex_before(v@, i as int), c));
        if in_string {
            if escaped {
                escaped = false;
            } else if c == '\\' {
                escaped = true;
            } else if c == '"' {
                in_string = false;
            }
        } else if c == '"' {
            in_string = true;
            escaped = false;
        } else if c == '{' || c == '[' {
            depth = depth + 1;
        } else if c == '}' || c == ']' {
            depth = depth - 1;
        }
        i = i + 1;
    }
    None
}

/// A document that opens with the member `"key": "value"`, where neither
/// holds a quote or a backslash, gives that value for the key, whatever
/// follows.
pub proof fn lemma_leading_member_is_found(key: Seq<char>, value: Seq<char>, rest: Seq<char>)
    requires
        forall|k: int| 0 <= k < key.len() ==> #[trigger] key[k] != '"' && key[k] != '\\',
        forall|k: int| 0 <= k < value.len() ==> #[trigger] value[k] != '"' && value[k] != '\\',
    ensures
        json_string_field(
            seq!['{', '"'] + key + seq!['"', ':', ' ', '"'] + value + seq!['"'] + rest,
            key,
        ) == Some(value),
{
    let s = seq!['{', '"'] + key + seq!['"', ':', ' ', '"'] + value + seq!['"'] + rest;
    let kl = key.len() as int;
    let vl = value.len() as int;
    assert(s[0] == '{');
    assert(s[1] == '"');
    assert(s[2 + kl] == '"');
    assert(s[3 + kl] == ':');
    assert(s[4 + kl] == ' ');
    assert(s[5 + kl] == '"');
    assert(s[6 + kl + vl] == '"');
    assert forall|k: int| 2 <= k < 2 + kl implies #[trigger] s[k] != '"' && s[k] != '\\' by {
        assert(s[k] == key[k - 2]);
    }
    assert forall|k: int| 6 + kl <= k < 6 + kl + vl implies #[trigger] s[k] != '"' && s[k]
        != '\\' by {
        assert(s[k] == value[k - 6 - kl]);
    }
    assert(lex_before(s, 1) == lex_step(lex_before(s, 0), s[0]));
    assert(lex_before(s, 2) == lex_step(lex_before(s, 1), s[1]));
    lemma_string_stretch(s, 2, 2 + kl);
    assert(lex_before(s, 3 + kl) == lex_step(lex_before(s, 2 + kl), s[2 + kl]));
    assert(string_close_from(s, 2 + kl) == Some(2 + kl));
    assert(ws_end(s, 3 + kl) == 3 + kl);
    assert(s.subrange(2, 2 + kl) =~= key);
    lemma_ws_end(s, 4 + kl, 5 + kl);
    lemma_plain_stretch(s, 3 + kl, 5 + kl);
    assert(lex_before(s, 6 + kl) == lex_step(lex_before(s, 5 + kl), s[5 + kl]));
    lemma_string_stretch(s, 6 + kl, 6 + kl + vl);
    assert(string_close_from(s, 6 + kl + vl) == Some(6 + kl + vl));
    assert(s.subrange(6 + kl, 6 + kl + vl) =~= value);
    assert(member_at(s, key, 1) == Some(Some(value)));
    assert(member_at(s, key, 0) is None);
    assert(field_from(s, key, 1) == Some(value));
    assert(field_from(s, key, 0) == field_from(s, key, 1));
}

/// A string token with plain content: a quote at `i`, `n` characters that are
/// neither quotes nor backslashes, and a closing quote, read from outside any
/// string: it stays inside the string up to its closing quote, closes there,
/// and leaves the nesting depth as it was.
proof fn lemma_string_token(s: Seq<char>, i: int, n: int)
    requires
        0 <= i,
        0 <= n,
        i + n + 2 <= s.len(),
        s[i] == '"',
        s[i + n + 1] == '"',
        forall|k: int| i < k < i + n + 1 ==> #[trigger] s[k] != '"' && s[k] != '\\',
        !lex_before(s, i).in_string,
    ensures
        forall|k: int|
            i < k <= i + n + 1 ==> #[trigger] lex_before(s, k) == (LexState {
                depth: lex_before(s, i).depth,
                in_string: true,
                escaped: false,
            }),
        string_close_from(s, i + 1) == Some(i + n + 1),
        lex_before(s, i + n + 2) == (LexState {
            depth: lex_before(s, i).depth,
            in_string: false,
            escaped: false,
        }),
{
    assert(lex_before(s, i + 1) == lex_step(lex_before(s, i), s[i]));
    assert forall|k: int| i < k <= i + n + 1 implies #[trigger] lex_before(s, k) == (LexState {
        depth: lex_before(s, i).depth,
        in_string: true,
        escaped: false,
    }) by {
        lemma_string_stretch(s, i + 1, k);
    }
    lemma_string_stretch(s, i + 1, i + n + 1);
    assert(lex_before(s, i + n + 2) == lex_step(lex_before(s, i + n + 1), s[i + n + 1]));
}

/// No member starts at an index where the reading is inside a string.
proof fn lemma_no_member_in_string(s: Seq<char>, key: Seq<char>, i: int)
    requires
        0 <= i < s.len(),
        lex_before(s, i).in_string,
    ensures
        member_at(s, key, i) is None,
{
}

/// The content of a JSON string as written: no bare quote, and every
/// backslash followed by the character it escapes.
pub open spec fn string_content(t: Seq<char>) -> bool
    decreases t.len(),
{
    if t.len() == 0 {
        true
    } else if t[0] == '"' {
        false
    } else if t[0] == '\\' {
        t.len() >= 2 && string_content(t.skip(2))
    } else {
        string_content(t.skip(1))
    }
}

/// Reading string content, escapes included, stays inside the string at the
/// same depth and closes nothing.
proof fn lemma_escaped_run(s: Seq<char>, m: int, t: Seq<char>)
    requires
        0 <= m,
        m + t.len() <= s.len(),
        s.subrange(m, m + t.len()) == t,
        string_content(t),
        lex_before(s, m).in_string,
        !lex_before(s, m).escaped,
    ensures
        lex_before(s, m + t.len()) == lex_before(s, m),
        string_close_from(s, m) == string_close_from(s, m + t.len()),
        forall|k: int|
            m <= k <= m + t.len() ==> (#[trigger] lex_before(s, k)).in_string && lex_before(
                s,
                k,
            ).depth == lex_before(s, m).depth,
    decreases t.len(),
{
    if t.len() > 0 {
        assert(s[m] == t[0]);
        assert(lex_before(s, m + 1) == lex_step(lex_before(s, m), s[m]));
        if t[0] == '\\' {
            assert(s[m + 1] == t[1]);
            assert(lex_before(s, m + 2) == lex_step(lex_before(s, m + 1), s[m + 1]));
            assert(s.subrange(m + 2, m + t.len()) =~= t.skip(2));
            lemma_escaped_run(s, m + 2, t.skip(2));
            assert(string_close_from(s, m) == string_close_from(s, m + 1));
            assert(string_close_from(s, m + 1) == string_close_from(s, m + 2));
        } else {
            assert(s.subrange(m + 1, m + t.len()) =~= t.skip(1));
            lemma_escaped_run(s, m + 1, t.skip(1));
            assert(string_close_from(s, m) == string_close_from(s, m + 1));
        }
    }
}

/// A string token whose content may hold escapes: a quote at `i`, content
/// `t`, and a closing quote, read from outside any string.
proof fn lemma_escaped_token(s: Seq<char>, i: int, t: Seq<char>)
    requires
        0 <= i,
        i + t.len() + 2 <= s.len(),
        s[i] == '"',
        s.subrange(i + 1, i + t.len() + 1) == t,
        string_content(t),
        s[i + t.len() + 1] == '"',
        !lex_before(s, i).in_string,
    ensures
        forall|k: int|
            i < k <= i + t.len() + 1 ==> (#[trigger] lex_before(s, k)).in_string,
        string_close_from(s, i + 1) == Some(i + t.len() + 1),
        lex_before(s, i + t.len() + 2) == (LexState {
            depth: lex_before(s, i).depth,
            in_string: false,
            escaped: false,
        }),
{
    assert(lex_before(s, i + 1) == lex_step(lex_before(s, i), s[i]));
    lemma_escaped_run(s, i + 1, t);
    let e = i + t.len() + 1;
    assert(lex_before(s, e + 1) == lex_step(lex_before(s, e), s[e]));
}

/// A string whose closing quote is followed by anything but whitespace and a
/// colon is no key.
proof fn lemma_not_followed_by_colon(s: Seq<char>, key: Seq<char>, i: int, t: Seq<char>)
    requires
        0 <= i,
        i + t.len() + 3 <= s.len(),
        s[i] == '"',
        s.subrange(i + 1, i + t.len() + 1) == t,
        string_content(t),
        s[i + t.len() + 1] == '"',
        !lex_before(s, i).in_string,
        !is_ws(s[i + t.len() + 2]),
        s[i + t.len() + 2] != ':',
    ensures
        member_at(s, key, i) is None,
{
    lemma_escaped_token(s, i, t);
    lemma_ws_end(s, i + t.len() + 2, i + t.len() + 2);
}

/// A key other than `key` starts no member named `key`.
proof fn lemma_other_key(s: Seq<char>, key: Seq<char>, i: int, other: Seq<char>)
    requires
        0 <= i,
        i + other.len() + 2 <= s.len(),
        s[i] == '"',
        s[i + other.len() + 1] == '"',
        s.subrange(i + 1, i + other.len() + 1) == other,
        forall|k: int| 0 <= k < other.len() ==> #[trigger] other[k] != '"' && other[k] != '\\',
        !lex_before(s, i).in_string,
        other != key,
    ensures
        member_at(s, key, i) is None,
{
    assert forall|k: int| i < k < i + other.len() + 1 implies #[trigger] s[k] != '"' && s[k]
        != '\\' by {
        assert(s[k] == s.subrange(i + 1, i + other.len() + 1)[k - i - 1]);
    }
    lemma_string_token(s, i, other.len() as int);
}

/// The member `"key": "value"` written at index `i`, at the top level, gives
/// `value`.
proof fn lemma_member_here(s: Seq<char>, key: Seq<char>, value: Seq<char>, i: int)
    requires
        0 <= i,
        i + key.len() + value.len() + 6 <= s.len(),
        s.subrange(i, i + key.len() + value.len() + 6) == seq!['"'] + key + seq![
            '"',
            ':',
            ' ',
            '"',
        ] + value + seq!['"'],
        forall|k: int| 0 <= k < key.len() ==> #[trigger] key[k] != '"' && key[k] != '\\',
        forall|k: int| 0 <= k < value.len() ==> #[trigger] value[k] != '"' && value[k] != '\\',
        !lex_before(s, i).in_string,
        top_level_depth(lex_before(s, i).depth),
    ensures
        member_at(s, key, i) == Some(Some(value)),
{
    let kl = key.len() as int;
    let vl = value.len() as int;
    let t = seq!['"'] + key + seq!['"', ':', ' ', '"'] + value + seq!['"'];
    assert forall|k: int| 0 <= k < t.len() implies #[trigger] s[i + k] == t[k] by {
        assert(s.subrange(i, i + kl + vl + 6)[k] == s[i + k]);
    }
    assert(s[i] == t[0]);
    assert(s[i + kl + 1] == t[kl + 1]);
    assert(s[i + kl + 2] == t[kl + 2]);
    assert(s[i + kl + 3] == t[kl + 3]);
    assert(s[i + kl + 4] == t[kl + 4]);
    assert(s[i + kl + vl + 5] == t[kl + vl + 5]);
    assert forall|k: int| i < k < i + kl + 1 implies #[trigger] s[k] != '"' && s[k] != '\\' by {
        assert(s[i + (k - i)] == t[k - i]);
        assert(t[k - i] == key[k - i - 1]);
    }
    assert forall|k: int| i + kl + 4 < k < i + kl + vl + 5 implies #[trigger] s[k] != '"'
        && s[k] != '\\' by {
        assert(s[i + (k - i)] == t[k - i]);
        assert(t[k - i] == value[k - i - kl - 5]);
    }
    lemma_string_token(s, i, kl);
    lemma_ws_end(s, i + kl + 2, i + kl + 2);
    lemma_ws_end(s, i + kl + 3, i + kl + 4);
    lemma_plain_stretch(s, i + kl + 2, i + kl + 4);
    lemma_string_token(s, i + kl + 4, vl);
    assert(s.subrange(i + 1, i + kl + 1) =~= key) by {
        assert forall|k: int| 0 <= k < kl implies s.subrange(i + 1, i + kl + 1)[k] == key[k] by {
            assert(s[i + (k + 1)] == t[k + 1]);
        }
    }
    assert(s.subrange(i + kl + 5, i + kl + vl + 5) =~= value) by {
        assert forall|k: int| 0 <= k < vl implies s.subrange(i + kl + 5, i + kl + vl + 5)[k]
            == value[k] by {
            assert(s[i + (k + kl + 5)] == t[k + kl + 5]);
        }
    }
}

/// Where no member named `key` starts in `a..b`, the search goes on at `b`.
proof fn lemma_field_skip(s: Seq<char>, key: Seq<char>, a: int, b: int)
    requires
        0 <= a <= b <= s.len(),
        forall|i: int| a <= i < b ==> #[trigger] member_at(s, key, i) is None,
    ensures
        field_from(s, key, a) == field_from(s, key, b),
    decreases b - a,
{
    if a < b {
        lemma_field_skip(s, key, a + 1, b);
    }
}

/// Neither a quote nor a backslash.
pub open spec fn plain_text(s: Seq<char>) -> bool {
    forall|k: int| 0 <= k < s.len() ==> #[trigger] s[k] != '"' && s[k] != '\\'
}

/// Whitespace only.
pub open spec fn blank_text(s: Seq<char>) -> bool {
    forall|k: int| 0 <= k < s.len() ==> is_ws(#[trigger] s[k])
}

/// Whitespace is never a structural character.
proof fn lemma_ws_not_structural(c: char)
    ensures
        is_ws(c) ==> !is_structural(c),
{
}

/// Reading past a first member `"other_key": "other_value",` (laid out with
/// whitespace at `1..j` and `q + vl + 3..p`) to the member at `p`.
proof fn lemma_read_past_string_member(
    s: Seq<char>,
    key: Seq<char>,
    value: Seq<char>,
    other_key: Seq<char>,
    other_value: Seq<char>,
    j: int,
    kl: int,
    vl: int,
    p: int,
)
    requires
        1 <= j,
        kl == other_key.len(),
        0 <= vl,
        j + kl + vl + 7 <= p,
        p + key.len() + value.len() + 6 <= s.len(),
        s[0] == '{',
        forall|k: int| 1 <= k < j ==> #[trigger] is_ws(s[k]),
        s[j] == '"',
        s.subrange(j + 1, j + kl + 1) == other_key,
        plain_text(other_key),
        s[j + kl + 1] == '"',
        s[j + kl + 2] == ':',
        s[j + kl + 3] == ' ',
        s[j + kl + 4] == '"',
        vl == other_value.len(),
        s.subrange(j + kl + 5, j + kl + vl + 5) == other_value,
        string_content(other_value),
        s[j + kl + vl + 5] == '"',
        s[j + kl + vl + 6] == ',',
        forall|k: int| j + kl + vl + 7 <= k < p ==> #[trigger] is_ws(s[k]),
        other_key != key,
        s.subrange(p, p + key.len() + value.len() + 6) == seq!['"'] + key + seq![
            '"',
            ':',
            ' ',
            '"',
        ] + value + seq!['"'],
        plain_text(key),
        plain_text(value),
    ensures
        json_string_field(s, key) == Some(value),
{
    let q = j + kl + 4;
    assert forall|k: int| j < k < j + kl + 1 implies #[trigger] s[k] != '"' && s[k] != '\\' by {
        assert(s[k] == s.subrange(j + 1, j + kl + 1)[k - j - 1]);
    }
    assert forall|k: int| 1 <= k < j implies !is_structural(#[trigger] s[k]) by {
        lemma_ws_not_structural(s[k]);
    }
    assert forall|k: int| j + kl + vl + 7 <= k < p implies !is_structural(#[trigger] s[k]) by {
        lemma_ws_not_structural(s[k]);
    }
    assert(lex_before(s, 1) == lex_step(lex_before(s, 0), s[0]));
    lemma_plain_stretch(s, 1, j);
    lemma_other_key(s, key, j, other_key);
    lemma_string_token(s, j, kl);
    lemma_plain_stretch(s, j + kl + 2, q);
    lemma_not_followed_by_colon(s, key, q, other_value);
    lemma_escaped_token(s, q, other_value);
    lemma_plain_stretch(s, q + vl + 2, p);
    assert forall|i: int| 0 <= i < p implies #[trigger] member_at(s, key, i) is None by {
        if i == j || i == q {
        } else if (j < i <= j + kl + 1) || (q < i <= q + vl + 1) {
            lemma_no_member_in_string(s, key, i);
        }
    }
    lemma_field_skip(s, key, 0, p);
    lemma_member_here(s, key, value, p);
}

/// A member with a string value before `"key": "value"`, whitespace such as
/// line breaks and indentation included, does not hide it: an object whose
/// first member has another key gives the value of its second member named
/// `key`, however the text is laid out across lines, and whatever the first
/// value holds, escaped quotes and text that looks like a member included.
pub proof fn lemma_member_after_string_member(
    indent: Seq<char>,
    other_key: Seq<char>,
    other_value: Seq<char>,
    gap: Seq<char>,
    key: Seq<char>,
    value: Seq<char>,
    rest: Seq<char>,
)
    requires
        blank_text(indent),
        blank_text(gap),
        plain_text(other_key),
        string_content(other_value),
        plain_text(key),
        plain_text(value),
        other_key != key,
    ensures
        json_string_field(
            seq!['{'] + indent + seq!['"'] + other_key + seq!['"', ':', ' ', '"'] + other_value
                + seq!['"', ','] + gap + seq!['"'] + key + seq!['"', ':', ' ', '"'] + value
                + seq!['"'] + rest,
            key,
        ) == Some(value),
{
    let a = seq!['{'] + indent;
    let b = a + seq!['"'] + other_key + seq!['"', ':', ' ', '"'];
    let c = b + other_value + seq!['"', ','];
    let head = c + gap;
    let member = seq!['"'] + key + seq!['"', ':', ' ', '"'] + value + seq!['"'];
    let s = head + member + rest;
    let j = a.len() as int;
    let kl = other_key.len() as int;
    let vl = other_value.len() as int;
    let p = head.len() as int;
    assert forall|k: int| 1 <= k < j implies #[trigger] is_ws(s[k]) by {
        assert(s[k] == indent[k - 1]);
    }
    assert(s.subrange(j + kl + 5, j + kl + vl + 5) =~= other_value);
    assert forall|k: int| j + kl + vl + 7 <= k < p implies #[trigger] is_ws(s[k]) by {
        assert(s[k] == gap[k - j - kl - vl - 7]);
    }
    assert(s.subrange(j + 1, j + kl + 1) =~= other_key);
    assert(s.subrange(p, p + key.len() + value.len() + 6) =~= member);
    lemma_read_past_string_member(s, key, value, other_key, other_value, j, kl, vl, p);
    assert(s =~= seq!['{'] + indent + seq!['"'] + other_key + seq!['"', ':', ' ', '"']
        + other_value + seq!['"', ','] + gap + seq!['"'] + key + seq!['"', ':', ' ', '"'] + value
        + seq!['"'] + rest);
}

/// Reading past a first member `"other_key": ` whose value is bracketed
/// plain text (opening at `o`) to the member at `o + il + 4`.
proof fn lemma_read_past_bracketed_member(
    s: Seq<char>,
    key: Seq<char>,
    value: Seq<char>,
    other_key: Seq<char>,
    kl: int,
    il: int,
)
    requires
        kl == other_key.len(),
        0 <= il,
        kl + il + 9 + key.len() + value.len() + 6 <= s.len(),
        s[0] == '{',
        s[1] == '"',
        s.subrange(2, kl + 2) == other_key,
        plain_text(other_key),
        s[kl + 2] == '"',
        s[kl + 3] == ':',
        s[kl + 4] == ' ',
        (s[kl + 5] == '[' && s[kl + il + 6] == ']') || (s[kl + 5] == '{' && s[kl + il + 6]
            == '}'),
        forall|k: int| kl + 6 <= k < kl + 6 + il ==> !is_structural(#[trigger] s[k]),
        s[kl + il + 7] == ',',
        s[kl + il + 8] == ' ',
        other_key != key,
        s.subrange(kl + il + 9, kl + il + 15 + key.len() + value.len()) == seq!['"'] + key
            + seq!['"', ':', ' ', '"'] + value + seq!['"'],
        plain_text(key),
        plain_text(value),
    ensures
        json_string_field(s, key) == Some(value),
{
    let o = kl + 5;
    let p = o + il + 4;
    assert forall|k: int| 1 < k < kl + 2 implies #[trigger] s[k] != '"' && s[k] != '\\' by {
        assert(s[k] == s.subrange(2, kl + 2)[k - 2]);
    }
    assert(lex_before(s, 1) == lex_step(lex_before(s, 0), s[0]));
    lemma_other_key(s, key, 1, other_key);
    lemma_string_token(s, 1, kl);
    lemma_plain_stretch(s, kl + 3, o);
    assert(lex_before(s, o + 1) == lex_step(lex_before(s, o), s[o]));
    lemma_plain_stretch(s, o + 1, o + 1 + il);
    assert(lex_before(s, o + il + 2) == lex_step(lex_before(s, o + il + 1), s[o + il + 1]));
    lemma_plain_stretch(s, o + il + 2, p);
    assert forall|i: int| 0 <= i < p implies #[trigger] member_at(s, key, i) is None by {
        if i == 1 {
        } else if 1 < i <= kl + 2 {
            lemma_no_member_in_string(s, key, i);
        } else if o + 1 <= i < o + 1 + il {
            assert(!is_structural(s[i]));
        }
    }
    lemma_field_skip(s, key, 0, p);
    lemma_member_here(s, key, value, p);
}

/// A member whose value is an array or an object before `"key": "value"`
/// does not hide it: its closing bracket ends the nesting it opened.
pub proof fn lemma_member_after_bracketed_member(
    other_key: Seq<char>,
    open: char,
    inner: Seq<char>,
    close: char,
    key: Seq<char>,
    value: Seq<char>,
    rest: Seq<char>,
)
    requires
        (open == '[' && close == ']') || (open == '{' && close == '}'),
        forall|k: int| 0 <= k < inner.len() ==> !is_structural(#[trigger] inner[k]),
        plain_text(other_key),
        plain_text(key),
        plain_text(value),
        other_key != key,
    ensures
        json_string_field(
            seq!['{', '"'] + other_key + seq!['"', ':', ' ', open] + inner + seq![
                close,
                ',',
                ' ',
                '"',
            ] + key + seq!['"', ':', ' ', '"'] + value + seq!['"'] + rest,
            key,
        ) == Some(value),
{
    let a = seq!['{', '"'] + other_key + seq!['"', ':', ' ', open];
    let head = a + inner + seq![close, ',', ' '];
    let member = seq!['"'] + key + seq!['"', ':', ' ', '"'] + value + seq!['"'];
    let s = head + member + rest;
    let kl = other_key.len() as int;
    let il = inner.len() as int;
    let p = head.len() as int;
    assert forall|k: int| kl + 6 <= k < kl + 6 + il implies !is_structural(#[trigger] s[k]) by {
        assert(s[k] == inner[k - kl - 6]);
    }
    assert(s.subrange(2, kl + 2) =~= other_key);
    assert(s.subrange(p, p + key.len() + value.len() + 6) =~= member);
    lemma_read_past_bracketed_member(s, key, value, other_key, kl, il);
    assert(s =~= seq!['{', '"'] + other_key + seq!['"', ':', ' ', open] + inner + seq![
        close,
        ',',
        ' ',
        '"',
    ] + key + seq!['"', ':', ' ', '"'] + value + seq!['"'] + rest);
}

} // verus!
