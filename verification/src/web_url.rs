//! Recovering the authenticated web URL that newer hosts print on stdout as
//! `dsh web: http://127.0.0.1:3080/?token=…`.

use vstd::prelude::*;

use crate::text::{
    chars_of, is_ws, leading_word, lemma_leading_word_sub, lemma_trim_end_sub, lemma_trim_start_sub,
    matches_at, skip_word, skip_ws_backward, skip_ws_forward, starts_with, trim, trim_start,
};

verus! {

/// `dsh web: `, the prefix of the line that announces the URL.
pub open spec fn web_line_prefix() -> Seq<char> {
    seq!['d', 's', 'h', ' ', 'w', 'e', 'b', ':', ' ']
}

/// `http://`
pub open spec fn http_scheme() -> Seq<char> {
    seq!['h', 't', 't', 'p', ':', '/', '/']
}

/// `https://`
pub open spec fn https_scheme() -> Seq<char> {
    seq!['h', 't', 't', 'p', 's', ':', '/', '/']
}

/// The URL a single line announces: the line, trimmed, starts with
/// `dsh web: `; the URL is the first whitespace-separated word after that
/// prefix, and it must start with `http://` or `https://`.
pub open spec fn line_url(line: Seq<char>) -> Option<Seq<char>> {
    let t = trim(line);
    if starts_with(t, web_line_prefix()) {
        let url = leading_word(trim_start(t.skip(web_line_prefix().len() as int)));
        if starts_with(url, http_scheme()) || starts_with(url, https_scheme()) {
            Some(url)
        } else {
            None
        }
    } else {
        None
    }
}

/// Where the line that ends at index `end` of `s` starts: just after the last
/// newline before `end`, or at 0.
pub open spec fn line_start(s: Seq<char>, end: int) -> int
    decreases end,
{
    if end <= 0 {
        0
    } else if s[end - 1] == '\n' {
        end
    } else {
        line_start(s, end - 1)
    }
}

pub proof fn lemma_line_start_bounds(s: Seq<char>, end: int)
    requires
        0 <= end,
    ensures
        0 <= line_start(s, end) <= end,
    decreases end,
{
    if end > 0 && s[end - 1] != '\n' {
        lemma_line_start_bounds(s, end - 1);
    }
}

/// The URL of the last line, among those that end at or before `end`, that
/// announces one. Lines are the pieces between newlines; a carriage return
/// before a newline, or an empty piece after a final newline, changes nothing,
/// since every line is trimmed and an empty line announces no URL.
pub open spec fn last_url_upto(s: Seq<char>, end: int) -> Option<Seq<char>>
    decreases end,
{
    if end < 0 {
        None
    } else {
        let start = line_start(s, end);
        proof {
            lemma_line_start_bounds(s, end);
        }
        match line_url(s.subrange(start, end)) {
            Some(url) => Some(url),
            None => if start <= 0 {
                None
            } else {
                last_url_upto(s, start - 1)
            },
        }
    }
}

/// The URL announced by the last line of `text` that announces one.
pub open spec fn last_web_url(text: Seq<char>) -> Option<Seq<char>> {
    last_url_upto(text, text.len() as int)
}

/// The URL that the line `v[lo..hi]` announces, as bounds into `v`.
fn line_url_bounds(
    v: &Vec<char>,
    lo: usize,
    hi: usize,
    prefix: &Vec<char>,
    http: &Vec<char>,
    https: &Vec<char>,
) -> (r: Option<(usize, usize)>)
    requires
        lo <= hi <= v.len(),
        prefix@ == web_line_prefix(),
        http@ == http_scheme(),
        https@ == https_scheme(),
    ensures
        match r {
            Some((c, d)) => lo <= c <= d <= hi && line_url(v@.subrange(lo as int, hi as int))
                == Some(v@.subrange(c as int, d as int)),
            None => line_url(v@.subrange(lo as int, hi as int)) is None,
        },
{
    let a = skip_ws_forward(v, lo, hi);
    let b = skip_ws_backward(v, a, hi);
    proof {
        lemma_trim_start_sub(v@, lo as int, hi as int, a as int);
        lemma_trim_end_sub(v@, a as int, hi as int, b as int);
    }
    let ghost t = v@.subrange(a as int, b as int);
    assert(trim(v@.subrange(lo as int, hi as int)) == t);
    if b - a < prefix.len() {
        return None;
    }
    let has_prefix = matches_at(v, a, prefix);
    assert(t.take(9) =~= v@.subrange(a as int, a + 9));
    if !has_prefix {
        return None;
    }
    let c = skip_ws_forward(v, a + 9, b);
    let d = skip_word(v, c, b);
    proof {
        assert(t.skip(9) =~= v@.subrange(a + 9, b as int));
        lemma_trim_start_sub(v@, a + 9, b as int, c as int);
        lemma_leading_word_sub(v@, c as int, d as int, b as int);
    }
    let ghost url = v@.subrange(c as int, d as int);
    let is_http = d - c >= http.len() && matches_at(v, c, http);
    let is_https = d - c >= https.len() && matches_at(v, c, https);
    proof {
        if d - c >= 7 {
            assert(url.take(7) =~= v@.subrange(c as int, c + 7));
        }
        if d - c >= 8 {
            assert(url.take(8) =~= v@.subrange(c as int, c + 8));
        }
    }
    if is_http || is_https {
        Some((c, d))
    } else {
        None
    }
}

/// Pull the authenticated web URL out of captured host output: the URL of the
/// last line that announces one, since a re-spawned host prints a fresh token
/// after any earlier one.
pub fn parse_web_url(text: &str) -> (r: Option<String>)
    ensures
        match r {
            Some(url) => last_web_url(text@) == Some(url@),
            None => last_web_url(text@) is None,
        },
{
    let v = chars_of(text);
    let prefix = vec!['d', 's', 'h', ' ', 'w', 'e', 'b', ':', ' '];
    let http = vec!['h', 't', 't', 'p', ':', '/', '/'];
    let https = vec!['h', 't', 't', 'p', 's', ':', '/', '/'];
    assert(prefix@ =~= web_line_prefix());
    assert(http@ =~= http_scheme());
    assert(https@ =~= https_scheme());
    let mut hi = v.len();
    loop
        invariant
            hi <= v.len(),
            v@ == text@,
            prefix@ == web_line_prefix(),
            http@ == http_scheme(),
            https@ == https_scheme(),
            last_web_url(v@) == last_url_upto(v@, hi as int),
        decreases hi,
    {
        let mut lo = hi;
        while lo > 0 && v[lo - 1] != '\n'
            invariant
                lo <= hi <= v.len(),
                line_start(v@, hi as int) == line_start(v@, lo as int),
            decreases lo,
        {
            lo = lo - 1;
        }
        assert(line_start(v@, hi as int) == lo);
        match line_url_bounds(&v, lo, hi, &prefix, &http, &https) {
            Some((c, d)) => {
                let url = text.substring_char(c, d).to_owned();
                return Some(url);
            },
            None => {
                if lo == 0 {
                    return None;
                }
                hi = lo - 1;
            },
        }
    }
}

/// Once a line announces a URL, that URL is the one found, whatever output
/// came before it.
pub proof fn lemma_latest_line_wins(earlier: Seq<char>, line: Seq<char>)
    requires
        !line.contains('\n'),
        line_url(line) is Some,
    ensures
        last_web_url(earlier + seq!['\n'] + line) == line_url(line),
{
    let s = earlier + seq!['\n'] + line;
    let start = earlier.len() + 1int;
    lemma_line_start_within(s, start, s.len() as int);
    assert(s.subrange(start, s.len() as int) =~= line);
}

proof fn lemma_line_start_within(s: Seq<char>, start: int, end: int)
    requires
        1 <= start <= end <= s.len(),
        s[start - 1] == '\n',
        forall|k: int| start <= k < end ==> s[k] != '\n',
    ensures
        line_start(s, end) == start,
    decreases end,
{
    if end > start {
        lemma_line_start_within(s, start, end - 1);
    }
}

/// Output that follows earlier output after a newline decides the URL when
/// it announces one; otherwise the earlier output's URL stands.
pub proof fn lemma_later_output_decides(earlier: Seq<char>, later: Seq<char>)
    ensures
        last_web_url(earlier + seq!['\n'] + later) == match last_web_url(later) {
            Some(url) => Some(url),
            None => last_web_url(earlier),
        },
{
    lemma_lines_of_later(earlier, later, later.len() as int);
    lemma_lines_of_earlier(earlier, later, earlier.len() as int);
}

proof fn lemma_line_start_after_newline(earlier: Seq<char>, later: Seq<char>, e: int)
    requires
        0 <= e <= later.len(),
    ensures
        line_start(earlier + seq!['\n'] + later, earlier.len() + 1 + e) == earlier.len() + 1
            + line_start(later, e),
    decreases e,
{
    let s = earlier + seq!['\n'] + later;
    let p = earlier.len() + 1;
    assert(s[p - 1] == '\n');
    if e > 0 {
        assert(s[p + e - 1] == later[e - 1]);
        lemma_line_start_after_newline(earlier, later, e - 1);
    }
}

proof fn lemma_lines_of_later(earlier: Seq<char>, later: Seq<char>, e: int)
    requires
        0 <= e <= later.len(),
    ensures
        last_url_upto(earlier + seq!['\n'] + later, earlier.len() + 1 + e) == match last_url_upto(
            later,
            e,
        ) {
            Some(url) => Some(url),
            None => last_url_upto(earlier + seq!['\n'] + later, earlier.len() as int),
        },
    decreases e,
{
    let s = earlier + seq!['\n'] + later;
    let p = earlier.len() + 1;
    lemma_line_start_after_newline(earlier, later, e);
    lemma_line_start_bounds(later, e);
    let ls = line_start(later, e);
    assert(s.subrange(p + ls, p + e) =~= later.subrange(ls, e));
    if ls > 0 {
        lemma_lines_of_later(earlier, later, ls - 1);
    }
}

proof fn lemma_line_start_before_newline(earlier: Seq<char>, later: Seq<char>, e: int)
    requires
        0 <= e <= earlier.len(),
    ensures
        line_start(earlier + seq!['\n'] + later, e) == line_start(earlier, e),
    decreases e,
{
    let s = earlier + seq!['\n'] + later;
    if e > 0 {
        assert(s[e - 1] == earlier[e - 1]);
        lemma_line_start_before_newline(earlier, later, e - 1);
    }
}

proof fn lemma_lines_of_earlier(earlier: Seq<char>, later: Seq<char>, e: int)
    requires
        0 <= e <= earlier.len(),
    ensures
        last_url_upto(earlier + seq!['\n'] + later, e) == last_url_upto(earlier, e),
    decreases e,
{
    let s = earlier + seq!['\n'] + later;
    lemma_line_start_before_newline(earlier, later, e);
    lemma_line_start_bounds(earlier, e);
    let ls = line_start(earlier, e);
    assert(s.subrange(ls, e) =~= earlier.subrange(ls, e));
    if ls > 0 {
        lemma_lines_of_earlier(earlier, later, ls - 1);
    }
}

/// A line `dsh web: ` followed by an `http://` or `https://` URL announces
/// that whole URL, however long it is, whether alone or after any earlier
/// output.
pub proof fn lemma_announced_url_is_whole(earlier: Seq<char>, url: Seq<char>)
    requires
        forall|k: int| 0 <= k < url.len() ==> !is_ws(#[trigger] url[k]),
        starts_with(url, seq!['h', 't', 't', 'p', ':', '/', '/']) || starts_with(
            url,
            seq!['h', 't', 't', 'p', 's', ':', '/', '/'],
        ),
    ensures
        line_url(seq!['d', 's', 'h', ' ', 'w', 'e', 'b', ':', ' '] + url) == Some(url),
        last_web_url(seq!['d', 's', 'h', ' ', 'w', 'e', 'b', ':', ' '] + url) == Some(url),
        last_web_url(earlier + seq!['\n'] + seq!['d', 's', 'h', ' ', 'w', 'e', 'b', ':', ' '] + url)
            == Some(url),
{
    let prefix = seq!['d', 's', 'h', ' ', 'w', 'e', 'b', ':', ' '];
    let line = prefix + url;
    let n = line.len() as int;
    assert(url.len() >= 7);
    assert(line[0] == 'd');
    assert(line[n - 1] == url[url.len() - 1]);
    assert(line.subrange(0, n) =~= line);
    lemma_trim_start_sub(line, 0, n, 0);
    lemma_trim_end_sub(line, 0, n, n);
    assert(trim(line) == line);
    assert(line.take(9) =~= web_line_prefix());
    assert(line.skip(9) =~= url);
    assert(url.subrange(0, url.len() as int) =~= url);
    lemma_trim_start_sub(url, 0, url.len() as int, 0);
    lemma_leading_word_sub(url, 0, url.len() as int, url.len() as int);
    assert(line_url(line) == Some(url));
    assert forall|k: int| 0 <= k < n implies #[trigger] line[k] != '\n' by {
        if k >= 9 {
            assert(line[k] == url[k - 9]);
        }
    }
    lemma_line_start_none(line, n);
    assert(line.subrange(0, n) =~= line);
    assert(last_web_url(line) == Some(url));
    lemma_later_output_decides(earlier, line);
    assert(earlier + seq!['\n'] + line =~= earlier + seq!['\n'] + prefix + url);
}

proof fn lemma_line_start_none(s: Seq<char>, end: int)
    requires
        0 <= end <= s.len(),
        forall|k: int| 0 <= k < end ==> #[trigger] s[k] != '\n',
    ensures
        line_start(s, end) == 0,
    decreases end,
{
    if end > 0 {
        lemma_line_start_none(s, end - 1);
    }
}

} // verus!
