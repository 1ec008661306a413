//! Which command boots the host: an explicit override, else the bundled
//! launcher, else the system `dsh`, always serving the web UI without opening
//! a browser.

use vstd::prelude::*;

use crate::text::{
    chars_of, lemma_leading_word_sub, lemma_trim_end_keeps_first, lemma_trim_start_sub, skip_word,
    skip_ws_forward, trim, trim_start, words,
};

verus! {

/// The characters of each string, in order.
pub open spec fn views(v: Seq<String>) -> Seq<Seq<char>> {
    v.map_values(|s: String| s@)
}

/// `dsh`, the program found on the system path.
pub open spec fn system_host_program() -> Seq<char> {
    "dsh"@
}

/// `web --no-open`: serve the web UI and never open the default browser,
/// since the webview is the UI.
pub open spec fn host_args_spec() -> Seq<Seq<char>> {
    seq!["web"@, "--no-open"@]
}

/// The boot command as `(program, args)`. An override that is not blank is
/// split at whitespace: its first word is the program, the others are the
/// arguments. Otherwise the bundled launcher, kept whole, or else the system
/// `dsh`, runs with `web --no-open`.
pub open spec fn resolved_command(
    env_command: Option<Seq<char>>,
    launcher: Option<Seq<char>>,
) -> (Seq<char>, Seq<Seq<char>>) {
    if env_command is Some && trim(env_command->0).len() > 0 {
        let w = words(env_command->0);
        (w[0], w.skip(1))
    } else {
        match launcher {
            Some(l) => (l, host_args_spec()),
            None => (system_host_program(), host_args_spec()),
        }
    }
}

/// Arguments for `dsh web`.
pub fn host_args() -> (args: Vec<String>)
    ensures
        views(args@) == host_args_spec(),
{
    let mut args: Vec<String> = Vec::new();
    args.push(String::from_str("web"));
    args.push(String::from_str("--no-open"));
    assert(views(args@) =~= host_args_spec());
    args
}

/// The whitespace-separated words of `s`.
pub fn split_words(s: &str) -> (ws: Vec<String>)
    ensures
        views(ws@) == words(s@),
{
    let v = chars_of(s);
    let n = v.len();
    let mut out: Vec<String> = Vec::new();
    let mut p: usize = 0;
    assert(v@.subrange(0, n as int) =~= v@);
    assert(views(out@) =~= Seq::<Seq<char>>::empty());
    while p < n
        invariant
            p <= n == v.len(),
            v@ == s@,
            words(v@) == views(out@) + words(v@.subrange(p as int, n as int)),
        decreases n - p,
    {
        let q = skip_ws_forward(&v, p, n);
        proof {
            lemma_trim_start_sub(v@, p as int, n as int, q as int);
        }
        if q == n {
            assert(words(v@.subrange(p as int, n as int)) =~= Seq::<Seq<char>>::empty());
            assert(views(out@) + Seq::<Seq<char>>::empty() =~= views(out@));
            p = n;
        } else {
            let r = skip_word(&v, q, n);
            proof {
                lemma_leading_word_sub(v@, q as int, r as int, n as int);
                assert(v@.subrange(q as int, n as int).skip(r - q) =~= v@.subrange(
                    r as int,
                    n as int,
                ));
            }
            let w = s.substring_char(q, r).to_owned();
            let ghost before = views(out@);
            out.push(w);
            assert(views(out@) =~= before.push(v@.subrange(q as int, r as int)));
            assert(before + words(v@.subrange(p as int, n as int)) =~= views(out@) + words(
                v@.subrange(r as int, n as int),
            ));
            p = r;
        }
    }
    assert(words(v@.subrange(n as int, n as int)) =~= Seq::<Seq<char>>::empty()) by {
        assert(v@.subrange(n as int, n as int) =~= Seq::<char>::empty());
    }
    assert(views(out@) + Seq::<Seq<char>>::empty() =~= views(out@));
    out
}

/// Whether `s` holds anything but whitespace.
pub fn is_blank(s: &str) -> (b: bool)
    ensures
        b == (trim(s@).len() == 0),
{
    let v = chars_of(s);
    let n = v.len();
    let a = skip_ws_forward(&v, 0, n);
    proof {
        assert(v@.subrange(0, n as int) =~= v@);
        lemma_trim_start_sub(v@, 0, n as int, a as int);
        if a < n {
            lemma_trim_end_keeps_first(v@.subrange(a as int, n as int));
        } else {
            assert(trim_start(s@).len() == 0);
        }
    }
    a == n
}

/// Resolve the host boot command from the override (the environment's value,
/// if it is set) and the bundled launcher (if one was found).
pub fn resolve_host_command(env_command: Option<&str>, launcher: Option<String>) -> (r: (
    String,
    Vec<String>,
))
    ensures
        r.0@ == resolved_command(
            match env_command {
                Some(c) => Some(c@),
                None => None,
            },
            match launcher {
                Some(l) => Some(l@),
                None => None,
            },
        ).0,
        views(r.1@) == resolved_command(
            match env_command {
                Some(c) => Some(c@),
                None => None,
            },
            match launcher {
                Some(l) => Some(l@),
                None => None,
            },
        ).1,
{
    if let Some(command) = env_command {
        if !is_blank(command) {
            let ws = split_words(command);
            proof {
                if trim_start(command@).len() == 0 {
                    assert(trim(command@).len() == 0);
                }
                assert(trim_start(command@).len() > 0);
                assert(words(command@).len() >= 1);
                assert(views(ws@).len() == ws@.len());
            }
            assert(ws.len() > 0);
            let program = ws[0].clone();
            let mut args: Vec<String> = Vec::new();
            let mut i: usize = 1;
            while i < ws.len()
                invariant
                    1 <= i <= ws.len(),
                    views(args@) == views(ws@).subrange(1, i as int),
                decreases ws.len() - i,
            {
                let ghost before = views(args@);
                args.push(ws[i].clone());
                assert(views(args@) =~= before.push(ws@[i as int]@));
                assert(views(ws@).subrange(1, i + 1) =~= views(ws@).subrange(1, i as int).push(
                    ws@[i as int]@,
                ));
                i = i + 1;
            }
            assert(views(ws@).subrange(1, ws.len() as int) =~= views(ws@).skip(1));
            return (program, args);
        }
    }
    match launcher {
        Some(l) => (l, host_args()),
        None => (String::from_str("dsh"), host_args()),
    }
}

/// Without a usable override (none, or only whitespace), a found launcher is
/// the program, kept whole, with the arguments `web --no-open`; without a
/// launcher either, the program is the system `dsh`.
pub proof fn lemma_launcher_unless_overridden(env_command: Option<Seq<char>>, launcher: Seq<char>)
    requires
        env_command is None || trim(env_command->0).len() == 0,
    ensures
        resolved_command(env_command, Some(launcher)) == (launcher, seq!["web"@, "--no-open"@]),
        resolved_command(env_command, None) == ("dsh"@, seq!["web"@, "--no-open"@]),
{
}

/// A non-blank override runs as written: its words are the program followed
/// by the arguments, whatever launcher was found.
pub proof fn lemma_override_runs_its_words(command: Seq<char>, launcher: Option<Seq<char>>)
    requires
        trim(command).len() > 0,
    ensures
        seq![resolved_command(Some(command), launcher).0] + resolved_command(
            Some(command),
            launcher,
        ).1 == words(command),
{
    if trim_start(command).len() == 0 {
        assert(trim(command).len() == 0);
    }
    assert(words(command).len() >= 1);
    let w = words(command);
    assert(seq![w[0]] + w.skip(1) =~= w);
}

} // verus!
