//! Keeping the webview's stored state across restarts while purging it when
//! the host version changes, and naming that version.

use vstd::prelude::*;

use crate::json_field::{
    blank_text, extract_json_string_field, json_string_field, lemma_member_after_string_member,
    plain_text, string_content,
};
use crate::text::{
    chars_of, is_ws, lemma_trim_end_sub, lemma_trim_start_sub, skip_ws_backward, skip_ws_forward,
    trim,
};

verus! {

/// The version named when none can be read.
pub open spec fn unknown_version() -> Seq<char> {
    "unknown"@
}

/// The host version a package manifest names in its `"version"` field, or
/// `unknown` when there is no manifest or no such field.
pub open spec fn version_from_manifest(manifest: Option<Seq<char>>) -> Seq<char> {
    match manifest {
        Some(text) => match json_string_field(text, "version"@) {
            Some(v) => v,
            None => unknown_version(),
        },
        None => unknown_version(),
    }
}

/// The host version from the contents of its package manifest, if it could
/// be read.
pub fn host_version_from_manifest(manifest: Option<&str>) -> (v: String)
    ensures
        v@ == version_from_manifest(
            match manifest {
                Some(t) => Some(t@),
                None => None,
            },
        ),
{
    if let Some(text) = manifest {
        if let Some(v) = extract_json_string_field(text, "version") {
            return v;
        }
    }
    String::from_str("unknown")
}

/// The webview's stored state must go unless the recorded version, trimmed,
/// is the current one. A marker that could not be read counts as a change:
/// better to purge a clean store than to keep a stale one.
pub open spec fn purge_needed(seen: Option<Seq<char>>, version: Seq<char>) -> bool {
    match seen {
        Some(s) => trim(s) != version,
        None => true,
    }
}

/// Whether to purge the webview's stored state, given the contents of the
/// version marker (if it could be read) and the current host version.
pub fn needs_purge(seen: Option<&str>, version: &str) -> (purge: bool)
    ensures
        purge == purge_needed(
            match seen {
                Some(s) => Some(s@),
                None => None,
            },
            version@,
        ),
{
    match seen {
        None => true,
        Some(s) => {
            let v = chars_of(s);
            let n = v.len();
            let a = skip_ws_forward(&v, 0, n);
            let b = skip_ws_backward(&v, a, n);
            proof {
                assert(v@.subrange(0, n as int) =~= v@);
                lemma_trim_start_sub(v@, 0, n as int, a as int);
                lemma_trim_end_sub(v@, a as int, n as int, b as int);
            }
            let trimmed = s.substring_char(a, b).to_owned();
            trimmed != version.to_owned()
        },
    }
}

/// The marker that one launch records keeps the store at the next launch of
/// the same version, when the version has no surrounding whitespace.
pub proof fn lemma_recorded_version_keeps_store(version: Seq<char>)
    requires
        version.len() == 0 || (!is_ws(version[0]) && !is_ws(version.last())),
    ensures
        !purge_needed(Some(version), version),
{
    let n = version.len() as int;
    assert(version.subrange(0, n) =~= version);
    lemma_trim_start_sub(version, 0, n, 0);
    lemma_trim_end_sub(version, 0, n, n);
}

/// The store is kept exactly when the recorded marker, trimmed, is the
/// current version; any other marker, a version that merely starts or ends
/// the same way included, and a missing marker purge it.
pub proof fn lemma_purge_exactly_on_change(seen: Seq<char>, version: Seq<char>)
    ensures
        !purge_needed(Some(seen), version) <==> trim(seen) == version,
        purge_needed(None, version),
{
}

/// The version named is the `"version"` member of the whole manifest, found
/// wherever it stands in the text, or `unknown` when there is none.
pub proof fn lemma_version_of_whole_manifest(manifest: Seq<char>)
    ensures
        json_string_field(manifest, "version"@) matches Some(v) ==> version_from_manifest(
            Some(manifest),
        ) == v,
        json_string_field(manifest, "version"@) is None ==> version_from_manifest(Some(manifest))
            == "unknown"@,
        version_from_manifest(None) == "unknown"@,
{
}

/// A pretty-printed manifest, with its `"version"` member on a later line
/// after another member, names that version.
pub proof fn lemma_pretty_manifest_version(
    indent: Seq<char>,
    other_key: Seq<char>,
    other_value: Seq<char>,
    gap: Seq<char>,
    version: Seq<char>,
    rest: Seq<char>,
)
    requires
        blank_text(indent),
        blank_text(gap),
        plain_text(other_key),
        string_content(other_value),
        plain_text(version),
        other_key != "version"@,
    ensures
        version_from_manifest(
            Some(
                seq!['{'] + indent + seq!['"'] + other_key + seq!['"', ':', ' ', '"'] + other_value
                    + seq!['"', ','] + gap + seq!['"'] + "version"@ + seq!['"', ':', ' ', '"']
                    + version + seq!['"'] + rest,
            ),
        ) == version,
{
    reveal_strlit("version");
    assert(plain_text("version"@));
    lemma_member_after_string_member(
        indent,
        other_key,
        other_value,
        gap,
        "version"@,
        version,
        rest,
    );
}

} // verus!
