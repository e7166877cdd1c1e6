//! Vault bookkeeping kept beside each vault's data: the `meta.toml` text
//! and the status a registered path is given from what the filesystem
//! reported about it.

use vstd::prelude::*;
use crate::control_plane::{status_text, VaultStatus};
use crate::text::{chars_of, concat, owned, push_str, string_push};

verus! {

/// The escape of one character inside a TOML basic string.
pub open spec fn toml_escape_char(c: char) -> Seq<char> {
    if c == '\\' {
        seq!['\\', '\\']
    } else if c == '"' {
        seq!['\\', '"']
    } else {
        seq![c]
    }
}

/// `s` with backslashes and double quotes escaped.
pub open spec fn toml_escape_spec(s: Seq<char>) -> Seq<char>
    decreases s.len(),
{
    if s.len() == 0 {
        seq![]
    } else {
        toml_escape_spec(s.drop_last()) + toml_escape_char(s.last())
    }
}

/// Escapes `s` for a TOML basic string.
pub fn toml_escape(s: &str) -> (r: String)
    ensures
        r@ == toml_escape_spec(s@),
{
    let v = chars_of(s);
    let mut r = String::new();
    let mut i: usize = 0;
    while i < v.len()
        invariant
            i <= v@.len(),
            v@ == s@,
            r@ == toml_escape_spec(v@.take(i as int)),
        decreases v@.len() - i,
    {
        let c = v[i];
        proof {
            assert(v@.take(i + 1).drop_last() =~= v@.take(i as int));
        }
        if c == '\\' {
            string_push(&mut r, '\\');
            string_push(&mut r, '\\');
        } else if c == '"' {
            string_push(&mut r, '\\');
            string_push(&mut r, '"');
        } else {
            string_push(&mut r, c);
        }
        i += 1;
        assert(r@ =~= toml_escape_spec(v@.take(i as int)));
    }
    assert(v@.take(i as int) =~= v@);
    r
}

/// Escaping keeps every character other than backslash and quote, and
/// never shortens the text.
pub proof fn law_escape_never_shortens(s: Seq<char>)
    ensures
        toml_escape_spec(s).len() >= s.len(),
    decreases s.len(),
{
    if s.len() > 0 {
        law_escape_never_shortens(s.drop_last());
    }
}

/// The text of a vault's `meta.toml`.
pub open spec fn meta_toml_spec(
    id: Seq<char>,
    name: Seq<char>,
    path: Seq<char>,
    status: VaultStatus,
    created_at: Seq<char>,
    last_error: Option<Seq<char>>,
) -> Seq<char> {
    "# Auto-generated by hmnd at vault registration time.\n"@
        + "# This file is informational; vaults.sqlite is authoritative.\n"@ + "id = \""@ + id
        + "\"\n"@ + "name = \""@ + toml_escape_spec(name) + "\"\n"@ + "path = \""@
        + toml_escape_spec(path) + "\"\n"@ + "status = \""@ + status_text(status) + "\"\n"@
        + "created_at = \""@ + created_at + "\"\n"@ + match last_error {
        Some(e) => "last_error = \""@ + toml_escape_spec(e) + "\"\n"@,
        None => seq![],
    }
}

/// Renders a vault's `meta.toml`. `created_at` is already in RFC 3339.
pub fn meta_toml_content(
    id: &str,
    name: &str,
    path: &str,
    status: VaultStatus,
    created_at: &str,
    last_error: Option<&str>,
) -> (s: String)
    ensures
        s@ == meta_toml_spec(
            id@,
            name@,
            path@,
            status,
            created_at@,
            match last_error {
                Some(e) => Some(e@),
                None => None,
            },
        ),
{
    let mut s = owned("# Auto-generated by hmnd at vault registration time.\n");
    push_str(&mut s, "# This file is informational; vaults.sqlite is authoritative.\n");
    push_str(&mut s, "id = \"");
    push_str(&mut s, id);
    push_str(&mut s, "\"\n");
    push_str(&mut s, "name = \"");
    push_str(&mut s, toml_escape(name).as_str());
    push_str(&mut s, "\"\n");
    push_str(&mut s, "path = \"");
    push_str(&mut s, toml_escape(path).as_str());
    push_str(&mut s, "\"\n");
    push_str(&mut s, "status = \"");
    push_str(&mut s, status.as_str());
    push_str(&mut s, "\"\n");
    push_str(&mut s, "created_at = \"");
    push_str(&mut s, created_at);
    push_str(&mut s, "\"\n");
    match last_error {
        Some(e) => {
            push_str(&mut s, "last_error = \"");
            push_str(&mut s, toml_escape(e).as_str());
            push_str(&mut s, "\"\n");
        },
        None => {},
    }
    s
}

/// What the filesystem reported about a registered vault path.
#[derive(Debug, Clone, PartialEq, Eq)]
pub enum PathProbe {
    /// A directory; `listing_error` is the failure to list it, if any.
    Directory { listing_error: Option<String> },
    NotDirectory,
    /// Its metadata could not be read, for the given reason.
    Inaccessible(String),
}

/// The status a registered path is given, and its recorded error.
pub fn classify_path(path: &str, probe: &PathProbe) -> (r: (VaultStatus, Option<String>))
    ensures
        match *probe {
            PathProbe::Directory { listing_error: None } => r.0 == VaultStatus::Active && r.1 is None,
            PathProbe::Directory { listing_error: Some(e) } => r.0 == VaultStatus::Errored && r.1
                == Some(r.1->0) && r.1->0@ == "vault path "@ + path@ + " is not readable: "@ + e@,
            PathProbe::NotDirectory => r.0 == VaultStatus::Errored && r.1 is Some && r.1->0@
                == "vault path "@ + path@ + " is not a directory"@,
            PathProbe::Inaccessible(e) => r.0 == VaultStatus::Errored && r.1 is Some && r.1->0@
                == "vault path "@ + path@ + " not accessible: "@ + e@,
        },
{
    match probe {
        PathProbe::Directory { listing_error: None } => (VaultStatus::Active, None),
        PathProbe::Directory { listing_error: Some(e) } => {
            let mut m = concat("vault path ", path);
            push_str(&mut m, " is not readable: ");
            push_str(&mut m, e.as_str());
            (VaultStatus::Errored, Some(m))
        },
        PathProbe::NotDirectory => {
            let mut m = concat("vault path ", path);
            push_str(&mut m, " is not a directory");
            (VaultStatus::Errored, Some(m))
        },
        PathProbe::Inaccessible(e) => {
            let mut m = concat("vault path ", path);
            push_str(&mut m, " not accessible: ");
            push_str(&mut m, e.as_str());
            (VaultStatus::Errored, Some(m))
        },
    }
}

/// The legacy index files kept at the data directory's root: the database
/// and its write-ahead log and shared-memory files.
pub fn legacy_index_files(index_file: &str) -> (v: Vec<String>)
    ensures
        v@.len() == 3,
        v@[0]@ == index_file@,
        v@[1]@ == index_file@ + "-wal"@,
        v@[2]@ == index_file@ + "-shm"@,
{
    let mut v: Vec<String> = Vec::new();
    v.push(owned(index_file));
    v.push(concat(index_file, "-wal"));
    v.push(concat(index_file, "-shm"));
    v
}

/// Legacy files move into a vault's directory only when some are present
/// and exactly one vault is registered, which is then the target; with no
/// vault or several, they stay in place.
pub fn legacy_rename_target(any_legacy_present: bool, registered: usize) -> (t: Option<usize>)
    ensures
        t == (if any_legacy_present && registered == 1 {
            Some(0usize)
        } else {
            None
        }),
{
    if any_legacy_present && registered == 1 {
        Some(0)
    } else {
        None
    }
}

/// What happens to one legacy file.
#[derive(Debug, Clone, Copy, PartialEq, Eq, Structural)]
pub enum LegacyFileAction {
    /// Not present: nothing to do.
    Absent,
    /// Moved into the vault's directory.
    Rename,
    /// Present at both places: both are left, with a warning.
    KeepBoth,
}

/// A legacy file is renamed only when it exists and its destination does
/// not, so that a rename interrupted by a crash completes on the next run.
pub open spec fn file_action(src_exists: bool, dst_exists: bool) -> LegacyFileAction {
    if !src_exists {
        LegacyFileAction::Absent
    } else if dst_exists {
        LegacyFileAction::KeepBoth
    } else {
        LegacyFileAction::Rename
    }
}

pub fn legacy_file_action(src_exists: bool, dst_exists: bool) -> (a: LegacyFileAction)
    ensures
        a == file_action(src_exists, dst_exists),
{
    if !src_exists {
        LegacyFileAction::Absent
    } else if dst_exists {
        LegacyFileAction::KeepBoth
    } else {
        LegacyFileAction::Rename
    }
}

/// The path an auto-created registry row records for the legacy vault: its
/// canonical form when it has one, else the path as configured.
pub fn legacy_row_path(configured: String, canonical: Option<String>) -> (p: String)
    ensures
        p == match canonical {
            Some(c) => c,
            None => configured,
        },
{
    match canonical {
        Some(c) => c,
        None => configured,
    }
}

/// Where a legacy file and its destination stand after `a` was carried out.
pub open spec fn after_action(src_exists: bool, dst_exists: bool, a: LegacyFileAction) -> (bool, bool) {
    match a {
        LegacyFileAction::Rename => (false, true),
        _ => (src_exists, dst_exists),
    }
}

/// Running the rename pass again renames nothing more: whatever state a
/// legacy file starts in, once the pass has acted on it a second pass
/// leaves it alone or keeps both copies again.
pub proof fn law_rename_pass_is_idempotent(src_exists: bool, dst_exists: bool)
    ensures
        ({
            let (s2, d2) = after_action(src_exists, dst_exists, file_action(src_exists, dst_exists));
            file_action(s2, d2) != LegacyFileAction::Rename && after_action(s2, d2, file_action(s2, d2))
                == (s2, d2)
        }),
{
}

} // verus!
