//! Control-plane rules: the error vocabulary of vault operations, vault-name
//! validation, name-or-id resolution with a "did you mean" hint, and the
//! decisions that pause, resume and reset take before they touch any state.

use vstd::prelude::*;
use crate::text::{chars_of, concat, owned, push_str, str_eq, trim, trim_chars, string_from_chars};
use crate::paths::{path_starts_with, paths_equal, same_path, starts_with_path};

verus! {

/// Largest edit distance at which a known name is offered as a hint.
pub const NAME_HINT_MAX_DISTANCE: usize = 3;

/// Lifecycle status of a registered vault.
#[derive(Debug, Clone, Copy, PartialEq, Eq, Structural)]
pub enum VaultStatus {
    Active,
    Paused,
    Errored,
}

pub open spec fn status_text(s: VaultStatus) -> Seq<char> {
    match s {
        VaultStatus::Active => "active"@,
        VaultStatus::Paused => "paused"@,
        VaultStatus::Errored => "errored"@,
    }
}

impl VaultStatus {
    /// The status as it appears on the wire.
    pub fn as_str(&self) -> (r: &'static str)
        ensures
            r@ == status_text(*self),
    {
        match self {
            VaultStatus::Active => "active",
            VaultStatus::Paused => "paused",
            VaultStatus::Errored => "errored",
        }
    }
}

/// Control-plane errors; each variant maps to one wire error code.
/// Paths are carried as their display text.
#[derive(Debug, Clone, PartialEq, Eq)]
pub enum ControlPlaneError {
    VaultNotFound { name_or_id: String, hint: Option<String> },
    VaultPathConflict { existing_name: String, path: String },
    VaultNameConflict { existing_path: String, name: String },
    VaultPathInvalid { detail: String },
    VaultErrored { name_or_id: String, last_error: Option<String> },
    VaultOpConflict { detail: String },
    RegistryCorrupt { detail: String },
    /// An internal failure, carried as the rendered error chain.
    Internal(String),
}

/// The one-line rendering of a control-plane error: its code, a colon and
/// the detail.
pub open spec fn control_plane_error_text(e: ControlPlaneError) -> Seq<char> {
    match e {
        ControlPlaneError::VaultNotFound { name_or_id, hint } => match hint {
            Some(h) => "vault_not_found: "@ + name_or_id@ + " (did you mean "@ + h@ + "?)"@,
            None => "vault_not_found: "@ + name_or_id@,
        },
        ControlPlaneError::VaultPathConflict { existing_name, path } => "vault_path_conflict: path "@
            + path@ + " is already registered as vault "@ + existing_name@,
        ControlPlaneError::VaultNameConflict { existing_path, name } => "vault_name_conflict: name "@
            + name@ + " is already in use by vault at "@ + existing_path@,
        ControlPlaneError::VaultPathInvalid { detail } => "vault_path_invalid: "@ + detail@,
        ControlPlaneError::VaultErrored { name_or_id, last_error } => match last_error {
            Some(e) => "vault_errored: "@ + name_or_id@ + ": "@ + e@,
            None => "vault_errored: "@ + name_or_id@,
        },
        ControlPlaneError::VaultOpConflict { detail } => "vault_op_conflict: "@ + detail@,
        ControlPlaneError::RegistryCorrupt { detail } => "registry_corrupt: "@ + detail@,
        ControlPlaneError::Internal(e) => "internal: "@ + e@,
    }
}

impl ControlPlaneError {
    /// The error's one-line rendering.
    pub fn display_text(&self) -> (s: String)
        ensures
            s@ == control_plane_error_text(*self),
    {
        match self {
            ControlPlaneError::VaultNotFound { name_or_id, hint } => {
                let mut s = concat("vault_not_found: ", name_or_id.as_str());
                match hint {
                    Some(h) => {
                        push_str(&mut s, " (did you mean ");
                        push_str(&mut s, h.as_str());
                        push_str(&mut s, "?)");
                    },
                    None => {},
                }
                s
            },
            ControlPlaneError::VaultPathConflict { existing_name, path } => {
                let mut s = concat("vault_path_conflict: path ", path.as_str());
                push_str(&mut s, " is already registered as vault ");
                push_str(&mut s, existing_name.as_str());
                s
            },
            ControlPlaneError::VaultNameConflict { existing_path, name } => {
                let mut s = concat("vault_name_conflict: name ", name.as_str());
                push_str(&mut s, " is already in use by vault at ");
                push_str(&mut s, existing_path.as_str());
                s
            },
            ControlPlaneError::VaultPathInvalid { detail } => concat(
                "vault_path_invalid: ",
                detail.as_str(),
            ),
            ControlPlaneError::VaultErrored { name_or_id, last_error } => {
                let mut s = concat("vault_errored: ", name_or_id.as_str());
                match last_error {
                    Some(e) => {
                        push_str(&mut s, ": ");
                        push_str(&mut s, e.as_str());
                    },
                    None => {},
                }
                s
            },
            ControlPlaneError::VaultOpConflict { detail } => concat(
                "vault_op_conflict: ",
                detail.as_str(),
            ),
            ControlPlaneError::RegistryCorrupt { detail } => concat(
                "registry_corrupt: ",
                detail.as_str(),
            ),
            ControlPlaneError::Internal(e) => concat("internal: ", e.as_str()),
        }
    }
}

// ---------------------------------------------------------------------------
// Vault names
// ---------------------------------------------------------------------------

pub open spec fn is_name_char(c: char) -> bool {
    ('a' <= c && c <= 'z') || ('A' <= c && c <= 'Z') || ('0' <= c && c <= '9') || c == '_' || c
        == '-'
}

/// A vault name is non-empty and made of ASCII letters, digits, `_` and `-`.
pub open spec fn valid_vault_name(name: Seq<char>) -> bool {
    name.len() > 0 && forall|i: int| 0 <= i < name.len() ==> is_name_char(#[trigger] name[i])
}

/// Whether `name` is a valid vault name.
pub fn is_valid_vault_name(name: &str) -> (r: bool)
    ensures
        r == valid_vault_name(name@),
{
    let v = chars_of(name);
    if v.len() == 0 {
        return false;
    }
    let mut i: usize = 0;
    while i < v.len()
        invariant
            i <= v@.len(),
            v@ == name@,
            forall|j: int| 0 <= j < i ==> is_name_char(#[trigger] v@[j]),
        decreases v@.len() - i,
    {
        let c = v[i];
        if !(('a' <= c && c <= 'z') || ('A' <= c && c <= 'Z') || ('0' <= c && c <= '9') || c
            == '_' || c == '-') {
            assert(!is_name_char(v@[i as int]));
            return false;
        }
        i += 1;
    }
    true
}

/// The name a new vault gets: the requested name trimmed, or when that is
/// absent or blank, the configured default trimmed; blank both ways is an
/// error.
pub open spec fn create_name_spec(requested: Option<Seq<char>>, default_name: Seq<char>) -> Option<
    Seq<char>,
> {
    match requested {
        Some(r) if trim(r).len() > 0 => Some(trim(r)),
        _ => if trim(default_name).len() > 0 {
            Some(trim(default_name))
        } else {
            None
        },
    }
}

/// Resolves the name of a vault being created.
pub fn resolve_create_name(requested: Option<&str>, default_name: &str) -> (r: Result<
    String,
    ControlPlaneError,
>)
    ensures
        match r {
            Ok(n) => create_name_spec(
                match requested {
                    Some(s) => Some(s@),
                    None => None,
                },
                default_name@,
            ) == Some(n@),
            Err(e) => create_name_spec(
                match requested {
                    Some(s) => Some(s@),
                    None => None,
                },
                default_name@,
            ) is None && e == ControlPlaneError::VaultPathInvalid {
                detail: e->VaultPathInvalid_detail,
            } && e->VaultPathInvalid_detail@ == "name is required when default_vault_name is empty"@,
        },
{
    if let Some(s) = requested {
        let t = trim_chars(&chars_of(s));
        if t.len() > 0 {
            return Ok(string_from_chars(&t));
        }
    }
    let d = trim_chars(&chars_of(default_name));
    if d.len() == 0 {
        return Err(
            ControlPlaneError::VaultPathInvalid {
                detail: owned("name is required when default_vault_name is empty"),
            },
        );
    }
    Ok(string_from_chars(&d))
}

// ---------------------------------------------------------------------------
// Creating a vault
// ---------------------------------------------------------------------------

/// A vault path must be absolute, once `~` is expanded, before it is
/// canonicalized.
pub fn require_absolute(expanded: &str) -> (r: Result<(), ControlPlaneError>)
    ensures
        r is Ok <==> (expanded@.len() > 0 && expanded@[0] == '/'),
        r matches Err(e) ==> e is VaultPathInvalid && e->VaultPathInvalid_detail@ == "vault path "@
            + expanded@ + " must be absolute"@,
{
    let v = chars_of(expanded);
    if v.len() > 0 && v[0] == '/' {
        return Ok(());
    }
    let mut d = concat("vault path ", expanded);
    push_str(&mut d, " must be absolute");
    Err(ControlPlaneError::VaultPathInvalid { detail: d })
}

/// The error of a vault path that could not be canonicalized, for the
/// given reason.
pub fn canonicalize_failed(expanded: &str, cause: &str) -> (e: ControlPlaneError)
    ensures
        e is VaultPathInvalid && e->VaultPathInvalid_detail@ == "cannot canonicalize "@ + expanded@
            + ": "@ + cause@,
{
    let mut d = concat("cannot canonicalize ", expanded);
    push_str(&mut d, ": ");
    push_str(&mut d, cause);
    ControlPlaneError::VaultPathInvalid { detail: d }
}

/// A new vault may not contain the daemon's data directory. The data
/// directory is compared as resolved (`resolved_data_dir`) and shown as
/// configured (`data_dir`).
pub fn check_data_dir_not_in_vault(resolved_data_dir: &str, data_dir: &str, canonical_vault: &str) -> (r: Result<
    (),
    ControlPlaneError,
>)
    ensures
        r is Ok <==> !starts_with_path(resolved_data_dir@, canonical_vault@),
        r matches Err(e) ==> e is VaultPathInvalid && e->VaultPathInvalid_detail@ == "data_dir "@
            + data_dir@ + " is under vault path "@ + canonical_vault@,
{
    if path_starts_with(resolved_data_dir, canonical_vault) {
        let mut d = concat("data_dir ", data_dir);
        push_str(&mut d, " is under vault path ");
        push_str(&mut d, canonical_vault);
        return Err(ControlPlaneError::VaultPathInvalid { detail: d });
    }
    Ok(())
}

/// A registered vault as `create` compares it: its name and path.
#[derive(Debug, Clone, PartialEq, Eq)]
pub struct RegisteredVault {
    pub name: String,
    pub path: String,
}

/// The conflicts that refuse a new vault: its name already belongs to the
/// vault at `name_owner_path`, or its canonical path equals, as a `Path`,
/// that of a registered vault (the first such, in order).
pub fn create_conflict(
    name: &str,
    name_owner_path: Option<&str>,
    registered: &Vec<RegisteredVault>,
    canonical: &str,
) -> (r: Result<(), ControlPlaneError>)
    ensures
        match name_owner_path {
            Some(p) => r matches Err(e) && e is VaultNameConflict && e->VaultNameConflict_existing_path@
                == p@ && e->VaultNameConflict_name@ == name@,
            None => if exists|i: int| 0 <= i < registered@.len() && same_path(#[trigger] registered@[i].path@, canonical@) {
                r matches Err(e) && e is VaultPathConflict && e->VaultPathConflict_path@ == canonical@
                    && exists|i: int|
                    0 <= i < registered@.len() && same_path(#[trigger] registered@[i].path@, canonical@)
                        && e->VaultPathConflict_existing_name == registered@[i].name && forall|j: int|
                        0 <= j < i ==> !same_path(#[trigger] registered@[j].path@, canonical@)
            } else {
                r is Ok
            },
        },
{
    if let Some(p) = name_owner_path {
        return Err(ControlPlaneError::VaultNameConflict { existing_path: owned(p), name: owned(name) });
    }
    let mut i: usize = 0;
    while i < registered.len()
        invariant
            i <= registered@.len(),
            name_owner_path is None,
            forall|j: int| 0 <= j < i ==> !same_path(#[trigger] registered@[j].path@, canonical@),
        decreases registered@.len() - i,
    {
        if paths_equal(registered[i].path.as_str(), canonical) {
            return Err(
                ControlPlaneError::VaultPathConflict {
                    existing_name: registered[i].name.clone(),
                    path: owned(canonical),
                },
            );
        }
        i += 1;
    }
    Ok(())
}

/// The checks `create` makes before it registers a vault, in its order:
/// the expanded path must be absolute, then canonicalize (whose outcome is
/// `canonical`: the canonical path, or why it failed), the data directory
/// must not lie under the vault, the name must resolve, no registered vault
/// may hold that name, and none may sit at that path. The first refusal is
/// the error; otherwise the vault's name and canonical path.
pub fn check_create(
    expanded: &str,
    canonical: Result<String, String>,
    resolved_data_dir: &str,
    data_dir: &str,
    requested: Option<&str>,
    default_name: &str,
    registered: &Vec<RegisteredVault>,
) -> (r: Result<(String, String), ControlPlaneError>)
    ensures
        !(expanded@.len() > 0 && expanded@[0] == '/') ==> (r matches Err(e) && e is VaultPathInvalid
            && e->VaultPathInvalid_detail@ == "vault path "@ + expanded@ + " must be absolute"@),
        (expanded@.len() > 0 && expanded@[0] == '/') ==> match canonical {
            Err(cause) => r matches Err(e) && e is VaultPathInvalid && e->VaultPathInvalid_detail@
                == "cannot canonicalize "@ + expanded@ + ": "@ + cause@,
            Ok(c) => if starts_with_path(resolved_data_dir@, c@) {
                r matches Err(e) && e is VaultPathInvalid && e->VaultPathInvalid_detail@ == "data_dir "@
                    + data_dir@ + " is under vault path "@ + c@
            } else {
                match create_name_spec(
                    match requested {
                        Some(s) => Some(s@),
                        None => None,
                    },
                    default_name@,
                ) {
                    None => r matches Err(e) && e is VaultPathInvalid && e->VaultPathInvalid_detail@
                        == "name is required when default_vault_name is empty"@,
                    Some(n) => if exists|i: int| 0 <= i < registered@.len() && #[trigger] registered@[i].name@ == n {
                        r matches Err(e) && e is VaultNameConflict && e->VaultNameConflict_name@ == n
                            && exists|i: int|
                            0 <= i < registered@.len() && #[trigger] registered@[i].name@ == n
                                && e->VaultNameConflict_existing_path@ == registered@[i].path@ && forall|j: int|
                                0 <= j < i ==> #[trigger] registered@[j].name@ != n
                    } else if exists|i: int| 0 <= i < registered@.len() && same_path(#[trigger] registered@[i].path@, c@) {
                        r matches Err(e) && e is VaultPathConflict && e->VaultPathConflict_path@ == c@
                            && exists|i: int|
                            0 <= i < registered@.len() && same_path(#[trigger] registered@[i].path@, c@)
                                && e->VaultPathConflict_existing_name == registered@[i].name && forall|j: int|
                                0 <= j < i ==> !same_path(#[trigger] registered@[j].path@, c@)
                    } else {
                        r matches Ok(v) && v.0@ == n && v.1@ == c@
                    },
                }
            },
        },
{
    if let Err(e) = require_absolute(expanded) {
        return Err(e);
    }
    let c = match canonical {
        Ok(c) => c,
        Err(cause) => return Err(canonicalize_failed(expanded, cause.as_str())),
    };
    if let Err(e) = check_data_dir_not_in_vault(resolved_data_dir, data_dir, c.as_str()) {
        return Err(e);
    }
    let name = match resolve_create_name(requested, default_name) {
        Ok(n) => n,
        Err(e) => return Err(e),
    };
    let mut owner: Option<usize> = None;
    let mut k: usize = 0;
    while k < registered.len()
        invariant
            k <= registered@.len(),
            owner is None ==> forall|j: int| 0 <= j < k ==> #[trigger] registered@[j].name@ != name@,
            owner matches Some(o) ==> o < registered@.len() && registered@[o as int].name@ == name@
                && forall|j: int| 0 <= j < o ==> #[trigger] registered@[j].name@ != name@,
        decreases registered@.len() - k,
    {
        if owner.is_none() && str_eq(registered[k].name.as_str(), name.as_str()) {
            owner = Some(k);
        }
        k += 1;
    }
    let owner_path = match owner {
        Some(o) => Some(registered[o].path.as_str()),
        None => None,
    };
    if let Err(e) = create_conflict(name.as_str(), owner_path, registered, c.as_str()) {
        return Err(e);
    }
    Ok((name, c))
}

// ---------------------------------------------------------------------------
// Edit distance and the closest-name hint
// ---------------------------------------------------------------------------

pub open spec fn min3(x: int, y: int, z: int) -> int {
    if x <= y && x <= z {
        x
    } else if y <= z {
        y
    } else {
        z
    }
}

/// The Levenshtein distance: the least number of single-character
/// insertions, deletions and substitutions that turn `a` into `b`.
pub open spec fn lev(a: Seq<char>, b: Seq<char>) -> int
    decreases a.len() + b.len(),
{
    if a.len() == 0 {
        b.len() as int
    } else if b.len() == 0 {
        a.len() as int
    } else {
        min3(
            lev(a.drop_last(), b) + 1,
            lev(a, b.drop_last()) + 1,
            lev(a.drop_last(), b.drop_last()) + if a.last() == b.last() {
                0int
            } else {
                1int
            },
        )
    }
}

/// The distance lies between zero and the longer string's length.
pub proof fn law_distance_bounds(a: Seq<char>, b: Seq<char>)
    ensures
        0 <= lev(a, b) <= if a.len() >= b.len() {
            a.len() as int
        } else {
            b.len() as int
        },
    decreases a.len() + b.len(),
{
    if a.len() > 0 && b.len() > 0 {
        law_distance_bounds(a.drop_last(), b);
        law_distance_bounds(a, b.drop_last());
        law_distance_bounds(a.drop_last(), b.drop_last());
    }
}

/// A string is at distance zero from itself.
pub proof fn law_distance_to_self_is_zero(a: Seq<char>)
    ensures
        lev(a, a) == 0,
    decreases a.len(),
{
    if a.len() > 0 {
        law_distance_to_self_is_zero(a.drop_last());
        law_distance_bounds(a.drop_last(), a);
        law_distance_bounds(a, a.drop_last());
    }
}

/// Distance zero means equal strings.
pub proof fn law_zero_distance_means_equal(a: Seq<char>, b: Seq<char>)
    requires
        lev(a, b) == 0,
    ensures
        a == b,
    decreases a.len() + b.len(),
{
    if a.len() > 0 && b.len() > 0 {
        law_distance_bounds(a.drop_last(), b);
        law_distance_bounds(a, b.drop_last());
        law_distance_bounds(a.drop_last(), b.drop_last());
        law_zero_distance_means_equal(a.drop_last(), b.drop_last());
        assert(a =~= a.drop_last().push(a.last()));
        assert(b =~= b.drop_last().push(b.last()));
    } else {
        assert(a =~= b);
    }
}

/// The distance is symmetric.
pub proof fn law_distance_is_symmetric(a: Seq<char>, b: Seq<char>)
    ensures
        lev(a, b) == lev(b, a),
    decreases a.len() + b.len(),
{
    if a.len() > 0 && b.len() > 0 {
        law_distance_is_symmetric(a.drop_last(), b);
        law_distance_is_symmetric(a, b.drop_last());
        law_distance_is_symmetric(a.drop_last(), b.drop_last());
    }
}

proof fn lemma_lev_step(a: Seq<char>, b: Seq<char>, i: int, j: int)
    requires
        1 <= i <= a.len(),
        1 <= j <= b.len(),
    ensures
        lev(a.take(i), b.take(j)) == min3(
            lev(a.take(i - 1), b.take(j)) + 1,
            lev(a.take(i), b.take(j - 1)) + 1,
            lev(a.take(i - 1), b.take(j - 1)) + if a[i - 1] == b[j - 1] {
                0int
            } else {
                1int
            },
        ),
{
    assert(a.take(i).drop_last() =~= a.take(i - 1));
    assert(b.take(j).drop_last() =~= b.take(j - 1));
}

/// The Levenshtein distance between `a` and `b`, by characters.
pub fn levenshtein(a: &str, b: &str) -> (d: usize)
    ensures
        d == lev(a@, b@),
{
    let av = chars_of(a);
    let bv = chars_of(b);
    let n = av.len();
    let m = bv.len();
    let ghost sa = av@;
    let ghost sb = bv@;
    proof {
        assert(sa.take(n as int) =~= sa);
        assert(sb.take(m as int) =~= sb);
    }
    if n == 0 {
        return m;
    }
    if m == 0 {
        return n;
    }
    let mut prev: Vec<usize> = Vec::new();
    prev.push(0);
    proof {
        assert(sa.take(0).len() == 0);
        assert(sb.take(0).len() == 0);
    }
    let mut j: usize = 0;
    while j < m
        invariant
            j <= m,
            m == sb.len(),
            prev@.len() == j + 1,
            forall|k: int| 0 <= k <= j ==> prev@[k] == lev(sa.take(0), sb.take(k)),
        decreases m - j,
    {
        j += 1;
        proof {
            assert(sa.take(0).len() == 0);
        }
        prev.push(j);
    }
    let mut i: usize = 0;
    while i < n
        invariant
            i <= n,
            n == sa.len(),
            m == sb.len(),
            sa == av@,
            sb == bv@,
            prev@.len() == m + 1,
            forall|k: int| 0 <= k <= m ==> prev@[k] == lev(sa.take(i as int), sb.take(k)),
        decreases n - i,
    {
        i += 1;
        let mut cur: Vec<usize> = Vec::new();
        proof {
            assert(sb.take(0).len() == 0);
            law_distance_bounds(sa.take(i as int), sb.take(0));
        }
        cur.push(i);
        let mut j: usize = 0;
        while j < m
            invariant
                1 <= i <= n,
                j <= m,
                n == sa.len(),
                m == sb.len(),
                sa == av@,
                sb == bv@,
                prev@.len() == m + 1,
                cur@.len() == j + 1,
                forall|k: int| 0 <= k <= m ==> prev@[k] == lev(sa.take(i - 1), sb.take(k)),
                forall|k: int| 0 <= k <= j ==> cur@[k] == lev(sa.take(i as int), sb.take(k)),
            decreases m - j,
        {
            j += 1;
            let cost: usize = if av[i - 1] == bv[j - 1] {
                0
            } else {
                1
            };
            proof {
                lemma_lev_step(sa, sb, i as int, j as int);
                law_distance_bounds(sa.take(i - 1), sb.take(j - 1));
            }
            let x = prev[j].saturating_add(1);
            let y = cur[j - 1].saturating_add(1);
            let z = prev[j - 1].saturating_add(cost);
            let mut best = x;
            if y < best {
                best = y;
            }
            if z < best {
                best = z;
            }
            cur.push(best);
        }
        prev = cur;
    }
    prev[m]
}

/// The "did you mean" hint for `target`: the first of the nearest
/// candidates, when it lies within the hint distance.
pub open spec fn hint_ok(target: Seq<char>, candidates: Seq<String>, r: Option<String>) -> bool {
    match r {
        Some(h) => exists|k: int|
            {
                &&& 0 <= k < candidates.len()
                &&& h@ == candidates[k]@
                &&& lev(target, #[trigger] candidates[k]@) <= NAME_HINT_MAX_DISTANCE
                &&& forall|j: int|
                    0 <= j < candidates.len() ==> lev(target, candidates[j]@) >= lev(
                        target,
                        candidates[k]@,
                    )
                &&& forall|j: int| 0 <= j < k ==> lev(target, candidates[j]@) > lev(
                    target,
                    candidates[k]@,
                )
            },
        None => forall|k: int|
            0 <= k < candidates.len() ==> lev(target, #[trigger] candidates[k]@)
                > NAME_HINT_MAX_DISTANCE,
    }
}

pub fn closest_name(target: &str, candidates: &Vec<String>) -> (r: Option<String>)
    ensures
        hint_ok(target@, candidates@, r),
{
    let mut best: Option<(usize, usize)> = None;
    let mut i: usize = 0;
    while i < candidates.len()
        invariant
            i <= candidates@.len(),
            match best {
                Some(b) => {
                    &&& b.1 < i
                    &&& b.0 == lev(target@, candidates@[b.1 as int]@)
                    &&& b.0 <= NAME_HINT_MAX_DISTANCE
                    &&& forall|j: int|
                        0 <= j < i && lev(target@, candidates@[j]@) <= NAME_HINT_MAX_DISTANCE
                            ==> lev(target@, candidates@[j]@) >= b.0
                    &&& forall|j: int| 0 <= j < b.1 ==> lev(target@, candidates@[j]@) > b.0
                },
                None => forall|j: int|
                    0 <= j < i ==> lev(target@, #[trigger] candidates@[j]@)
                        > NAME_HINT_MAX_DISTANCE,
            },
        decreases candidates@.len() - i,
    {
        let d = levenshtein(target, candidates[i].as_str());
        if d <= NAME_HINT_MAX_DISTANCE {
            match best {
                Some(b) => {
                    if b.0 > d {
                        best = Some((d, i));
                    }
                },
                None => {
                    best = Some((d, i));
                },
            }
        }
        i += 1;
    }
    match best {
        Some(b) => {
            let h = candidates[b.1].clone();
            assert forall|j: int| 0 <= j < candidates@.len() implies lev(
                target@,
                #[trigger] candidates@[j]@,
            ) >= lev(target@, candidates@[b.1 as int]@) by {}
            Some(h)
        },
        None => None,
    }
}

// ---------------------------------------------------------------------------
// Name-or-id resolution
// ---------------------------------------------------------------------------

/// A registered vault as name resolution sees it.
#[derive(Debug, Clone, PartialEq, Eq)]
pub struct VaultRef {
    pub id: String,
    pub name: String,
}

/// Resolves `name_or_id` against `vaults`, walked in order: the first vault
/// whose id or name equals it. With no match, the error carries the
/// closest-name hint over all the names.
pub fn resolve_name_or_id(vaults: &Vec<VaultRef>, name_or_id: &str) -> (r: Result<
    String,
    ControlPlaneError,
>)
    ensures
        match r {
            Ok(id) => exists|k: int|
                0 <= k < vaults@.len() && (vaults@[k].id@ == name_or_id@ || vaults@[k].name@
                    == name_or_id@) && id@ == vaults@[k].id@ && forall|j: int|
                    0 <= j < k ==> vaults@[j].id@ != name_or_id@ && vaults@[j].name@
                        != name_or_id@,
            Err(e) => {
                &&& forall|j: int|
                    0 <= j < vaults@.len() ==> vaults@[j].id@ != name_or_id@ && vaults@[j].name@
                        != name_or_id@
                &&& e is VaultNotFound
                &&& e->VaultNotFound_name_or_id@ == name_or_id@
                &&& match e->VaultNotFound_hint {
                    Some(h) => exists|k: int|
                        0 <= k < vaults@.len() && h@ == vaults@[k].name@ && lev(
                            name_or_id@,
                            vaults@[k].name@,
                        ) <= NAME_HINT_MAX_DISTANCE && forall|j: int|
                            0 <= j < vaults@.len() ==> lev(name_or_id@, vaults@[j].name@) >= lev(
                                name_or_id@,
                                vaults@[k].name@,
                            ),
                    None => forall|k: int|
                        0 <= k < vaults@.len() ==> lev(name_or_id@, vaults@[k].name@)
                            > NAME_HINT_MAX_DISTANCE,
                }
            },
        },
{
    let mut i: usize = 0;
    while i < vaults.len()
        invariant
            i <= vaults@.len(),
            forall|j: int|
                0 <= j < i ==> vaults@[j].id@ != name_or_id@ && vaults@[j].name@ != name_or_id@,
        decreases vaults@.len() - i,
    {
        if str_eq(vaults[i].id.as_str(), name_or_id) || str_eq(vaults[i].name.as_str(), name_or_id) {
            return Ok(vaults[i].id.clone());
        }
        i += 1;
    }
    let mut names: Vec<String> = Vec::new();
    let mut k: usize = 0;
    while k < vaults.len()
        invariant
            k <= vaults@.len(),
            names@.len() == k,
            forall|j: int| 0 <= j < k ==> names@[j]@ == vaults@[j].name@,
        decreases vaults@.len() - k,
    {
        names.push(vaults[k].name.clone());
        k += 1;
    }
    let hint = closest_name(name_or_id, &names);
    proof {
        match &hint {
            Some(h) => {
                let k = choose|k: int|
                    {
                        &&& 0 <= k < names@.len()
                        &&& h@ == names@[k]@
                        &&& lev(name_or_id@, #[trigger] names@[k]@) <= NAME_HINT_MAX_DISTANCE
                        &&& forall|j: int|
                            0 <= j < names@.len() ==> lev(name_or_id@, names@[j]@) >= lev(
                                name_or_id@,
                                names@[k]@,
                            )
                        &&& forall|j: int| 0 <= j < k ==> lev(name_or_id@, names@[j]@) > lev(
                            name_or_id@,
                            names@[k]@,
                        )
                    };
                assert(names@[k]@ == vaults@[k].name@);
                assert forall|j: int| 0 <= j < vaults@.len() implies lev(
                    name_or_id@,
                    #[trigger] vaults@[j].name@,
                ) >= lev(name_or_id@, vaults@[k].name@) by {
                    assert(names@[j]@ == vaults@[j].name@);
                }
            },
            None => {
                assert forall|j: int| 0 <= j < vaults@.len() implies lev(
                    name_or_id@,
                    #[trigger] vaults@[j].name@,
                ) > NAME_HINT_MAX_DISTANCE by {
                    assert(names@[j]@ == vaults@[j].name@);
                }
            },
        }
    }
    Err(ControlPlaneError::VaultNotFound { name_or_id: owned(name_or_id), hint })
}

/// Looks a registry row up by id, then by name; with neither, the error
/// carries the closest of `known_names` as a hint.
pub fn find_registry_row(rows: &Vec<VaultRef>, name_or_id: &str, known_names: &Vec<String>) -> (r: Result<
    usize,
    ControlPlaneError,
>)
    ensures
        match r {
            Ok(k) => 0 <= k < rows@.len() && ((rows@[k as int].id@ == name_or_id@ && forall|j: int|
                0 <= j < k ==> rows@[j].id@ != name_or_id@) || ((forall|j: int|
                0 <= j < rows@.len() ==> rows@[j].id@ != name_or_id@) && rows@[k as int].name@
                == name_or_id@ && forall|j: int| 0 <= j < k ==> rows@[j].name@ != name_or_id@)),
            Err(e) => (forall|j: int|
                0 <= j < rows@.len() ==> rows@[j].id@ != name_or_id@ && rows@[j].name@ != name_or_id@)
                && e is VaultNotFound && e->VaultNotFound_name_or_id@ == name_or_id@ && hint_ok(
                name_or_id@,
                known_names@,
                e->VaultNotFound_hint,
            ),
        },
{
    let mut i: usize = 0;
    while i < rows.len()
        invariant
            i <= rows@.len(),
            forall|j: int| 0 <= j < i ==> rows@[j].id@ != name_or_id@,
        decreases rows@.len() - i,
    {
        if str_eq(rows[i].id.as_str(), name_or_id) {
            return Ok(i);
        }
        i += 1;
    }
    let mut k: usize = 0;
    while k < rows.len()
        invariant
            k <= rows@.len(),
            forall|j: int| 0 <= j < rows@.len() ==> rows@[j].id@ != name_or_id@,
            forall|j: int| 0 <= j < k ==> rows@[j].name@ != name_or_id@,
        decreases rows@.len() - k,
    {
        if str_eq(rows[k].name.as_str(), name_or_id) {
            return Ok(k);
        }
        k += 1;
    }
    let hint = closest_name(name_or_id, known_names);
    Err(ControlPlaneError::VaultNotFound { name_or_id: owned(name_or_id), hint })
}

// ---------------------------------------------------------------------------
// Lifecycle decisions
// ---------------------------------------------------------------------------

/// What `pause` does once the vault's row has been found.
#[derive(Debug, Clone, Copy, PartialEq, Eq, Structural)]
pub enum PausePlan {
    /// Already paused: answer with the row as it is.
    AlreadyPaused,
    /// Drain the runner, mark the row paused, publish the paused entry.
    Drain,
}

/// Pausing a paused vault is a no-op; anything else drains it.
pub fn pause_plan(current: VaultStatus) -> (p: PausePlan)
    ensures
        p == (if current == VaultStatus::Paused {
            PausePlan::AlreadyPaused
        } else {
            PausePlan::Drain
        }),
{
    match current {
        VaultStatus::Paused => PausePlan::AlreadyPaused,
        _ => PausePlan::Drain,
    }
}

/// What `resume` does once the vault's row has been found.
#[derive(Debug, Clone, Copy, PartialEq, Eq, Structural)]
pub enum ResumePlan {
    /// Already active: answer with the row as it is.
    AlreadyActive,
    /// Errored and its directory is not reachable: refuse with
    /// `vault_errored`.
    RefuseErrored,
    /// A runner is installed: give it a fresh lifecycle.
    InstallLifecycle,
    /// No runner: mark the row active and spawn a new runner.
    SpawnRunner,
}

/// The resume decision. `runner_status` is the status of the installed
/// runner, if any; `row_status` that of the registry row.
pub fn resume_plan(runner_status: Option<VaultStatus>, row_status: VaultStatus, path_accessible: bool) -> (p:
    ResumePlan)
    ensures
        p == (match runner_status {
            Some(s) => if s == VaultStatus::Active {
                ResumePlan::AlreadyActive
            } else if s == VaultStatus::Errored && !path_accessible {
                ResumePlan::RefuseErrored
            } else {
                ResumePlan::InstallLifecycle
            },
            None => if row_status == VaultStatus::Active {
                ResumePlan::AlreadyActive
            } else if row_status == VaultStatus::Errored && !path_accessible {
                ResumePlan::RefuseErrored
            } else {
                ResumePlan::SpawnRunner
            },
        }),
{
    match runner_status {
        Some(s) => {
            if s == VaultStatus::Active {
                ResumePlan::AlreadyActive
            } else if s == VaultStatus::Errored && !path_accessible {
                ResumePlan::RefuseErrored
            } else {
                ResumePlan::InstallLifecycle
            }
        },
        None => {
            if row_status == VaultStatus::Active {
                ResumePlan::AlreadyActive
            } else if row_status == VaultStatus::Errored && !path_accessible {
                ResumePlan::RefuseErrored
            } else {
                ResumePlan::SpawnRunner
            }
        },
    }
}

/// What `reset` does once the vault's row has been found.
#[derive(Debug, Clone, Copy, PartialEq, Eq, Structural)]
pub enum ResetPlan {
    /// Drain the installed runner, rebuild when asked, install a fresh
    /// lifecycle.
    RestartRunner { rebuild: bool },
    /// No runner and the directory is not reachable: refuse with
    /// `vault_errored`.
    RefuseErrored,
    /// No runner: rebuild when asked on a freshly opened store, then spawn a
    /// runner.
    SpawnRunner { rebuild: bool },
}

pub fn reset_plan(has_runner: bool, path_accessible: bool, rebuild: bool) -> (p: ResetPlan)
    ensures
        p == (if has_runner {
            ResetPlan::RestartRunner { rebuild }
        } else if !path_accessible {
            ResetPlan::RefuseErrored
        } else {
            ResetPlan::SpawnRunner { rebuild }
        }),
{
    if has_runner {
        ResetPlan::RestartRunner { rebuild }
    } else if !path_accessible {
        ResetPlan::RefuseErrored
    } else {
        ResetPlan::SpawnRunner { rebuild }
    }
}

/// The error a refused resume or reset answers with.
pub fn vault_errored(name_or_id: &str, last_error: Option<String>) -> (e: ControlPlaneError)
    ensures
        e == (ControlPlaneError::VaultErrored {
            name_or_id: e->VaultErrored_name_or_id,
            last_error,
        }),
        e->VaultErrored_name_or_id@ == name_or_id@,
{
    ControlPlaneError::VaultErrored { name_or_id: owned(name_or_id), last_error }
}


// ---------------------------------------------------------------------------
// Startup reconciliation
// ---------------------------------------------------------------------------

/// What startup does with one registry row.
#[derive(Debug, Clone, PartialEq, Eq)]
pub enum ReconcileAction {
    /// Paused or errored rows get no runner.
    Skip,
    /// An active row whose directory exists gets a runner.
    Keep,
    /// An active row whose directory is gone or not a directory is marked
    /// errored with this message.
    MarkErrored(String),
}

/// The startup decision for a registry row, from the filesystem's report on
/// its path (only whether it is a directory matters here).
pub fn reconcile_row(status: VaultStatus, path: &str, probe: &crate::legacy_state_migration::PathProbe) -> (a:
    ReconcileAction)
    ensures
        status != VaultStatus::Active ==> a == ReconcileAction::Skip,
        status == VaultStatus::Active ==> match *probe {
            crate::legacy_state_migration::PathProbe::Directory { .. } => a == ReconcileAction::Keep,
            crate::legacy_state_migration::PathProbe::NotDirectory => a is MarkErrored
                && a->MarkErrored_0@ == "vault path "@ + path@ + " is not a directory"@,
            crate::legacy_state_migration::PathProbe::Inaccessible(e) => a is MarkErrored
                && a->MarkErrored_0@ == "vault path "@ + path@ + " not accessible: "@ + e@,
        },
{
    if status != VaultStatus::Active {
        return ReconcileAction::Skip;
    }
    match probe {
        crate::legacy_state_migration::PathProbe::Directory { .. } => ReconcileAction::Keep,
        crate::legacy_state_migration::PathProbe::NotDirectory => {
            let mut m = concat("vault path ", path);
            push_str(&mut m, " is not a directory");
            ReconcileAction::MarkErrored(m)
        },
        crate::legacy_state_migration::PathProbe::Inaccessible(e) => {
            let mut m = concat("vault path ", path);
            push_str(&mut m, " not accessible: ");
            push_str(&mut m, e.as_str());
            ReconcileAction::MarkErrored(m)
        },
    }
}

/// A per-vault data directory is an orphan, to be removed, when it is a
/// directory named after no active vault.
pub fn is_orphan_subdir(name: &str, is_dir: bool, active_ids: &Vec<String>) -> (r: bool)
    ensures
        r == (is_dir && !active_ids@.map_values(|s: String| s@).contains(name@)),
{
    if !is_dir {
        return false;
    }
    let ghost views = active_ids@.map_values(|s: String| s@);
    let mut i: usize = 0;
    while i < active_ids.len()
        invariant
            i <= active_ids@.len(),
            views == active_ids@.map_values(|s: String| s@),
            forall|j: int| 0 <= j < i ==> views[j] != name@,
        decreases active_ids@.len() - i,
    {
        if str_eq(active_ids[i].as_str(), name) {
            assert(views[i as int] == name@);
            return false;
        }
        i += 1;
    }
    true
}

/// The registry-corruption error a failed registry read maps to.
pub fn registry_corrupt(detail: String) -> (e: ControlPlaneError)
    ensures
        e == (ControlPlaneError::RegistryCorrupt { detail }),
{
    ControlPlaneError::RegistryCorrupt { detail }
}

/// The text `{:?}` gives a string: quoted, with escapes.
pub uninterp spec fn debug_text_of(s: Seq<char>) -> Seq<char>;

/// `<str as Debug>::fmt` through `format!("{s:?}")`. Its result is named,
/// not described: escaping rules take pages.
#[verifier::external_body]
pub(crate) fn debug_quoted(s: &str) -> (r: String)
    ensures
        r@ == debug_text_of(s@),
{
    format!("{s:?}")
}

/// Checks the new name of a rename.
pub fn check_new_name(new_name: &str) -> (r: Result<(), ControlPlaneError>)
    ensures
        r is Ok <==> valid_vault_name(new_name@),
        r matches Err(e) ==> e is VaultPathInvalid && e->VaultPathInvalid_detail@ == "new_name "@
            + debug_text_of(new_name@)
            + " must match ^[A-Za-z0-9_-]+$ (ASCII letters, digits, '_', '-')"@,
{
    if is_valid_vault_name(new_name) {
        return Ok(());
    }
    let mut d = concat("new_name ", debug_quoted(new_name).as_str());
    push_str(&mut d, " must match ^[A-Za-z0-9_-]+$ (ASCII letters, digits, '_', '-')");
    Err(ControlPlaneError::VaultPathInvalid { detail: d })
}

/// A rename collides when the new name belongs to another vault.
pub fn rename_conflict(existing: Option<&VaultRef>, existing_path: &str, id: &str, new_name: &str) -> (r: Result<
    (),
    ControlPlaneError,
>)
    ensures
        match existing {
            Some(x) => if x.id@ != id@ {
                r matches Err(e) && e is VaultNameConflict && e->VaultNameConflict_existing_path@
                    == existing_path@ && e->VaultNameConflict_name@ == new_name@
            } else {
                r is Ok
            },
            None => r is Ok,
        },
{
    match existing {
        Some(x) => {
            if !str_eq(x.id.as_str(), id) {
                return Err(
                    ControlPlaneError::VaultNameConflict {
                        existing_path: owned(existing_path),
                        name: owned(new_name),
                    },
                );
            }
            Ok(())
        },
        None => Ok(()),
    }
}

} // verus!
