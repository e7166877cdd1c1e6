//! API errors: an HTTP status, a stable error code and a message, and the
//! mapping of control-plane and query-layer failures onto them.

use vstd::prelude::*;
use crate::control_plane::ControlPlaneError;
use crate::text::{concat, owned, push_str, trim};

verus! {

pub const STATUS_BAD_REQUEST: u16 = 400;
pub const STATUS_NOT_FOUND: u16 = 404;
pub const STATUS_CONFLICT: u16 = 409;
pub const STATUS_UNPROCESSABLE_ENTITY: u16 = 422;
pub const STATUS_INTERNAL_SERVER_ERROR: u16 = 500;
pub const STATUS_SERVICE_UNAVAILABLE: u16 = 503;

/// An error answered to an API caller.
#[derive(Debug, Clone, PartialEq, Eq)]
pub struct ApiError {
    pub status: u16,
    pub code: String,
    pub message: String,
}

/// An API error in mathematical terms: status, code, message.
pub type ApiErrorView = (u16, Seq<char>, Seq<char>);

impl View for ApiError {
    type V = ApiErrorView;

    open spec fn view(&self) -> ApiErrorView {
        (self.status, self.code@, self.message@)
    }
}

impl ApiError {
    pub fn new(code: &str, message: &str, status: u16) -> (e: ApiError)
        ensures
            e@ == (status, code@, message@),
    {
        ApiError { status, code: owned(code), message: owned(message) }
    }

    /// `400 invalid_request`.
    pub fn invalid_request(message: String) -> (e: ApiError)
        ensures
            e@ == (STATUS_BAD_REQUEST, "invalid_request"@, message@),
    {
        ApiError { status: STATUS_BAD_REQUEST, code: owned("invalid_request"), message }
    }

    /// `500 internal`, with a fixed message.
    pub fn internal() -> (e: ApiError)
        ensures
            e@ == (STATUS_INTERNAL_SERVER_ERROR, "internal"@, "internal server error"@),
    {
        ApiError::new("internal", "internal server error", STATUS_INTERNAL_SERVER_ERROR)
    }

    /// `404 vault_not_found`, naming the vault and the hint when there is one.
    pub fn vault_not_found(name_or_id: &str, hint: Option<&str>) -> (e: ApiError)
        ensures
            e@ == (STATUS_NOT_FOUND, "vault_not_found"@, match hint {
                Some(h) => "vault "@ + name_or_id@ + " not found (did you mean "@ + h@ + "?)"@,
                None => "vault "@ + name_or_id@ + " not found"@,
            }),
    {
        let mut message = concat("vault ", name_or_id);
        match hint {
            Some(h) => {
                push_str(&mut message, " not found (did you mean ");
                push_str(&mut message, h);
                push_str(&mut message, "?)");
            },
            None => {
                push_str(&mut message, " not found");
            },
        }
        ApiError { status: STATUS_NOT_FOUND, code: owned("vault_not_found"), message }
    }

    /// `409 vault_path_conflict` with the given message.
    pub fn vault_path_conflict(message: String) -> (e: ApiError)
        ensures
            e@ == (STATUS_CONFLICT, "vault_path_conflict"@, message@),
    {
        ApiError { status: STATUS_CONFLICT, code: owned("vault_path_conflict"), message }
    }

    /// `409 vault_name_conflict` with the given message.
    pub fn vault_name_conflict(message: String) -> (e: ApiError)
        ensures
            e@ == (STATUS_CONFLICT, "vault_name_conflict"@, message@),
    {
        ApiError { status: STATUS_CONFLICT, code: owned("vault_name_conflict"), message }
    }

    /// `422 vault_path_invalid` with the given message.
    pub fn vault_path_invalid(message: String) -> (e: ApiError)
        ensures
            e@ == (STATUS_UNPROCESSABLE_ENTITY, "vault_path_invalid"@, message@),
    {
        ApiError { status: STATUS_UNPROCESSABLE_ENTITY, code: owned("vault_path_invalid"), message }
    }

    /// `503 vault_errored` with the given message.
    pub fn vault_errored(message: String) -> (e: ApiError)
        ensures
            e@ == (STATUS_SERVICE_UNAVAILABLE, "vault_errored"@, message@),
    {
        ApiError { status: STATUS_SERVICE_UNAVAILABLE, code: owned("vault_errored"), message }
    }

    /// `409 vault_not_active` with the given message.
    pub fn vault_not_active(message: String) -> (e: ApiError)
        ensures
            e@ == (STATUS_CONFLICT, "vault_not_active"@, message@),
    {
        ApiError { status: STATUS_CONFLICT, code: owned("vault_not_active"), message }
    }

    /// `409 vault_op_conflict` with the given message.
    pub fn vault_op_conflict(message: String) -> (e: ApiError)
        ensures
            e@ == (STATUS_CONFLICT, "vault_op_conflict"@, message@),
    {
        ApiError { status: STATUS_CONFLICT, code: owned("vault_op_conflict"), message }
    }

    /// `registry_corrupt`, with a fixed message.
    pub fn registry_corrupt() -> (e: ApiError)
        ensures
            e@ == (STATUS_INTERNAL_SERVER_ERROR, "registry_corrupt"@,
                "vault registry is corrupt; restore from backup"@),
    {
        ApiError::new(
            "registry_corrupt",
            "vault registry is corrupt; restore from backup",
            STATUS_INTERNAL_SERVER_ERROR,
        )
    }

    /// The `code: message` rendering that callers see through error chains.
    pub fn display_text(&self) -> (s: String)
        ensures
            s@ == self.code@ + ": "@ + self.message@,
    {
        let mut s = concat(self.code.as_str(), ": ");
        push_str(&mut s, self.message.as_str());
        s
    }
}

/// The API error a control-plane error is answered with.
pub open spec fn api_error_of(e: ControlPlaneError) -> ApiErrorView {
    match e {
        ControlPlaneError::VaultNotFound { name_or_id, hint } => (
            STATUS_NOT_FOUND,
            "vault_not_found"@,
            match hint {
                Some(h) => "vault "@ + name_or_id@ + " not found (did you mean "@ + h@ + "?)"@,
                None => "vault "@ + name_or_id@ + " not found"@,
            },
        ),
        ControlPlaneError::VaultPathConflict { existing_name, path } => (
            STATUS_CONFLICT,
            "vault_path_conflict"@,
            "path "@ + path@ + " is already registered as vault "@ + existing_name@,
        ),
        ControlPlaneError::VaultNameConflict { existing_path, name } => (
            STATUS_CONFLICT,
            "vault_name_conflict"@,
            "name "@ + name@ + " is already in use by vault at "@ + existing_path@,
        ),
        ControlPlaneError::VaultPathInvalid { detail } => (
            STATUS_UNPROCESSABLE_ENTITY,
            "vault_path_invalid"@,
            detail@,
        ),
        ControlPlaneError::VaultErrored { name_or_id, last_error } => (
            STATUS_SERVICE_UNAVAILABLE,
            "vault_errored"@,
            match last_error {
                Some(e) => "vault "@ + name_or_id@ + " is errored: "@ + e@,
                None => "vault "@ + name_or_id@ + " is errored"@,
            },
        ),
        ControlPlaneError::VaultOpConflict { detail } => (
            STATUS_CONFLICT,
            "vault_op_conflict"@,
            detail@,
        ),
        ControlPlaneError::RegistryCorrupt { .. } => (
            STATUS_INTERNAL_SERVER_ERROR,
            "registry_corrupt"@,
            "vault registry is corrupt; restore from backup"@,
        ),
        ControlPlaneError::Internal(_) => (
            STATUS_INTERNAL_SERVER_ERROR,
            "internal"@,
            "internal server error"@,
        ),
    }
}

impl ApiError {
    /// Maps a control-plane error onto its API error. Registry corruption
    /// and internal failures keep their detail out of the answer.
    pub fn from_control_plane(err: ControlPlaneError) -> (e: ApiError)
        ensures
            e@ == api_error_of(err),
    {
        match err {
            ControlPlaneError::VaultNotFound { name_or_id, hint } => {
                match hint {
                    Some(h) => ApiError::vault_not_found(name_or_id.as_str(), Some(h.as_str())),
                    None => ApiError::vault_not_found(name_or_id.as_str(), None),
                }
            },
            ControlPlaneError::VaultPathConflict { existing_name, path } => {
                let mut m = concat("path ", path.as_str());
                push_str(&mut m, " is already registered as vault ");
                push_str(&mut m, existing_name.as_str());
                ApiError::vault_path_conflict(m)
            },
            ControlPlaneError::VaultNameConflict { existing_path, name } => {
                let mut m = concat("name ", name.as_str());
                push_str(&mut m, " is already in use by vault at ");
                push_str(&mut m, existing_path.as_str());
                ApiError::vault_name_conflict(m)
            },
            ControlPlaneError::VaultPathInvalid { detail } => ApiError::vault_path_invalid(detail),
            ControlPlaneError::VaultErrored { name_or_id, last_error } => {
                let mut m = concat("vault ", name_or_id.as_str());
                match last_error {
                    Some(e) => {
                        push_str(&mut m, " is errored: ");
                        push_str(&mut m, e.as_str());
                    },
                    None => {
                        push_str(&mut m, " is errored");
                    },
                }
                ApiError::vault_errored(m)
            },
            ControlPlaneError::VaultOpConflict { detail } => ApiError::vault_op_conflict(detail),
            ControlPlaneError::RegistryCorrupt { .. } => ApiError::registry_corrupt(),
            ControlPlaneError::Internal(_) => ApiError::internal(),
        }
    }
}

// ---------------------------------------------------------------------------
// Query-layer failures
// ---------------------------------------------------------------------------

/// Whether `s` starts with `p`.
pub open spec fn starts_with(s: Seq<char>, p: Seq<char>) -> bool {
    p.len() <= s.len() && s.take(p.len() as int) == p
}

/// Whether `s` starts with `p`.
pub fn has_prefix(s: &str, p: &str) -> (r: bool)
    ensures
        r == starts_with(s@, p@),
{
    let sv = crate::text::chars_of(s);
    let pv = crate::text::chars_of(p);
    if pv.len() > sv.len() {
        return false;
    }
    let mut i: usize = 0;
    while i < pv.len()
        invariant
            i <= pv@.len() <= sv@.len(),
            sv@ == s@,
            pv@ == p@,
            forall|j: int| 0 <= j < i ==> sv@[j] == pv@[j],
        decreases pv@.len() - i,
    {
        if sv[i] != pv[i] {
            assert(s@.take(p@.len() as int)[i as int] != p@[i as int]);
            return false;
        }
        i += 1;
    }
    assert(s@.take(p@.len() as int) =~= p@);
    true
}

/// The leading run of `c` removed.
pub open spec fn trim_start_char(s: Seq<char>, c: char) -> Seq<char>
    decreases s.len(),
{
    if s.len() > 0 && s[0] == c {
        trim_start_char(s.drop_first(), c)
    } else {
        s
    }
}

/// A failure detail after its token: leading colons dropped, then trimmed.
pub open spec fn token_detail(rest: Seq<char>) -> Seq<char> {
    trim(trim_start_char(rest, ':'))
}

fn trim_token_detail(v: &Vec<char>, from: usize) -> (r: String)
    requires
        from <= v@.len(),
    ensures
        r@ == token_detail(v@.subrange(from as int, v@.len() as int)),
{
    let mut i = from;
    while i < v.len() && v[i] == ':'
        invariant
            from <= i <= v@.len(),
            trim_start_char(v@.subrange(from as int, v@.len() as int), ':') == trim_start_char(
                v@.subrange(i as int, v@.len() as int),
                ':',
            ),
        decreases v@.len() - i,
    {
        assert(v@.subrange(i as int, v@.len() as int).drop_first() =~= v@.subrange(
            i + 1,
            v@.len() as int,
        ));
        i += 1;
    }
    let rest = crate::text::slice_chars(v, i, v.len());
    let t = crate::text::trim_chars(&rest);
    crate::text::string_from_chars(&t)
}

/// The error codes the query layer puts at the head of a failure's
/// rendering when the request itself was at fault.
pub open spec fn query_error_spec(display: Seq<char>) -> ApiErrorView {
    if starts_with(display, "invalid_glob"@) {
        (STATUS_BAD_REQUEST, "invalid_glob"@, token_detail(display.skip(12)))
    } else if starts_with(display, "invalid_regex"@) {
        (STATUS_BAD_REQUEST, "invalid_regex"@, token_detail(display.skip(13)))
    } else if starts_with(display, "invalid_prefix"@) {
        (STATUS_BAD_REQUEST, "invalid_prefix"@, token_detail(display.skip(14)))
    } else {
        (STATUS_INTERNAL_SERVER_ERROR, "internal"@, "internal server error"@)
    }
}

impl ApiError {
    /// Maps a query-layer failure, given by its rendered error chain, onto
    /// an API error: `invalid_glob`, `invalid_regex` and `invalid_prefix`
    /// keep their detail; anything else is internal.
    pub fn from_query_error(display: &str) -> (e: ApiError)
        ensures
            e@ == query_error_spec(display@),
    {
        proof {
            reveal_strlit("invalid_glob");
            reveal_strlit("invalid_regex");
            reveal_strlit("invalid_prefix");
        }
        let v = crate::text::chars_of(display);
        if has_prefix(display, "invalid_glob") {
            let m = trim_token_detail(&v, 12);
            assert(v@.subrange(12, v@.len() as int) =~= display@.skip(12));
            return ApiError { status: STATUS_BAD_REQUEST, code: owned("invalid_glob"), message: m };
        }
        if has_prefix(display, "invalid_regex") {
            let m = trim_token_detail(&v, 13);
            assert(v@.subrange(13, v@.len() as int) =~= display@.skip(13));
            return ApiError { status: STATUS_BAD_REQUEST, code: owned("invalid_regex"), message: m };
        }
        if has_prefix(display, "invalid_prefix") {
            let m = trim_token_detail(&v, 14);
            assert(v@.subrange(14, v@.len() as int) =~= display@.skip(14));
            return ApiError {
                status: STATUS_BAD_REQUEST,
                code: owned("invalid_prefix"),
                message: m,
            };
        }
        ApiError::internal()
    }
}

/// Registry corruption and internal failures answer the same whatever
/// their detail: the detail is never shown to the caller.
pub proof fn law_failure_detail_stays_private(d1: String, d2: String)
    ensures
        api_error_of(ControlPlaneError::RegistryCorrupt { detail: d1 }) == api_error_of(
            ControlPlaneError::RegistryCorrupt { detail: d2 },
        ),
        api_error_of(ControlPlaneError::Internal(d1)) == api_error_of(ControlPlaneError::Internal(d2)),
{
}

} // verus!
