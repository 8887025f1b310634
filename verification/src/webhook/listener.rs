//! What the listener makes of a delivery.
//!
//! Three gates apply per request, in order: the signature or token, the
//! translation against the manifest, and the signing of each resulting
//! submission under the configured tenant key. One line of JSON per submission
//! comes out.

use crate::boundary;
use crate::bytes;
use crate::cli;
use crate::cli::arg_or;
use crate::json;
use crate::json::{Json, JsonItem};
use crate::signing::Keypair;
use crate::submission_auth::{canonical_bytes, JobSubmissionPayload};
use crate::text;
use crate::webhook::manifest;
use crate::webhook::manifest::{parse_manifest, CosaciToml, ManifestError};
use crate::webhook::signature::{verify_github_signature, verify_gitlab_token};
use crate::webhook::translate;
use crate::webhook::translate::{translate, walk_path, ResolvedPipeline, ResolvedStep};
use vstd::prelude::*;

verus! {

/// Path of GitHub deliveries.
pub const ROUTE_GITHUB: &'static str = "/webhook/github";

/// Path of GitLab deliveries.
pub const ROUTE_GITLAB: &'static str = "/webhook/gitlab";

// ── Configuration ──────────────────────────────────────────────────────────
/// How the listener is set up.
#[derive(Clone, Debug, PartialEq, Eq)]
pub struct ListenerConfig {
    /// Address to listen on.
    pub addr: String,
    /// File of the GitHub secret, or empty.
    pub github_secret_path: String,
    /// File of the GitLab token, or empty.
    pub gitlab_token_path: String,
    /// Tenant that submissions are signed under.
    pub tenant_id: u64,
    /// File of the tenant's seed.
    pub tenant_key_path: String,
    /// File of the manifest.
    pub manifest_path: String,
}

/// Why the listener cannot be set up.
#[derive(Clone, Copy, Debug, PartialEq, Eq, Structural)]
pub enum ConfigError {
    /// The tenant id is not a number.
    TenantIdNotNumber,
    /// There is no tenant id.
    TenantIdMissing,
    /// There is no tenant key.
    TenantKeyMissing,
    /// There is no manifest.
    ManifestMissing,
    /// There is neither a GitHub secret nor a GitLab token.
    NoProvider,
    /// The tenant key is shorter than a seed.
    TenantKeyTooShort,
    /// The GitHub secret is blank.
    GithubSecretEmpty,
    /// The GitLab token is blank.
    GitlabTokenEmpty,
}

impl ConfigError {
    /// The error in words.
    #[must_use]
    pub fn message(&self) -> (r: &'static str)
        ensures
            r@ == match *self {
                ConfigError::TenantIdNotNumber => "--tenant-id must be a u64"@,
                ConfigError::TenantIdMissing => {
                    "--tenant-id is required (must match an entry in coord's --tenants file)"@
                },
                ConfigError::TenantKeyMissing => "--tenant-key path is required"@,
                ConfigError::ManifestMissing => "--manifest path is required"@,
                ConfigError::NoProvider => {
                    "at least one of --github-secret / --gitlab-token must be configured"@
                },
                ConfigError::TenantKeyTooShort => {
                    "--tenant-key file must be at least 32 bytes (raw ed25519 seed)"@
                },
                ConfigError::GithubSecretEmpty => "--github-secret file is empty"@,
                ConfigError::GitlabTokenEmpty => "--gitlab-token file is empty"@,
            },
    {
        match self {
            ConfigError::TenantIdNotNumber => "--tenant-id must be a u64",
            ConfigError::TenantIdMissing => {
                "--tenant-id is required (must match an entry in coord's --tenants file)"
            },
            ConfigError::TenantKeyMissing => "--tenant-key path is required",
            ConfigError::ManifestMissing => "--manifest path is required",
            ConfigError::NoProvider => {
                "at least one of --github-secret / --gitlab-token must be configured"
            },
            ConfigError::TenantKeyTooShort => {
                "--tenant-key file must be at least 32 bytes (raw ed25519 seed)"
            },
            ConfigError::GithubSecretEmpty => "--github-secret file is empty",
            ConfigError::GitlabTokenEmpty => "--gitlab-token file is empty",
        }
    }
}

/// The set-up that arguments ask for. Tenant, key, manifest and at least one
/// provider are required, in this order.
///
/// # Errors
///
/// The first requirement that is not met.
pub fn listener_config(args: &[String]) -> (r: Result<ListenerConfig, ConfigError>)
    ensures
        ({
            let id = text::unsigned_of(
                cli::arg_of(args@, "--tenant-id"@, "0"@),
                u64::MAX as nat,
            );
            let key = cli::arg_of(args@, "--tenant-key"@, ""@);
            let manifest = cli::arg_of(args@, "--manifest"@, ""@);
            let github = cli::arg_of(args@, "--github-secret"@, ""@);
            let gitlab = cli::arg_of(args@, "--gitlab-token"@, ""@);
            match r {
                Ok(c) => {
                    &&& id == Some(c.tenant_id as nat)
                    &&& c.tenant_id != 0
                    &&& c.addr@ == cli::arg_of(args@, "--addr"@, "127.0.0.1:8080"@)
                    &&& c.tenant_key_path@ == key && key.len() > 0
                    &&& c.manifest_path@ == manifest && manifest.len() > 0
                    &&& c.github_secret_path@ == github
                    &&& c.gitlab_token_path@ == gitlab
                    &&& github.len() > 0 || gitlab.len() > 0
                },
                Err(e) => if id is None {
                    e == ConfigError::TenantIdNotNumber
                } else if id == Some(0nat) {
                    e == ConfigError::TenantIdMissing
                } else if key.len() == 0 {
                    e == ConfigError::TenantKeyMissing
                } else if manifest.len() == 0 {
                    e == ConfigError::ManifestMissing
                } else {
                    e == ConfigError::NoProvider && github.len() == 0 && gitlab.len() == 0
                },
            }
        }),
{
    let addr = arg_or(args, "--addr", "127.0.0.1:8080");
    let github_secret_path = arg_or(args, "--github-secret", "");
    let gitlab_token_path = arg_or(args, "--gitlab-token", "");
    let id_text = text::chars_of(arg_or(args, "--tenant-id", "0").as_str());
    let tenant_id: u64 = match text::parse_unsigned(id_text.as_slice(), u64::MAX) {
        Some(n) => n,
        None => return Err(ConfigError::TenantIdNotNumber),
    };
    let tenant_key_path = arg_or(args, "--tenant-key", "");
    let manifest_path = arg_or(args, "--manifest", "");
    if tenant_id == 0 {
        return Err(ConfigError::TenantIdMissing);
    }
    if tenant_key_path.as_str().is_empty() {
        return Err(ConfigError::TenantKeyMissing);
    }
    if manifest_path.as_str().is_empty() {
        return Err(ConfigError::ManifestMissing);
    }
    if github_secret_path.as_str().is_empty() && gitlab_token_path.as_str().is_empty() {
        return Err(ConfigError::NoProvider);
    }
    Ok(
        ListenerConfig {
            addr,
            github_secret_path,
            gitlab_token_path,
            tenant_id,
            tenant_key_path,
            manifest_path,
        },
    )
}

/// Whether a byte is a space, a tab or part of a line ending.
pub open spec fn is_blank(b: u8) -> bool {
    b == 0x20 || b == 0x09 || b == 0x0a || b == 0x0d
}

/// Bytes without the blanks at their end.
pub open spec fn without_trailing_blanks(v: Seq<u8>) -> Seq<u8>
    decreases v.len(),
{
    if v.len() > 0 && is_blank(v.last()) {
        without_trailing_blanks(v.drop_last())
    } else {
        v
    }
}

/// Bytes without the blanks at their end.
#[must_use]
pub fn trim_end_inplace(v: Vec<u8>) -> (r: Vec<u8>)
    ensures
        r@ == without_trailing_blanks(v@),
{
    let mut out = v;
    while out.len() > 0 && (out[out.len() - 1] == 0x20 || out[out.len() - 1] == 0x09 || out[out.len()
        - 1] == 0x0a || out[out.len() - 1] == 0x0d)
        invariant
            without_trailing_blanks(out@) == without_trailing_blanks(v@),
        decreases out@.len(),
    {
        let ghost before = out@;
        out.pop();
        assert(out@ =~= before.drop_last());
    }
    out
}

/// The tenant's key pair, from the file of its seed.
///
/// # Errors
///
/// `TenantKeyTooShort` where the file is shorter than a seed.
pub fn tenant_keypair(file: &[u8]) -> (r: Result<Keypair, ConfigError>)
    ensures
        match r {
            Ok(kp) => file@.len() >= 32 && kp@ == file@.take(32),
            Err(e) => file@.len() < 32 && e == ConfigError::TenantKeyTooShort,
        },
{
    match cli::seed_of(file) {
        Some(seed) => Ok(Keypair::from_seed(seed)),
        None => Err(ConfigError::TenantKeyTooShort),
    }
}

/// The GitHub secret of a file: its bytes without the blanks at their end.
///
/// # Errors
///
/// `GithubSecretEmpty` where nothing is left.
pub fn github_secret(file: Vec<u8>) -> (r: Result<Vec<u8>, ConfigError>)
    ensures
        ({
            let secret = without_trailing_blanks(file@);
            match r {
                Ok(s) => s@ == secret && secret.len() > 0,
                Err(e) => secret.len() == 0 && e == ConfigError::GithubSecretEmpty,
            }
        }),
{
    let secret = trim_end_inplace(file);
    if secret.len() == 0 {
        Err(ConfigError::GithubSecretEmpty)
    } else {
        Ok(secret)
    }
}

/// The GitLab token of a file: its text without whitespace at either end.
///
/// # Errors
///
/// `GitlabTokenEmpty` where nothing is left.
pub fn gitlab_token(file: &str) -> (r: Result<String, ConfigError>)
    ensures
        ({
            let token = text::trimmed(file@);
            match r {
                Ok(t) => t@ == token && token.len() > 0,
                Err(e) => token.len() == 0 && e == ConfigError::GitlabTokenEmpty,
            }
        }),
{
    let chars = text::chars_of(file);
    let token = text::trim(chars.as_slice());
    if token.len() == 0 {
        Err(ConfigError::GitlabTokenEmpty)
    } else {
        Ok(text::string_of(token.as_slice()))
    }
}

/// Why the manifest cannot be served.
#[derive(Clone, Debug, PartialEq, Eq)]
pub enum ManifestRefusal {
    /// The file is no manifest.
    Unreadable(ManifestError),
    /// It is another tenant's.
    OtherTenant {
        /// Tenant of the manifest.
        manifest: u64,
        /// Tenant that submissions are signed under.
        configured: u64,
    },
}

impl ManifestRefusal {
    /// The refusal in words.
    #[must_use]
    pub fn message(&self) -> (r: String)
        ensures
            r@ == match *self {
                ManifestRefusal::Unreadable(ManifestError::Toml(s)) => "manifest parse: "@ + (
                "toml parse: "@ + s@),
                ManifestRefusal::Unreadable(ManifestError::Schema(s)) => "manifest parse: "@ + (
                "manifest schema: "@ + s@),
                ManifestRefusal::OtherTenant { manifest, configured } => "manifest tenant id "@
                    + text::decimal_of(manifest as nat) + " != --tenant-id "@ + text::decimal_of(
                    configured as nat,
                ),
            },
    {
        match self {
            ManifestRefusal::Unreadable(e) => text::joined("manifest parse: ", e.message().as_str()),
            ManifestRefusal::OtherTenant { manifest, configured } => {
                let mut out = text::joined("manifest tenant id ", "");
                text::append_decimal(&mut out, *manifest);
                text::append_str(&mut out, " != --tenant-id ");
                text::append_decimal(&mut out, *configured);
                proof {
                    reveal_strlit("");
                    assert("manifest tenant id "@ + ""@ =~= "manifest tenant id "@);
                }
                out
            },
        }
    }
}

/// The manifest that a file holds for the configured tenant.
///
/// # Errors
///
/// `Unreadable` where the file is no manifest, `OtherTenant` where it is
/// another tenant's.
pub fn manifest_for(file: &str, tenant_id: u64) -> (r: Result<CosaciToml, ManifestRefusal>)
    ensures
        match manifest::document_of(file@) {
            Err(cause) => r matches Err(ManifestRefusal::Unreadable(ManifestError::Toml(s))) && s@
                == cause,
            Ok(doc) => match r {
                Ok(m) => manifest::is_manifest(doc, m) && m.tenant.id == tenant_id,
                Err(ManifestRefusal::Unreadable(e)) => {
                    &&& forall|m: CosaciToml| !manifest::is_manifest(doc, m)
                    &&& e matches ManifestError::Schema(s) && s@ == manifest::schema_fault(doc)
                },
                Err(ManifestRefusal::OtherTenant { manifest, configured }) => {
                    &&& configured == tenant_id
                    &&& manifest != tenant_id
                    &&& exists|m: CosaciToml|
                        #![trigger manifest::is_manifest(doc, m)]
                        manifest::is_manifest(doc, m) && m.tenant.id == manifest
                },
            },
        },
{
    match parse_manifest(file) {
        Err(e) => Err(ManifestRefusal::Unreadable(e)),
        Ok(m) => if m.tenant.id == tenant_id {
            Ok(m)
        } else {
            Err(ManifestRefusal::OtherTenant { manifest: m.tenant.id, configured: tenant_id })
        },
    }
}

// ── Requests ───────────────────────────────────────────────────────────────
/// Where a request goes.
#[derive(Clone, Copy, Debug, PartialEq, Eq, Structural)]
pub enum Route {
    /// It is no `POST`.
    MethodNotAllowed,
    /// A GitHub delivery.
    Github,
    /// A GitLab delivery.
    Gitlab,
    /// There is no such path.
    NotFound,
}

/// The path of a URL: what stands before the first question mark.
pub open spec fn path_of(url: Seq<char>) -> Seq<char> {
    url.take(text::before(url, '?') as int)
}

/// Where a request goes.
#[must_use]
pub fn route(method: &str, url: &str) -> (r: Route)
    ensures
        r == if method@ != "POST"@ {
            Route::MethodNotAllowed
        } else if path_of(url@) == ROUTE_GITHUB@ {
            Route::Github
        } else if path_of(url@) == ROUTE_GITLAB@ {
            Route::Gitlab
        } else {
            Route::NotFound
        },
{
    if !text::str_eq(method, "POST") {
        return Route::MethodNotAllowed;
    }
    let chars = text::chars_of(url);
    let n: usize = text::find(chars.as_slice(), '?');
    let path = text::copy_range(chars.as_slice(), 0, n);
    assert(path@ =~= path_of(url@));
    let path = text::string_of(path.as_slice());
    if text::str_eq(path.as_str(), ROUTE_GITHUB) {
        Route::Github
    } else if text::str_eq(path.as_str(), ROUTE_GITLAB) {
        Route::Gitlab
    } else {
        Route::NotFound
    }
}

/// The value of the first header with a name; case does not count.
pub open spec fn header_of(headers: Seq<(String, String)>, name: Seq<char>) -> Option<Seq<char>>
    decreases headers.len(),
{
    if headers.len() == 0 {
        None
    } else if text::same_ignoring_case(headers[0].0@, name) {
        Some(headers[0].1@)
    } else {
        header_of(headers.skip(1), name)
    }
}

/// The value of the first header with a name.
#[must_use]
pub fn header(headers: &[(String, String)], name: &str) -> (r: Option<String>)
    ensures
        match r {
            Some(v) => header_of(headers@, name@) == Some(v@),
            None => header_of(headers@, name@) is None,
        },
{
    let mut i: usize = 0;
    assert(headers@.skip(0) =~= headers@);
    while i < headers.len()
        invariant
            i <= headers.len(),
            header_of(headers@, name@) == header_of(headers@.skip(i as int), name@),
        decreases headers.len() - i,
    {
        assert(headers@.skip(i as int)[0] == headers@[i as int]);
        if text::eq_ignoring_case(headers[i].0.as_str(), name) {
            return Some(headers[i].1.clone());
        }
        assert(headers@.skip(i as int).skip(1) =~= headers@.skip(i + 1));
        i = i + 1;
    }
    None
}

/// Why a delivery is not taken.
#[derive(Clone, Debug, PartialEq, Eq)]
pub enum HandleError {
    /// The signature or token is missing or wrong.
    BadSignature,
    /// The request is not as it should be.
    BadRequest(String),
    /// The manifest and the event do not fit.
    Internal(String),
}

/// What a refusal says.
pub enum Refusal {
    /// The signature or token is missing or wrong.
    BadSignature,
    /// The request is not as it should be.
    BadRequest(Seq<char>),
    /// The manifest and the event do not fit.
    Internal(Seq<char>),
}

impl View for HandleError {
    type V = Refusal;

    open spec fn view(&self) -> Refusal {
        match *self {
            HandleError::BadSignature => Refusal::BadSignature,
            HandleError::BadRequest(s) => Refusal::BadRequest(s@),
            HandleError::Internal(s) => Refusal::Internal(s@),
        }
    }
}

/// The name of an event: `<kind>.<action>` where the body has an action, else
/// `<kind>.<object_kind>` where it has an object kind other than the kind, else
/// the kind.
pub open spec fn event_name_of(kind: Seq<char>, body: JsonItem) -> Seq<char> {
    match json::text_of(json::member(body, "action"@)) {
        Some(action) => kind + "."@ + action,
        None => match json::text_of(json::member(body, "object_kind"@)) {
            Some(object_kind) => if object_kind != kind {
                kind + "."@ + object_kind
            } else {
                kind
            },
            None => kind,
        },
    }
}

/// The name of an event.
#[must_use]
pub fn compose_event_name(kind: &str, body: &Json) -> (r: String)
    ensures
        r@ == event_name_of(kind@, body.item()),
{
    let suffix = match body.text_at("action") {
        Some(action) => action,
        None => match body.text_at("object_kind") {
            Some(object_kind) => {
                if text::str_eq(object_kind.as_str(), kind) {
                    return kind.to_owned();
                }
                object_kind
            },
            None => return kind.to_owned(),
        },
    };
    let mut s = kind.to_owned();
    text::append_str(&mut s, ".");
    text::append_str(&mut s, suffix.as_str());
    s
}

/// What a delivery says, or why it is not taken: its event's name and body. The
/// configuration is looked at first, then the signature, then the kind of the
/// event, then the body.
pub open spec fn admitted(
    configured: bool,
    not_configured: Seq<char>,
    authentic: bool,
    kind: Option<Seq<char>>,
    kind_missing: Seq<char>,
    body: Seq<u8>,
) -> Result<(Seq<char>, JsonItem), Refusal> {
    if !configured {
        Err(Refusal::BadRequest(not_configured))
    } else if !authentic {
        Err(Refusal::BadSignature)
    } else {
        match kind {
            None => Err(Refusal::BadRequest(kind_missing)),
            Some(kind) => match boundary::json::json_of(body) {
                Err(e) => Err(Refusal::BadRequest("invalid JSON body: "@ + e)),
                Ok(event) => Ok((event_name_of(kind, event), event)),
            },
        }
    }
}

/// What a GitHub delivery says, or why it is not taken.
pub open spec fn github_event(
    body: Seq<u8>,
    headers: Seq<(String, String)>,
    secret: Seq<u8>,
) -> Result<(Seq<char>, JsonItem), Refusal> {
    admitted(
        secret.len() > 0,
        "github webhook delivered but --github-secret not configured"@,
        header_of(headers, "x-hub-signature-256"@) matches Some(sig)
            && crate::webhook::signature::github_verdict(body, sig, secret) is Ok,
        header_of(headers, "x-github-event"@),
        "missing X-GitHub-Event"@,
        body,
    )
}

/// What a GitLab delivery says, or why it is not taken.
pub open spec fn gitlab_event(
    body: Seq<u8>,
    headers: Seq<(String, String)>,
    token: Seq<char>,
) -> Result<(Seq<char>, JsonItem), Refusal> {
    admitted(
        token.len() > 0,
        "gitlab webhook delivered but --gitlab-token not configured"@,
        header_of(headers, "x-gitlab-token"@) matches Some(given)
            && crate::webhook::signature::gitlab_verdict(given, token) is Ok,
        header_of(headers, "x-gitlab-event"@),
        "missing X-Gitlab-Event"@,
        body,
    )
}

// ── Submissions ────────────────────────────────────────────────────────────
/// The arguments that a hex-encoded blob encodes.
pub open spec fn hex_arguments(hex: Seq<char>) -> Option<(i32, i32)> {
    match text::hex_bytes_of(vstd::utf8::encode_utf8(hex), true) {
        Some(b) => match boundary::wasm::arguments_of(b) {
            Ok(p) => Some(p),
            Err(_) => None,
        },
        None => None,
    }
}

/// The arguments that a hex-encoded blob encodes.
#[must_use]
pub fn decode_args_cbor_hex(hex: &str) -> (r: Option<(i32, i32)>)
    ensures
        r == hex_arguments(hex@),
{
    match text::read_hex(hex.as_bytes(), true) {
        Some(b) => match crate::wasm_runtime::decode_args(b.as_slice()) {
            Ok(p) => Some(p),
            Err(_) => None,
        },
        None => None,
    }
}

/// The canned job of a step, if it executes a module: `mul` where the path of the
/// module holds that word, else `add`; on the encoded arguments, or on zeros where
/// they do not decode.
pub open spec fn canned_of(step: translate::StepFact) -> Option<(Seq<char>, i32, i32)> {
    match step {
        translate::StepFact::ExecWasm { wasm_path, args_cbor_hex } => {
            let kind = if text::holds(wasm_path, "mul"@) {
                "mul"@
            } else {
                "add"@
            };
            match hex_arguments(args_cbor_hex) {
                Some(p) => Some((kind, p.0, p.1)),
                None => Some((kind, 0i32, 0i32)),
            }
        },
        _ => None,
    }
}

/// The canned job of the first step that executes a module.
pub open spec fn first_canned(steps: Seq<translate::StepFact>) -> Option<(Seq<char>, i32, i32)>
    decreases steps.len(),
{
    if steps.len() == 0 {
        None
    } else {
        match canned_of(steps[0]) {
            Some(c) => Some(c),
            None => first_canned(steps.skip(1)),
        }
    }
}

/// The canned job of the first step of a pipeline that executes a module.
#[must_use]
pub fn first_canned_args(pipeline: &ResolvedPipeline) -> (r: Option<(String, i32, i32)>)
    ensures
        match r {
            Some(c) => first_canned(pipeline@.steps) == Some((c.0@, c.1, c.2)),
            None => first_canned(pipeline@.steps) is None,
        },
{
    let ghost all = pipeline@.steps;
    let mut i: usize = 0;
    assert(all.skip(0) =~= all);
    while i < pipeline.steps.len()
        invariant
            i <= pipeline.steps.len(),
            all == pipeline@.steps,
            first_canned(all) == first_canned(all.skip(i as int)),
        decreases pipeline.steps.len() - i,
    {
        assert(all.skip(i as int)[0] == pipeline.steps@[i as int]@);
        assert(all.skip(i as int).skip(1) =~= all.skip(i + 1));
        if let ResolvedStep::ExecWasm { wasm_path, args_cbor_hex } = &pipeline.steps[i] {
            let path = text::chars_of(wasm_path.as_str());
            let word = text::chars_of("mul");
            let kind = if text::contains(path.as_slice(), word.as_slice()) {
                "mul".to_owned()
            } else {
                "add".to_owned()
            };
            let (a, b): (i32, i32) = match decode_args_cbor_hex(args_cbor_hex.as_str()) {
                Some(p) => p,
                None => (0, 0),
            };
            return Some((kind, a, b));
        }
        i = i + 1;
    }
    None
}

/// The number that the first sixteen bytes of a text write, least significant
/// first.
pub open spec fn folded(s: Seq<char>) -> nat {
    let b = vstd::utf8::encode_utf8(s);
    bytes::le_value(
        if b.len() <= 16 {
            b
        } else {
            b.take(16)
        },
    )
}

fn fold(s: &str) -> (r: u128)
    ensures
        r == folded(s@),
{
    let b = s.as_bytes();
    if b.len() <= 16 {
        bytes::read_le_wide(b)
    } else {
        let part = vstd::slice::slice_subrange(b, 0, 16);
        assert(part@ =~= b@.take(16));
        bytes::read_le_wide(part)
    }
}

/// The text that a path of an event leads to.
pub open spec fn event_text(event: JsonItem, path: Seq<char>) -> Option<Seq<char>> {
    json::text_of(translate::path_value(event, path))
}

/// The first of an event's identifying texts: the head commit, the head of the
/// pull request, the checkout, the id.
pub open spec fn event_identity(event: JsonItem) -> Option<Seq<char>> {
    if event_text(event, "head_commit.id"@) is Some {
        event_text(event, "head_commit.id"@)
    } else if event_text(event, "pull_request.head.sha"@) is Some {
        event_text(event, "pull_request.head.sha"@)
    } else if event_text(event, "checkout_sha"@) is Some {
        event_text(event, "checkout_sha"@)
    } else {
        event_text(event, "id"@)
    }
}

fn text_at_path<'a>(event: &'a Json, path: &str) -> (r: Option<&'a String>)
    ensures
        match r {
            Some(s) => event_text(event.item(), path@) == Some(s@),
            None => event_text(event.item(), path@) is None,
        },
{
    let p = text::chars_of(path);
    match walk_path(event, p.as_slice()) {
        Some(v) => v.as_text(),
        None => None,
    }
}

/// The nonce that the first submission of an event gets: from its identity, or
/// the fallback where it has none.
pub open spec fn nonce_of(event: JsonItem, fallback: u128) -> nat {
    match event_identity(event) {
        Some(s) => folded(s),
        None => fallback as nat,
    }
}

/// The nonce that the first submission of an event gets. `fallback` stands in
/// where the event names no commit and no id.
#[must_use]
pub fn nonce_seed(event: &Json, fallback: u128) -> (r: u128)
    ensures
        r == nonce_of(event.item(), fallback),
{
    if let Some(s) = text_at_path(event, "head_commit.id") {
        return fold(s.as_str());
    }
    if let Some(s) = text_at_path(event, "pull_request.head.sha") {
        return fold(s.as_str());
    }
    if let Some(s) = text_at_path(event, "checkout_sha") {
        return fold(s.as_str());
    }
    match text_at_path(event, "id") {
        Some(s) => fold(s.as_str()),
        None => fallback,
    }
}

/// Whether a payload is the submission of a pipeline.
pub open spec fn submits(
    payload: JobSubmissionPayload,
    tenant_id: u64,
    pipeline: translate::PipelineFact,
    nonce: int,
) -> bool {
    let canned = match first_canned(pipeline.steps) {
        Some(c) => c,
        None => ("add"@, 0i32, 0i32),
    };
    &&& payload.tenant_id == tenant_id
    &&& payload.kind@ == canned.0
    &&& payload.a == canned.1
    &&& payload.b == canned.2
    &&& payload.deadline_secs == 60
    &&& payload.nonce == nonce % (u128::MAX + 1)
}

/// Whether payloads are the submissions of pipelines, in order, with consecutive
/// nonces.
pub open spec fn submits_all(
    payloads: Seq<JobSubmissionPayload>,
    tenant_id: u64,
    pipelines: Seq<translate::PipelineFact>,
    nonce: nat,
) -> bool {
    payloads.len() == pipelines.len() && forall|i: int|
        0 <= i < payloads.len() ==> submits(
            #[trigger] payloads[i],
            tenant_id,
            pipelines[i],
            nonce + i,
        )
}

/// Whether a result is what an event makes of a manifest.
pub open spec fn builds(
    r: Result<Vec<JobSubmissionPayload>, HandleError>,
    manifest: CosaciToml,
    event_name: Seq<char>,
    event: JsonItem,
    fallback: u128,
) -> bool {
    match translate::translated(manifest.pipelines@, event_name, event) {
        Err(e) => r matches Err(f) && f@ == Refusal::Internal(
            "translate: "@ + translate::fault_text(e),
        ),
        Ok(pipelines) => r matches Ok(v) && submits_all(
            v@,
            manifest.tenant.id,
            pipelines,
            nonce_of(event, fallback),
        ),
    }
}

fn plus_wrapping(base: u128, i: u128) -> (r: u128)
    ensures
        r == (base + i) % (u128::MAX + 1),
{
    if base <= u128::MAX - i {
        base + i
    } else {
        let r: u128 = base - (u128::MAX - i) - 1;
        r
    }
}

/// The submissions that an event makes of a manifest, one per pipeline that it
/// triggers.
///
/// # Errors
///
/// Where a matching pipeline does not resolve.
pub fn build_payloads(manifest: &CosaciToml, event_name: &str, event: &Json, fallback: u128) -> (r:
    Result<Vec<JobSubmissionPayload>, HandleError>)
    ensures
        builds(r, *manifest, event_name@, event.item(), fallback),
{
    let resolved = match translate(manifest, event_name, event) {
        Ok(v) => v,
        Err(e) => return Err(
            HandleError::Internal(text::joined("translate: ", e.message().as_str())),
        ),
    };
    let base: u128 = nonce_seed(event, fallback);
    let ghost all = translate::pipeline_facts(resolved@);
    let mut out: Vec<JobSubmissionPayload> = Vec::new();
    let mut i: usize = 0;
    while i < resolved.len()
        invariant
            i <= resolved.len(),
            all == translate::pipeline_facts(resolved@),
            out@.len() == i,
            forall|k: int|
                0 <= k < i ==> submits(#[trigger] out@[k], manifest.tenant.id, all[k], base + k),
        decreases resolved.len() - i,
    {
        assert(all[i as int] == resolved@[i as int]@);
        let (kind, a, b): (String, i32, i32) = match first_canned_args(&resolved[i]) {
            Some(c) => c,
            None => ("add".to_owned(), 0, 0),
        };
        out.push(
            JobSubmissionPayload {
                tenant_id: manifest.tenant.id,
                kind,
                a,
                b,
                deadline_secs: 60,
                nonce: plus_wrapping(base, i as u128),
            },
        );
        i = i + 1;
    }
    Ok(out)
}

/// Take a GitHub delivery.
///
/// # Errors
///
/// Where no secret is configured, the signature is missing or wrong, the kind of
/// the event is missing, the body is no JSON, or a matching pipeline does not
/// resolve, in this order.
pub fn handle_github(
    body: &[u8],
    headers: &[(String, String)],
    secret: &[u8],
    manifest: &CosaciToml,
    fallback: u128,
) -> (r: Result<Vec<JobSubmissionPayload>, HandleError>)
    ensures
        match github_event(body@, headers@, secret@) {
            Err(f) => r matches Err(e) && e@ == f,
            Ok(e) => builds(r, *manifest, e.0, e.1, fallback),
        },
{
    if secret.len() == 0 {
        return Err(
            HandleError::BadRequest(
                "github webhook delivered but --github-secret not configured".to_owned(),
            ),
        );
    }
    let sig = match header(headers, "x-hub-signature-256") {
        Some(s) => s,
        None => return Err(HandleError::BadSignature),
    };
    if verify_github_signature(body, sig.as_str(), secret).is_err() {
        return Err(HandleError::BadSignature);
    }
    let kind = match header(headers, "x-github-event") {
        Some(k) => k,
        None => return Err(HandleError::BadRequest("missing X-GitHub-Event".to_owned())),
    };
    match boundary::json::parse(body) {
        Err(e) => Err(HandleError::BadRequest(text::joined("invalid JSON body: ", e.as_str()))),
        Ok(event) => {
            let name = compose_event_name(kind.as_str(), &event);
            build_payloads(manifest, name.as_str(), &event, fallback)
        },
    }
}

/// Take a GitLab delivery.
///
/// # Errors
///
/// As for [`handle_github`], with the token in place of the signature.
pub fn handle_gitlab(
    body: &[u8],
    headers: &[(String, String)],
    token: &str,
    manifest: &CosaciToml,
    fallback: u128,
) -> (r: Result<Vec<JobSubmissionPayload>, HandleError>)
    ensures
        match gitlab_event(body@, headers@, token@) {
            Err(f) => r matches Err(e) && e@ == f,
            Ok(e) => builds(r, *manifest, e.0, e.1, fallback),
        },
{
    if token.is_empty() {
        return Err(
            HandleError::BadRequest(
                "gitlab webhook delivered but --gitlab-token not configured".to_owned(),
            ),
        );
    }
    let given = match header(headers, "x-gitlab-token") {
        Some(s) => s,
        None => return Err(HandleError::BadSignature),
    };
    if verify_gitlab_token(given.as_str(), token).is_err() {
        return Err(HandleError::BadSignature);
    }
    let kind = match header(headers, "x-gitlab-event") {
        Some(k) => k,
        None => return Err(HandleError::BadRequest("missing X-Gitlab-Event".to_owned())),
    };
    match boundary::json::parse(body) {
        Err(e) => Err(HandleError::BadRequest(text::joined("invalid JSON body: ", e.as_str()))),
        Ok(event) => {
            let name = compose_event_name(kind.as_str(), &event);
            build_payloads(manifest, name.as_str(), &event, fallback)
        },
    }
}

/// The line of a signed submission.
pub open spec fn submission_line(
    p: JobSubmissionPayload,
    pubkey: Seq<u8>,
    signature: Seq<u8>,
) -> Seq<char> {
    "{\"kind\":\""@ + p.kind@ + "\",\"a\":"@ + text::signed_decimal_of(p.a as int) + ",\"b\":"@
        + text::signed_decimal_of(p.b as int) + ",\"deadline_secs\":"@ + text::decimal_of(
        p.deadline_secs as nat,
    ) + ",\"tenant_id\":"@ + text::decimal_of(p.tenant_id as nat) + ",\"nonce\":"@
        + text::decimal_of(p.nonce as nat) + ",\"pubkey_hex\":\""@ + text::hex_of(pubkey)
        + "\",\"signature_hex\":\""@ + text::hex_of(signature) + "\"}"@
}

/// Sign a submission and write it as one line of JSON.
#[must_use]
pub fn sign_and_serialize(payload: &JobSubmissionPayload, kp: &Keypair) -> (r: String)
    ensures
        r@ == submission_line(
            *payload,
            boundary::ed25519::public_key_of(kp@),
            boundary::ed25519::signature_of(
                kp@,
                crate::submission_auth::signed_bytes(*payload),
            ),
        ),
{
    let signed = match canonical_bytes(payload) {
        Ok(b) => b,
        Err(_) => Vec::new(),
    };
    let sig = kp.sign(signed.as_slice()).to_bytes();
    let pk = kp.verifying_key().to_bytes();
    let mut s = "{\"kind\":\"".to_owned();
    text::append_str(&mut s, payload.kind.as_str());
    text::append_str(&mut s, "\",\"a\":");
    text::append_signed(&mut s, payload.a as i64);
    text::append_str(&mut s, ",\"b\":");
    text::append_signed(&mut s, payload.b as i64);
    text::append_str(&mut s, ",\"deadline_secs\":");
    text::append_decimal(&mut s, payload.deadline_secs as u64);
    text::append_str(&mut s, ",\"tenant_id\":");
    text::append_decimal(&mut s, payload.tenant_id);
    text::append_str(&mut s, ",\"nonce\":");
    text::append_decimal_wide(&mut s, payload.nonce);
    text::append_str(&mut s, ",\"pubkey_hex\":\"");
    text::append_hex(&mut s, pk.as_slice());
    text::append_str(&mut s, "\",\"signature_hex\":\"");
    text::append_hex(&mut s, sig.as_slice());
    text::append_str(&mut s, "\"}");
    s
}

/// The answer to a delivery: a status and a text. What went wrong inside is not
/// told.
pub open spec fn answer_of(r: Result<nat, Refusal>) -> (u16, Seq<char>) {
    match r {
        Ok(count) => (
            202u16,
            "accepted ("@ + text::decimal_of(count) + " submission(s))"@,
        ),
        Err(Refusal::BadSignature) => (401u16, "unauthorized"@),
        Err(Refusal::BadRequest(s)) => (400u16, s),
        Err(Refusal::Internal(_)) => (500u16, "internal error"@),
    }
}

/// The answer to a delivery that was taken, with the number of submissions, or
/// not.
#[must_use]
pub fn answer(r: Result<usize, HandleError>) -> (a: (u16, String))
    ensures
        ({
            let o = match r {
                Ok(n) => Ok::<nat, Refusal>(n as nat),
                Err(e) => Err(e@),
            };
            (a.0, a.1@) == answer_of(o)
        }),
{
    match r {
        Ok(n) => {
            let mut s = "accepted (".to_owned();
            text::append_decimal(&mut s, n as u64);
            text::append_str(&mut s, " submission(s))");
            (202, s)
        },
        Err(HandleError::BadSignature) => (401, "unauthorized".to_owned()),
        Err(HandleError::BadRequest(s)) => (400, s),
        Err(HandleError::Internal(_)) => (500, "internal error".to_owned()),
    }
}

// ── Laws ───────────────────────────────────────────────────────────────────
/// Nothing is submitted for a delivery that is not signed with the configured
/// secret, whatever else it holds.
pub proof fn law_unsigned_delivery_is_refused(
    body: Seq<u8>,
    headers: Seq<(String, String)>,
    secret: Seq<u8>,
)
    requires
        secret.len() > 0,
        !(header_of(headers, "x-hub-signature-256"@) matches Some(sig)
            && crate::webhook::signature::github_verdict(body, sig, secret) is Ok),
    ensures
        github_event(body, headers, secret) == Err::<(Seq<char>, JsonItem), Refusal>(
            Refusal::BadSignature,
        ),
        answer_of(Err(Refusal::BadSignature)) == (401u16, "unauthorized"@),
{
}

/// A listener without a secret takes no delivery.
pub proof fn law_unconfigured_provider_is_refused(body: Seq<u8>, headers: Seq<(String, String)>)
    ensures
        github_event(body, headers, Seq::empty()) is Err,
        gitlab_event(body, headers, Seq::empty()) is Err,
{
}

/// Redelivering the same event gives the same submissions, nonces included, where
/// the event names a commit or an id: the time of day plays no part.
pub proof fn law_redelivery_repeats_the_nonce(event: JsonItem, a: u128, b: u128)
    requires
        event_identity(event) is Some,
    ensures
        nonce_of(event, a) == nonce_of(event, b),
{
}

/// A header is looked up by name, in any case, and the first of that name counts.
pub proof fn law_first_header_counts(
    before: Seq<(String, String)>,
    header: (String, String),
    behind: Seq<(String, String)>,
    name: Seq<char>,
)
    requires
        forall|i: int|
            0 <= i < before.len() ==> !text::same_ignoring_case((#[trigger] before[i]).0@, name),
        text::same_ignoring_case(header.0@, name),
    ensures
        header_of(before, name) is None,
        header_of(before + seq![header] + behind, name) == Some(header.1@),
    decreases before.len(),
{
    let all = before + seq![header] + behind;
    if before.len() > 0 {
        let less = before.skip(1);
        assert forall|i: int| 0 <= i < less.len() implies !text::same_ignoring_case(
            (#[trigger] less[i]).0@,
            name,
        ) by {
            assert(less[i] == before[i + 1]);
        }
        law_first_header_counts(less, header, behind, name);
        assert(all.skip(1) =~= less + seq![header] + behind);
        assert(all[0] == before[0]);
        assert(!text::same_ignoring_case(before[0].0@, name));
    } else {
        assert(all[0] == header);
    }
}

/// The path of a request ends before the query.
pub proof fn law_query_is_cut_off(path: Seq<char>, query: Seq<char>)
    requires
        !path.contains('?'),
    ensures
        path_of(path) == path,
        path_of(path + seq!['?'] + query) == path,
{
    let url = path + seq!['?'] + query;
    text::lemma_before(path, '?');
    text::lemma_before(url, '?');
    let n = text::before(url, '?') as int;
    if n < path.len() {
        assert(url[n] == path[n]);
        assert(path.contains(path[n]));
    }
    if n > path.len() {
        assert(url[path.len() as int] == '?');
    }
    assert(path_of(url) =~= path);
    let m = text::before(path, '?') as int;
    if m < path.len() {
        assert(path.contains(path[m]));
    }
    assert(path_of(path) =~= path);
}

/// Blanks at the end of a secret's file are cut off, and nothing else is.
pub proof fn law_trailing_blanks_are_cut(v: Seq<u8>, blanks: Seq<u8>)
    requires
        forall|i: int|
            0 <= i < blanks.len() ==> (#[trigger] blanks[i] == 0x20 || blanks[i] == 0x09
                || blanks[i] == 0x0a || blanks[i] == 0x0d),
        v.len() > 0 ==> v.last() != 0x20 && v.last() != 0x09 && v.last() != 0x0a && v.last()
            != 0x0d,
    ensures
        without_trailing_blanks(v + blanks) == v,
    decreases blanks.len(),
{
    if blanks.len() > 0 {
        let less = blanks.drop_last();
        assert forall|i: int| 0 <= i < less.len() implies (#[trigger] less[i] == 0x20 || less[i]
            == 0x09 || less[i] == 0x0a || less[i] == 0x0d) by {
            assert(less[i] == blanks[i]);
        }
        law_trailing_blanks_are_cut(v, less);
        assert((v + blanks).drop_last() =~= v + less);
        assert((v + blanks).last() == blanks[blanks.len() - 1]);
    } else {
        assert(v + blanks =~= v);
    }
}

/// An event is named by its kind, and by its action where it has one, else by its
/// object kind where that is another word.
pub proof fn law_event_is_named_by_its_action(kind: Seq<char>, body: JsonItem)
    ensures
        json::member(body, "action"@) matches Some(JsonItem::Text(a)) ==> event_name_of(kind, body)
            == kind + "."@ + a,
        !(json::member(body, "action"@) matches Some(JsonItem::Text(_))) ==> {
            &&& json::member(body, "object_kind"@) matches Some(JsonItem::Text(o)) ==> (if o
                == kind {
                event_name_of(kind, body) == kind
            } else {
                event_name_of(kind, body) == kind + "."@ + o
            })
            &&& !(json::member(body, "object_kind"@) matches Some(JsonItem::Text(_)))
                ==> event_name_of(kind, body) == kind
        },
{
}

/// A delivery is taken exactly if its provider is set up, it is signed with the
/// secret, it names its kind, and its body is a document; and its event is then
/// that document.
pub proof fn law_delivery_needs_everything(
    body: Seq<u8>,
    headers: Seq<(String, String)>,
    secret: Seq<u8>,
    token: Seq<char>,
)
    ensures
        github_event(body, headers, secret) is Ok <==> {
            &&& secret.len() > 0
            &&& header_of(headers, "x-hub-signature-256"@) is Some
            &&& crate::webhook::signature::github_verdict(
                body,
                header_of(headers, "x-hub-signature-256"@)->0,
                secret,
            ) is Ok
            &&& header_of(headers, "x-github-event"@) is Some
            &&& boundary::json::json_of(body) is Ok
        },
        gitlab_event(body, headers, token) is Ok <==> {
            &&& token.len() > 0
            &&& header_of(headers, "x-gitlab-token"@) == Some(token)
            &&& header_of(headers, "x-gitlab-event"@) is Some
            &&& boundary::json::json_of(body) is Ok
        },
        github_event(body, headers, secret) matches Ok((name, event)) ==> {
            &&& boundary::json::json_of(body) == Ok::<JsonItem, Seq<char>>(event)
            &&& name == event_name_of(header_of(headers, "x-github-event"@)->0, event)
        },
        gitlab_event(body, headers, token) matches Ok((name, event)) ==> {
            &&& boundary::json::json_of(body) == Ok::<JsonItem, Seq<char>>(event)
            &&& name == event_name_of(header_of(headers, "x-gitlab-event"@)->0, event)
        },
{
}

/// The first module of a pipeline makes its submission: a step that runs none is
/// passed over.
pub proof fn law_first_module_is_submitted(
    before: Seq<translate::StepFact>,
    step: translate::StepFact,
    behind: Seq<translate::StepFact>,
)
    requires
        forall|i: int| 0 <= i < before.len() ==> !((#[trigger] before[i]) is ExecWasm),
    ensures
        first_canned(before) is None,
        step matches translate::StepFact::ExecWasm { wasm_path, args_cbor_hex } ==> {
            let canned = first_canned(before + seq![step] + behind);
            &&& canned matches Some(c)
            &&& c.0 == if text::holds(wasm_path, "mul"@) {
                "mul"@
            } else {
                "add"@
            }
            &&& hex_arguments(args_cbor_hex) matches Some(p) ==> c.1 == p.0 && c.2 == p.1
            &&& hex_arguments(args_cbor_hex) is None ==> c.1 == 0 && c.2 == 0
        },
    decreases before.len(),
{
    let all = before + seq![step] + behind;
    if before.len() > 0 {
        let less = before.skip(1);
        assert forall|i: int| 0 <= i < less.len() implies !((#[trigger] less[i]) is ExecWasm) by {
            assert(less[i] == before[i + 1]);
        }
        law_first_module_is_submitted(less, step, behind);
        assert(all.skip(1) =~= less + seq![step] + behind);
        assert(all[0] == before[0]);
        assert(!(before[0] is ExecWasm));
    } else {
        assert(all[0] == step);
    }
}

/// The nonce of an event is made of its commit, or of what stands for it: the first
/// sixteen bytes of the first of the four names that the event has.
pub proof fn law_nonce_is_made_of_the_commit(event: JsonItem, fallback: u128)
    ensures
        translate::path_value(event, "head_commit.id"@) matches Some(JsonItem::Text(s))
            ==> nonce_of(event, fallback) == folded(s),
        !(translate::path_value(event, "head_commit.id"@) matches Some(JsonItem::Text(_))) && (
        translate::path_value(event, "pull_request.head.sha"@) is Some) && (translate::path_value(
            event,
            "pull_request.head.sha"@,
        )->0 is Text) ==> nonce_of(event, fallback) == folded(
            translate::path_value(event, "pull_request.head.sha"@)->0->Text_0,
        ),
        event_identity(event) is None ==> nonce_of(event, fallback) == fallback,
        nonce_of(event, fallback) <= u128::MAX,
{
    if let Some(s) = event_identity(event) {
        let b = vstd::utf8::encode_utf8(s);
        let head = if b.len() <= 16 {
            b
        } else {
            b.take(16)
        };
        lemma_folded_fits(head);
    }
}

proof fn lemma_folded_fits(head: Seq<u8>)
    requires
        head.len() <= 16,
    ensures
        bytes::le_value(head) <= u128::MAX,
{
    reveal_with_fuel(bytes::le_value, 17);
}

/// Names that differ within their first sixteen bytes make different nonces.
pub proof fn law_different_commits_have_different_nonces(s: Seq<char>, t: Seq<char>)
    requires
        vstd::utf8::encode_utf8(s).len() >= 16,
        vstd::utf8::encode_utf8(t).len() >= 16,
        folded(s) == folded(t),
    ensures
        vstd::utf8::encode_utf8(s).take(16) == vstd::utf8::encode_utf8(t).take(16),
{
    let (a, b) = (vstd::utf8::encode_utf8(s), vstd::utf8::encode_utf8(t));
    assert(a.take(16) =~= if a.len() <= 16 { a } else { a.take(16) });
    assert(b.take(16) =~= if b.len() <= 16 { b } else { b.take(16) });
    bytes::lemma_le_value_tells_apart(a.take(16), b.take(16));
}

/// What is answered: accepted with the number of submissions, or refused by who is
/// at fault. An internal fault is not told.
pub proof fn law_answer_names_who_is_at_fault(count: nat, reason: Seq<char>)
    ensures
        answer_of(Ok(count)).0 == 202,
        answer_of(Ok(count)).1 == "accepted ("@ + text::decimal_of(count) + " submission(s))"@,
        answer_of(Err(Refusal::BadSignature)) == (401u16, "unauthorized"@),
        answer_of(Err(Refusal::BadRequest(reason))) == (400u16, reason),
        answer_of(Err(Refusal::Internal(reason))) == (500u16, "internal error"@),
{
}

proof fn lemma_plain_part(head: Seq<char>, value: Seq<char>, tail: Seq<char>)
    requires
        !head.contains(','),
        !value.contains(','),
        !tail.contains(','),
    ensures
        !(head + value + tail).contains(','),
{
    let all = head + value + tail;
    if all.contains(',') {
        let i = choose|i: int| 0 <= i < all.len() && all[i] == ',';
        if i < head.len() {
            assert(head[i] == ',');
        } else if i < head.len() + value.len() {
            assert(value[i - head.len()] == ',');
        } else {
            assert(tail[i - head.len() - value.len()] == ',');
        }
    }
}

proof fn lemma_numbers_are_plain(n: nat, i: int, b: Seq<u8>)
    ensures
        !text::decimal_of(n).contains(','),
        !text::signed_decimal_of(i).contains(','),
        !text::hex_of(b).contains(','),
{
    text::lemma_decimal_is_plain(n);
    text::lemma_decimal_is_plain(
        (if i < 0 {
            -i
        } else {
            i
        }) as nat,
    );
}

/// A submission's line reads, part by part, as what is submitted: the kind, the two
/// numbers, the deadline, the tenant, the nonce, the key and the signature.
pub proof fn law_line_tells_the_submission(
    p: JobSubmissionPayload,
    pubkey: Seq<u8>,
    signature: Seq<u8>,
)
    requires
        !p.kind@.contains(','),
    ensures
        text::split_of(submission_line(p, pubkey, signature), ',') == seq![
            "{\"kind\":\""@ + p.kind@ + "\""@,
            "\"a\":"@ + text::signed_decimal_of(p.a as int),
            "\"b\":"@ + text::signed_decimal_of(p.b as int),
            "\"deadline_secs\":"@ + text::decimal_of(p.deadline_secs as nat),
            "\"tenant_id\":"@ + text::decimal_of(p.tenant_id as nat),
            "\"nonce\":"@ + text::decimal_of(p.nonce as nat),
            "\"pubkey_hex\":\""@ + text::hex_of(pubkey) + "\""@,
            "\"signature_hex\":\""@ + text::hex_of(signature) + "\"}"@,
        ],
{
    reveal_strlit("{\"kind\":\"");
    reveal_strlit("\"");
    reveal_strlit("\"a\":");
    reveal_strlit("\"b\":");
    reveal_strlit("\"deadline_secs\":");
    reveal_strlit("\"tenant_id\":");
    reveal_strlit("\"nonce\":");
    reveal_strlit("\"pubkey_hex\":\"");
    reveal_strlit("\"signature_hex\":\"");
    reveal_strlit("\"}");
    reveal_strlit("\",\"a\":");
    reveal_strlit(",\"b\":");
    reveal_strlit(",\"deadline_secs\":");
    reveal_strlit(",\"tenant_id\":");
    reveal_strlit(",\"nonce\":");
    reveal_strlit(",\"pubkey_hex\":\"");
    reveal_strlit("\",\"signature_hex\":\"");
    let comma = seq![','];
    let none = Seq::<char>::empty();
    let (a, b) = (text::signed_decimal_of(p.a as int), text::signed_decimal_of(p.b as int));
    let (d, t, n) = (
        text::decimal_of(p.deadline_secs as nat),
        text::decimal_of(p.tenant_id as nat),
        text::decimal_of(p.nonce as nat),
    );
    let (k, s) = (text::hex_of(pubkey), text::hex_of(signature));
    lemma_numbers_are_plain(p.deadline_secs as nat, p.a as int, pubkey);
    lemma_numbers_are_plain(p.tenant_id as nat, p.b as int, signature);
    lemma_numbers_are_plain(p.nonce as nat, 0, signature);
    let x0 = "{\"kind\":\""@ + p.kind@ + "\""@;
    let x1 = "\"a\":"@ + a;
    let x2 = "\"b\":"@ + b;
    let x3 = "\"deadline_secs\":"@ + d;
    let x4 = "\"tenant_id\":"@ + t;
    let x5 = "\"nonce\":"@ + n;
    let x6 = "\"pubkey_hex\":\""@ + k + "\""@;
    let x7 = "\"signature_hex\":\""@ + s + "\"}"@;
    lemma_plain_part("{\"kind\":\""@, p.kind@, "\""@);
    lemma_plain_part("\"a\":"@, a, none);
    lemma_plain_part("\"b\":"@, b, none);
    lemma_plain_part("\"deadline_secs\":"@, d, none);
    lemma_plain_part("\"tenant_id\":"@, t, none);
    lemma_plain_part("\"nonce\":"@, n, none);
    lemma_plain_part("\"pubkey_hex\":\""@, k, "\""@);
    lemma_plain_part("\"signature_hex\":\""@, s, "\"}"@);
    assert(x1 + none =~= x1 && x2 + none =~= x2 && x3 + none =~= x3);
    assert(x4 + none =~= x4 && x5 + none =~= x5);
    let t6 = x6 + comma + x7;
    let t5 = x5 + comma + t6;
    let t4 = x4 + comma + t5;
    let t3 = x3 + comma + t4;
    let t2 = x2 + comma + t3;
    let t1 = x1 + comma + t2;
    let t0 = x0 + comma + t1;
    text::law_split_at_the_first(x7, ',', none);
    text::law_split_at_the_first(x6, ',', x7);
    text::law_split_at_the_first(x5, ',', t6);
    text::law_split_at_the_first(x4, ',', t5);
    text::law_split_at_the_first(x3, ',', t4);
    text::law_split_at_the_first(x2, ',', t3);
    text::law_split_at_the_first(x1, ',', t2);
    text::law_split_at_the_first(x0, ',', t1);
    let p1 = "{\"kind\":\""@ + p.kind@ + "\",\"a\":"@ + a;
    let p2 = p1 + ",\"b\":"@ + b;
    let p3 = p2 + ",\"deadline_secs\":"@ + d;
    let p4 = p3 + ",\"tenant_id\":"@ + t;
    let p5 = p4 + ",\"nonce\":"@ + n;
    let line = submission_line(p, pubkey, signature);
    assert("\",\"a\":"@ =~= "\""@ + comma + "\"a\":"@);
    assert(",\"b\":"@ =~= comma + "\"b\":"@);
    assert(",\"deadline_secs\":"@ =~= comma + "\"deadline_secs\":"@);
    assert(",\"tenant_id\":"@ =~= comma + "\"tenant_id\":"@);
    assert(",\"nonce\":"@ =~= comma + "\"nonce\":"@);
    assert(",\"pubkey_hex\":\""@ =~= comma + "\"pubkey_hex\":\""@);
    assert("\",\"signature_hex\":\""@ =~= "\""@ + comma + "\"signature_hex\":\""@);
    lemma_line_tail(p5, k, s, line);
    lemma_regroup(p4, comma, "\"nonce\":"@, n, comma + t6);
    lemma_regroup(p3, comma, "\"tenant_id\":"@, t, comma + t5);
    lemma_regroup(p2, comma, "\"deadline_secs\":"@, d, comma + t4);
    lemma_regroup(p1, comma, "\"b\":"@, b, comma + t3);
    assert(t5 =~= x5 + (comma + t6));
    assert(t4 =~= x4 + (comma + t5));
    assert(t3 =~= x3 + (comma + t4));
    assert(t2 =~= x2 + (comma + t3));
    assert(line == p1 + (comma + t2));
    lemma_line_head(p.kind@, a, comma + t2);
    assert(t1 =~= x1 + (comma + t2));
    assert(t0 =~= x0 + (comma + t1));
    assert(line == t0);
    assert(text::split_of(t0, ',') =~= seq![x0, x1, x2, x3, x4, x5, x6, x7]);
}

proof fn lemma_regroup(p: Seq<char>, comma: Seq<char>, name: Seq<char>, v: Seq<char>, tail: Seq<char>)
    ensures
        p + (comma + name) + v + tail == p + (comma + (name + v + tail)),
{
    assert(p + (comma + name) + v + tail =~= p + (comma + (name + v + tail)));
}

proof fn lemma_line_tail(p: Seq<char>, k: Seq<char>, s: Seq<char>, line: Seq<char>)
    requires
        line == p + ",\"pubkey_hex\":\""@ + k + "\",\"signature_hex\":\""@ + s + "\"}"@,
        ",\"pubkey_hex\":\""@ == seq![','] + "\"pubkey_hex\":\""@,
        "\",\"signature_hex\":\""@ == "\""@ + seq![','] + "\"signature_hex\":\""@,
    ensures
        line == p + (seq![','] + ("\"pubkey_hex\":\""@ + k + "\""@ + seq![','] + (
        "\"signature_hex\":\""@ + s + "\"}"@))),
{
    let (x, y, q, e) = (
        "\"pubkey_hex\":\""@,
        "\"signature_hex\":\""@,
        "\""@,
        "\"}"@,
    );
    let c = seq![','];
    assert(p + (c + x) + k + (q + c + y) + s + e =~= p + (c + (x + k + q + c + (y + s + e))));
}

proof fn lemma_line_head(kind: Seq<char>, a: Seq<char>, tail: Seq<char>)
    requires
        "\",\"a\":"@ == "\""@ + seq![','] + "\"a\":"@,
    ensures
        "{\"kind\":\""@ + kind + "\",\"a\":"@ + a + tail == "{\"kind\":\""@ + kind + "\""@ + (
        seq![','] + ("\"a\":"@ + a + tail)),
{
    let (x, q, y) = ("{\"kind\":\""@, "\""@, "\"a\":"@);
    let c = seq![','];
    assert(x + kind + (q + c + y) + a + tail =~= x + kind + q + (c + (y + a + tail)));
}

/// Every pipeline that an event triggers is submitted, in order: for the manifest's
/// tenant, with a minute's deadline, and with a nonce of its own.
pub proof fn law_every_pipeline_is_submitted(
    r: Result<Vec<JobSubmissionPayload>, HandleError>,
    manifest: CosaciToml,
    event_name: Seq<char>,
    event: JsonItem,
    fallback: u128,
    i: int,
    j: int,
)
    requires
        builds(r, manifest, event_name, event, fallback),
    ensures
        r is Ok <==> translate::translated(manifest.pipelines@, event_name, event) is Ok,
        r is Err ==> r->Err_0 is Internal,
        r matches Ok(v) ==> {
            let pipelines = translate::translated(manifest.pipelines@, event_name, event)->Ok_0;
            &&& v@.len() == pipelines.len()
            &&& 0 <= i < v@.len() ==> {
                &&& v@[i].tenant_id == manifest.tenant.id
                &&& v@[i].deadline_secs == 60
                &&& v@[i].nonce == (nonce_of(event, fallback) + i) % (u128::MAX + 1)
                &&& first_canned(pipelines[i].steps) matches Some(c) ==> v@[i].kind@ == c.0
                    && v@[i].a == c.1 && v@[i].b == c.2
                &&& first_canned(pipelines[i].steps) is None ==> v@[i].kind@ == "add"@ && v@[i].a
                    == 0 && v@[i].b == 0
            }
            &&& 0 <= i < j < v@.len() && v@.len() <= u128::MAX ==> v@[i].nonce != v@[j].nonce
        },
{
    if let Ok(v) = r {
        let pipelines = translate::translated(manifest.pipelines@, event_name, event)->Ok_0;
        let nonce = nonce_of(event, fallback);
        if 0 <= i < v@.len() {
            assert(submits(v@[i], manifest.tenant.id, pipelines[i], nonce + i));
        }
        if 0 <= i < j < v@.len() && v@.len() <= u128::MAX {
            assert(submits(v@[j], manifest.tenant.id, pipelines[j], nonce + j));
            lemma_nonces_differ(nonce as int, i, j);
        }
    }
}

proof fn lemma_nonces_differ(nonce: int, i: int, j: int)
    requires
        0 <= i < j <= u128::MAX,
    ensures
        (nonce + i) % (u128::MAX + 1) != (nonce + j) % (u128::MAX + 1),
{
    let m: int = u128::MAX + 1;
    if (nonce + i) % m == (nonce + j) % m {
        vstd::arithmetic::div_mod::lemma_mod_equivalence(nonce + j, nonce + i, m);
        assert((j - i) % m == 0);
        vstd::arithmetic::div_mod::lemma_small_mod((j - i) as nat, m as nat);
    }
}

/// A delivery is refused for the first thing that is missing: the provider's set
/// up, the signature, the kind, the document.
pub proof fn law_delivery_is_refused_for_the_first_fault(
    body: Seq<u8>,
    headers: Seq<(String, String)>,
    secret: Seq<u8>,
    token: Seq<char>,
)
    ensures
        ({
            let r = github_event(body, headers, secret);
            let signed = header_of(headers, "x-hub-signature-256"@) matches Some(sig)
                && crate::webhook::signature::github_verdict(body, sig, secret) is Ok;
            let named = header_of(headers, "x-github-event"@) is Some;
            &&& secret.len() == 0 ==> r == Err::<(Seq<char>, JsonItem), Refusal>(
                Refusal::BadRequest(
                    "github webhook delivered but --github-secret not configured"@,
                ),
            )
            &&& r == Err::<(Seq<char>, JsonItem), Refusal>(Refusal::BadSignature) <==> secret.len()
                > 0 && !signed
            &&& secret.len() > 0 && signed && !named ==> r == Err::<(Seq<char>, JsonItem), Refusal>(
                Refusal::BadRequest("missing X-GitHub-Event"@),
            )
            &&& secret.len() > 0 && signed && named ==> (boundary::json::json_of(body) matches Err(e)
                ==> r == Err::<(Seq<char>, JsonItem), Refusal>(
                Refusal::BadRequest("invalid JSON body: "@ + e),
            ))
        }),
        ({
            let r = gitlab_event(body, headers, token);
            let signed = header_of(headers, "x-gitlab-token"@) == Some(token);
            let named = header_of(headers, "x-gitlab-event"@) is Some;
            &&& token.len() == 0 ==> r == Err::<(Seq<char>, JsonItem), Refusal>(
                Refusal::BadRequest("gitlab webhook delivered but --gitlab-token not configured"@),
            )
            &&& r == Err::<(Seq<char>, JsonItem), Refusal>(Refusal::BadSignature) <==> token.len()
                > 0 && !signed
            &&& token.len() > 0 && signed && !named ==> r == Err::<(Seq<char>, JsonItem), Refusal>(
                Refusal::BadRequest("missing X-Gitlab-Event"@),
            )
            &&& token.len() > 0 && signed && named ==> (boundary::json::json_of(body) matches Err(e)
                ==> r == Err::<(Seq<char>, JsonItem), Refusal>(
                Refusal::BadRequest("invalid JSON body: "@ + e),
            ))
        }),
{
}

} // verus!
