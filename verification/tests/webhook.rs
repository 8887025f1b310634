use cosaci::json::{text, Json, Members};
use cosaci::signing::{verify, Keypair, Signature, VerifyingKey};
use cosaci::submission_auth::{canonical_bytes, JobSubmissionPayload};
use cosaci::webhook::listener::{
    answer, build_payloads, compose_event_name, decode_args_cbor_hex, handle_github, handle_gitlab,
    github_secret, gitlab_token, header, listener_config, manifest_for, nonce_seed, route,
    sign_and_serialize, tenant_keypair, trim_end_inplace, ConfigError, ManifestRefusal,
    HandleError, Route,
};
use cosaci::webhook::manifest::{
    emit_manifest, parse_manifest, CosaciToml, ManifestError, PipelineSection, StepSection,
    TenantSection,
};
use cosaci::webhook::signature::{
    is_fresh, verify_github_signature, verify_gitlab_token, SignatureError,
};
use cosaci::webhook::translate::{resolve_template, translate, ResolvedStep, TranslateError};

const SECRET: &[u8] = b"It's a Secret to Everybody";
const GOOD: &str = "sha256=757107ea0eb2509fc211221cce984b8a37570b6d7586c22c46f4379c8b043e17";

#[test]
fn the_published_delivery_verifies() {
    assert_eq!(verify_github_signature(b"Hello, World!", GOOD, SECRET), Ok(()));
    assert_eq!(
        verify_github_signature(b"Hello, World?", GOOD, SECRET),
        Err(SignatureError::BadSignature)
    );
    assert_eq!(
        verify_github_signature(b"Hello, World!", GOOD, b"other"),
        Err(SignatureError::BadSignature)
    );
    assert_eq!(
        verify_github_signature(b"Hello, World!", &GOOD[7..], SECRET),
        Err(SignatureError::Malformed)
    );
    assert_eq!(
        verify_github_signature(b"Hello, World!", "sha256=zz", SECRET),
        Err(SignatureError::Malformed)
    );
}

#[test]
fn a_gitlab_token_has_to_match() {
    assert_eq!(verify_gitlab_token("tok", "tok"), Ok(()));
    assert_eq!(verify_gitlab_token("tok", "tik"), Err(SignatureError::BadSignature));
    assert_eq!(verify_gitlab_token("to", "tok"), Err(SignatureError::BadSignature));
}

#[test]
fn freshness_has_a_window() {
    assert!(is_fresh(100, 110, 10));
    assert!(is_fresh(110, 100, 10));
    assert!(!is_fresh(100, 111, 10));
}

const MANIFEST: &str = r#"
[tenant]
id = 42

[[pipeline]]
name = "ci"
on = ["push", "pull_request.synchronize"]

  [[pipeline.step]]
  type = "source-fetch"
  url = "{{ event.repository.clone_url }}"
  reference = "{{event.after}}"

  [[pipeline.step]]
  type = "exec-wasm"
  module_path = "mul.wasm"
  args_cbor_hex = "820305"
"#;

fn manifest() -> CosaciToml {
    CosaciToml {
        tenant: TenantSection { id: 42 },
        pipelines: vec![PipelineSection {
            name: "ci".into(),
            on_events: vec!["push".into(), "pull_request.synchronize".into()],
            steps: vec![
                StepSection::SourceFetch {
                    url: "{{ event.repository.clone_url }}".into(),
                    reference: "{{event.after}}".into(),
                },
                StepSection::ExecWasm {
                    wasm_path: "mul.wasm".into(),
                    args_cbor_hex: "820305".into(),
                },
            ],
        }],
    }
}

#[test]
fn a_manifest_is_parsed() {
    assert_eq!(parse_manifest(MANIFEST), Ok(manifest()));
}

#[test]
fn a_manifest_round_trips() {
    let emitted = emit_manifest(&manifest()).expect("emit");
    assert_eq!(parse_manifest(&emitted), Ok(manifest()));
    assert_eq!(
        emitted,
        r#"[tenant]
id = 42

[[pipeline]]
name = "ci"
on = ["push", "pull_request.synchronize"]

[[pipeline.step]]
type = "source-fetch"
url = "{{ event.repository.clone_url }}"
reference = "{{event.after}}"

[[pipeline.step]]
type = "exec-wasm"
module_path = "mul.wasm"
args_cbor_hex = "820305"
"#
    );
    let bare = CosaciToml { tenant: TenantSection { id: 7 }, pipelines: vec![] };
    let emitted = emit_manifest(&bare).expect("emit");
    assert_eq!(emitted, "pipeline = []\n\n[tenant]\nid = 7\n");
    assert_eq!(parse_manifest(&emitted), Ok(bare));
}

#[test]
fn tables_that_a_manifest_does_not_have_are_ignored() {
    let bare = |id: u64| CosaciToml { tenant: TenantSection { id }, pipelines: vec![] };
    let dated = "[tenant]\nid = 7\n[other]\n\"$__toml_private_datetime\" = \"x\"\n";
    assert_eq!(parse_manifest(dated), Ok(bare(7)));
    assert_eq!(parse_manifest("when = 1979-05-27\n[tenant]\nid = 0x10\n"), Ok(bare(16)));
    assert_eq!(parse_manifest("[tenant]\nid = 18446744073709551615\n"), Ok(bare(u64::MAX)));
    assert!(matches!(
        parse_manifest("[tenant]\nid = 18446744073709551616\n"),
        Err(ManifestError::Schema(_))
    ));
}

#[test]
fn bad_manifests_are_refused() {
    assert!(matches!(parse_manifest("= ="), Err(ManifestError::Toml(_))));
    assert!(matches!(parse_manifest(""), Err(ManifestError::Schema(_))));
    let unknown = MANIFEST.replace("exec-wasm", "exec-docker");
    assert_eq!(
        parse_manifest(&unknown),
        Err(ManifestError::Schema(
            "unknown variant `exec-docker`, expected `source-fetch` or `exec-wasm`".into()
        ))
    );
    assert_eq!(
        parse_manifest(&MANIFEST.replace("name = \"ci\"", "")),
        Err(ManifestError::Schema("invalid `pipeline`".into()))
    );
    assert_eq!(
        parse_manifest("[[pipeline]]\nname = \"ci\"\n"),
        Err(ManifestError::Schema("missing or invalid `tenant.id`".into()))
    );
}

#[test]
fn sections_may_be_arrays() {
    assert_eq!(
        parse_manifest("tenant = [42, 1]\npipeline = []\n"),
        Ok(CosaciToml { tenant: TenantSection { id: 42 }, pipelines: vec![] })
    );
    let mut want = manifest();
    let short = PipelineSection { name: "x".into(), on_events: vec![], steps: vec![] };
    want.pipelines.push(short);
    let listed = r#"tenant = [42]
pipeline = [
  ["ci", ["push", "pull_request.synchronize"], [
    ["source-fetch", "{{ event.repository.clone_url }}", "{{event.after}}"],
    ["exec-wasm", "mul.wasm", "820305"],
  ], "more"],
  ["x"],
]
"#;
    assert_eq!(parse_manifest(listed), Ok(want));
    assert!(parse_manifest(&listed.replace("\"820305\"", "\"820305\", 1")).is_err());
    assert!(parse_manifest(&listed.replace(", \"820305\"", "")).is_err());
    assert!(parse_manifest("tenant = []\n").is_err());
    assert_eq!(
        parse_manifest(&listed.replace("exec-wasm", "exec-docker")),
        Err(ManifestError::Schema(
            "unknown variant `exec-docker`, expected `source-fetch` or `exec-wasm`".into()
        ))
    );
}

#[test]
fn a_number_without_a_value_is_refused() {
    let wide = "1".repeat(30);
    let beyond = "1".repeat(60);
    let with = |n: &str| parse_manifest(&format!("other = {n}\n{MANIFEST}"));
    assert_eq!(with(&wide), Ok(manifest()));
    assert!(matches!(with(&beyond), Err(ManifestError::Toml(_))));
    assert!(matches!(with("1e999"), Err(ManifestError::Toml(_))));
    assert_eq!(with("inf"), Ok(manifest()));
    let in_step = |n: &str| parse_manifest(&format!("{MANIFEST}  other = [{n}]\n"));
    assert_eq!(in_step("18446744073709551615"), Ok(manifest()));
    assert!(matches!(in_step("18446744073709551616"), Err(ManifestError::Schema(_))));
    assert!(matches!(in_step(&wide), Err(ManifestError::Schema(_))));
}

fn event() -> Json {
    Members::new()
        .with("after", text("abc123"))
        .with(
            "repository",
            Members::new().with("clone_url", text("https://x/y.git")).done(),
        )
        .done()
}

#[test]
fn templates_are_resolved() {
    assert_eq!(resolve_template("plain", &event()), Ok("plain".into()));
    assert_eq!(
        resolve_template("{{ event.repository.clone_url }}", &event()),
        Ok("https://x/y.git".into())
    );
    assert!(matches!(
        resolve_template("{{ event.nope }}", &event()),
        Err(TranslateError::PlaceholderUnresolved { .. })
    ));
    assert!(matches!(
        resolve_template("{{ env.HOME }}", &event()),
        Err(TranslateError::UnsupportedNamespace(_))
    ));
}

#[test]
fn an_event_picks_its_pipelines() {
    let resolved = translate(&manifest(), "push", &event()).expect("translate");
    assert_eq!(resolved.len(), 1);
    assert_eq!(
        resolved[0].steps[0],
        ResolvedStep::SourceFetch { url: "https://x/y.git".into(), reference: "abc123".into() }
    );
    assert!(translate(&manifest(), "release", &event()).expect("translate").is_empty());
    let mut bent = manifest();
    bent.pipelines[0].steps[1] = StepSection::ExecWasm {
        wasm_path: "{{ event.after }}".into(),
        args_cbor_hex: "".into(),
    };
    assert!(matches!(
        translate(&bent, "push", &event()),
        Err(TranslateError::PlaceholderInLiteralField { .. })
    ));
}

#[test]
fn payloads_follow_the_first_module() {
    let p = build_payloads(&manifest(), "push", &event(), 7).expect("payloads");
    assert_eq!(
        p,
        vec![JobSubmissionPayload {
            tenant_id: 42,
            kind: "mul".into(),
            a: 3,
            b: 5,
            deadline_secs: 60,
            nonce: 7,
        }]
    );
    assert_eq!(decode_args_cbor_hex("820305"), Some((3, 5)));
    assert_eq!(decode_args_cbor_hex("8203"), None);
    assert_eq!(decode_args_cbor_hex("82030"), None);
}

#[test]
fn a_redelivery_repeats_its_nonce() {
    let e = Members::new().with("checkout_sha", text("AB")).done();
    assert_eq!(nonce_seed(&e, 9), 0x4241);
    assert_eq!(nonce_seed(&event(), 9), 9);
    let long = Members::new().with("id", text("0123456789abcdefXYZ")).done();
    assert_eq!(nonce_seed(&long, 9), u128::from_le_bytes(*b"0123456789abcdef"));
}

#[test]
fn event_names_carry_the_action() {
    let with = Members::new().with("action", text("opened")).done();
    assert_eq!(compose_event_name("pull_request", &with), "pull_request.opened");
    let kind = Members::new().with("object_kind", text("push")).done();
    assert_eq!(compose_event_name("push", &kind), "push");
    assert_eq!(compose_event_name("Push Hook", &kind), "Push Hook.push");
    assert_eq!(compose_event_name("push", &event()), "push");
}

fn headers(list: &[(&str, &str)]) -> Vec<(String, String)> {
    list.iter().map(|(k, v)| (k.to_string(), v.to_string())).collect()
}

#[test]
fn a_github_delivery_is_checked_in_order() {
    let body = b"Hello, World!";
    let m = manifest();
    assert_eq!(
        handle_github(body, &headers(&[]), b"", &m, 0),
        Err(HandleError::BadRequest(
            "github webhook delivered but --github-secret not configured".into()
        ))
    );
    assert_eq!(handle_github(body, &headers(&[]), SECRET, &m, 0), Err(HandleError::BadSignature));
    let h = headers(&[("x-hub-signature-256", GOOD)]);
    assert_eq!(
        handle_github(body, &h, SECRET, &m, 0),
        Err(HandleError::BadRequest("missing X-GitHub-Event".into()))
    );
    let h = headers(&[("X-Hub-Signature-256", GOOD), ("X-GitHub-Event", "push")]);
    match handle_github(body, &h, SECRET, &m, 0) {
        Err(HandleError::BadRequest(s)) => assert!(s.starts_with("invalid JSON body: ")),
        other => panic!("{other:?}"),
    }
}

#[test]
fn a_gitlab_delivery_becomes_submissions() {
    let body = br#"{"after":"abc","repository":{"clone_url":"u"},"checkout_sha":"AB"}"#;
    let h = headers(&[("X-Gitlab-Token", "tok"), ("X-Gitlab-Event", "push")]);
    let p = handle_gitlab(body, &h, "tok", &manifest(), 0).expect("payloads");
    assert_eq!(p.len(), 1);
    assert_eq!(p[0].nonce, 0x4241);
    assert_eq!(
        handle_gitlab(body, &h, "other", &manifest(), 0),
        Err(HandleError::BadSignature)
    );
    assert_eq!(
        handle_gitlab(br#"{"after":"abc"}"#, &h, "tok", &manifest(), 0)
            .map_err(|e| matches!(e, HandleError::Internal(_))),
        Err(true)
    );
}

#[test]
fn a_submission_line_is_signed() {
    let kp = Keypair::from_seed([4; 32]);
    let p = JobSubmissionPayload {
        tenant_id: 1,
        kind: "add".into(),
        a: -1,
        b: 2,
        deadline_secs: 60,
        nonce: u128::MAX,
    };
    let line = sign_and_serialize(&p, &kp);
    let pk = cosaci::text::hex(&kp.verifying_key().to_bytes());
    let start = format!(
        "{{\"kind\":\"add\",\"a\":-1,\"b\":2,\"deadline_secs\":60,\"tenant_id\":1,\"nonce\":{},\"pubkey_hex\":\"{pk}\",\"signature_hex\":\"",
        u128::MAX
    );
    assert!(line.starts_with(&start));
    let sig = cosaci::coordinator::submission::parse_hex64(&line[start.len()..start.len() + 128])
        .expect("signature");
    let key = VerifyingKey::from_bytes(&kp.verifying_key().to_bytes()).expect("key");
    let signed = canonical_bytes(&p).expect("bytes");
    assert!(verify(&key, &signed, &Signature::from_bytes(&sig)).is_ok());
}

#[test]
fn answers_do_not_tell_what_went_wrong_inside() {
    assert_eq!(answer(Ok(2)), (202, "accepted (2 submission(s))".to_string()));
    assert_eq!(answer(Err(HandleError::BadSignature)), (401, "unauthorized".to_string()));
    assert_eq!(answer(Err(HandleError::BadRequest("x".into()))), (400, "x".to_string()));
    assert_eq!(
        answer(Err(HandleError::Internal("secret".into()))),
        (500, "internal error".to_string())
    );
}

#[test]
fn requests_are_routed() {
    assert_eq!(route("POST", "/webhook/github"), Route::Github);
    assert_eq!(route("POST", "/webhook/gitlab?x=1"), Route::Gitlab);
    assert_eq!(route("GET", "/webhook/github"), Route::MethodNotAllowed);
    assert_eq!(route("POST", "/"), Route::NotFound);
    assert_eq!(header(&headers(&[("A", "1"), ("a", "2")]), "a"), Some("1".to_string()));
    assert_eq!(trim_end_inplace(b"a b \r\n\t".to_vec()), b"a b".to_vec());
}

#[test]
fn a_configuration_needs_its_parts() {
    let args = |list: &[&str]| -> Vec<String> { list.iter().map(|s| s.to_string()).collect() };
    assert_eq!(
        listener_config(&args(&["--tenant-id", "x"])),
        Err(ConfigError::TenantIdNotNumber)
    );
    assert_eq!(listener_config(&args(&[])), Err(ConfigError::TenantIdMissing));
    assert_eq!(
        listener_config(&args(&["--tenant-id", "1"])),
        Err(ConfigError::TenantKeyMissing)
    );
    assert_eq!(
        listener_config(&args(&["--tenant-id", "1", "--tenant-key", "k"])),
        Err(ConfigError::ManifestMissing)
    );
    assert_eq!(
        listener_config(&args(&["--tenant-id", "1", "--tenant-key", "k", "--manifest", "m"])),
        Err(ConfigError::NoProvider)
    );
    let c = listener_config(&args(&[
        "--tenant-id",
        "1",
        "--tenant-key",
        "k",
        "--manifest",
        "m",
        "--gitlab-token",
        "t",
    ]))
    .expect("config");
    assert_eq!(c.addr, "127.0.0.1:8080");
    assert_eq!(c.tenant_id, 1);
}

#[test]
fn the_files_of_a_configuration_are_looked_at() {
    let seed: Vec<u8> = (0..40).collect();
    let mut first = [0_u8; 32];
    first.copy_from_slice(&seed[..32]);
    let kp = tenant_keypair(&seed).expect("long enough");
    assert_eq!(
        kp.verifying_key().to_bytes(),
        Keypair::from_seed(first).verifying_key().to_bytes()
    );
    assert_eq!(tenant_keypair(&seed[..31]).err(), Some(ConfigError::TenantKeyTooShort));
    assert_eq!(github_secret(b" s\n".to_vec()), Ok(b" s".to_vec()));
    assert_eq!(github_secret(b" \r\n".to_vec()), Err(ConfigError::GithubSecretEmpty));
    assert_eq!(gitlab_token(" t \n"), Ok("t".to_string()));
    assert_eq!(gitlab_token(" \n"), Err(ConfigError::GitlabTokenEmpty));
    let manifest = "[tenant]\nid = 7\n";
    assert_eq!(manifest_for(manifest, 7).map(|m| m.tenant.id), Ok(7));
    let other = manifest_for(manifest, 8).expect_err("another tenant's");
    assert_eq!(other, ManifestRefusal::OtherTenant { manifest: 7, configured: 8 });
    assert_eq!(other.message(), "manifest tenant id 7 != --tenant-id 8");
    let bad = manifest_for("[tenant]\n", 7).expect_err("no tenant id");
    assert!(bad.message().starts_with("manifest parse: manifest schema: "));
    assert_eq!(
        ConfigError::TenantKeyTooShort.message(),
        "--tenant-key file must be at least 32 bytes (raw ed25519 seed)"
    );
}
