//! The caller-facing configuration surface: secrets provider, state
//! backend, runtime options, and environment overrides, forwarded
//! verbatim into a request's runtime-configuration block.  The library
//! performs no validation of credentials.

use vstd::prelude::*;
use crate::wire::{PulumiConfiguration, SecretsProvider, WireBackend};
use vstd::string::StrSliceExecFns;
use crate::dynamic::string_pairs_entries_view;

verus! {

broadcast use vstd::std_specs::vec::group_vec_axioms, vstd::seq::group_seq_axioms;

/// Configuration for operations against the runtime.
#[derive(Debug, Clone)]
pub struct PulumiConfig {
    /// Secrets provider configuration.
    pub secrets: SecretsConfig,
    /// Backend storage configuration.
    pub backend: BackendConfig,
    /// Runtime options.
    pub runtime: RuntimeOptions,
    /// Environment variable overrides: a map held as a list of entries
    /// in first-insertion order, one entry per key.
    pub environment: Vec<(String, String)>,
    /// Custom home directory.
    pub pulumi_home: Option<String>,
    /// Log level (debug, info, warn, error).
    pub log_level: Option<String>,
}

/// Secrets provider configuration.
#[derive(Debug, Clone)]
pub enum SecretsConfig {
    /// Passphrase-based encryption (the default); an empty passphrase
    /// defers to the environment.
    Passphrase(String),
    /// Cloud KMS encryption through AWS.
    AwsKms {
        key_id: String,
        region: Option<String>,
        access_key_id: Option<String>,
        secret_access_key: Option<String>,
    },
    /// Cloud KMS encryption through an Azure key vault.
    AzureKeyVault {
        key_url: String,
        client_id: Option<String>,
        client_secret: Option<String>,
        tenant_id: Option<String>,
    },
    /// Cloud KMS encryption through Google Cloud.
    GcpKms { key_name: String, credentials_json: Option<String> },
    /// No encryption (development only).
    Unencrypted,
}

impl Default for SecretsConfig {
    /// The default defers the passphrase to the environment.
    fn default() -> (r: Self)
        ensures
            r matches SecretsConfig::Passphrase(p) && p@.len() == 0,
    {
        SecretsConfig::Passphrase(String::new())
    }
}

/// Backend storage configuration.
#[derive(Debug, Clone)]
pub enum BackendConfig {
    /// Local file storage (the default).
    Local { path: Option<String> },
    /// An object-store backend.
    S3 {
        bucket: String,
        region: String,
        access_key_id: Option<String>,
        secret_access_key: Option<String>,
        endpoint: Option<String>,
    },
    /// A blob-store backend.
    AzureBlob {
        storage_account: String,
        container: String,
        access_key: Option<String>,
        sas_token: Option<String>,
    },
    /// The remote-service backend.
    PulumiService { url: String, access_token: String },
}

impl Default for BackendConfig {
    fn default() -> (r: Self)
        ensures
            r matches BackendConfig::Local { path } && path is None,
    {
        BackendConfig::Local { path: None }
    }
}

/// Runtime options for operations.
#[derive(Debug, Clone)]
pub struct RuntimeOptions {
    /// Number of resources to process in parallel.
    pub parallel: Option<u32>,
    /// Operation timeout in seconds.
    pub timeout_seconds: Option<u32>,
    /// Show configuration values.
    pub show_config: bool,
    /// Show detailed replacement steps.
    pub show_replacement_steps: bool,
    /// Show stack outputs after the operation.
    pub show_stack_outputs: bool,
    /// Disable state checkpoints (dangerous).
    pub disable_checkpoints: bool,
    /// Hide sensitive outputs.
    pub suppress_outputs: bool,
}

impl Default for RuntimeOptions {
    fn default() -> (r: Self)
        ensures
            r.parallel is None,
            r.timeout_seconds is None,
            !r.show_config,
            !r.show_replacement_steps,
            !r.show_stack_outputs,
            !r.disable_checkpoints,
            !r.suppress_outputs,
    {
        RuntimeOptions {
            parallel: None,
            timeout_seconds: None,
            show_config: false,
            show_replacement_steps: false,
            show_stack_outputs: false,
            disable_checkpoints: false,
            suppress_outputs: false,
        }
    }
}

/// What a freshly made configuration holds.
pub open spec fn is_default_config(c: PulumiConfig) -> bool {
    &&& c.secrets matches SecretsConfig::Passphrase(p) && p@.len() == 0
    &&& c.backend matches BackendConfig::Local { path } && path is None
    &&& c.runtime.parallel is None
    &&& c.runtime.timeout_seconds is None
    &&& !c.runtime.show_config
    &&& !c.runtime.show_replacement_steps
    &&& !c.runtime.show_stack_outputs
    &&& !c.runtime.disable_checkpoints
    &&& !c.runtime.suppress_outputs
    &&& c.environment@.len() == 0
    &&& c.pulumi_home is None
    &&& c.log_level is None
}

impl Default for PulumiConfig {
    fn default() -> (r: Self)
        ensures
            is_default_config(r),
    {
        PulumiConfig {
            secrets: SecretsConfig::default(),
            backend: BackendConfig::default(),
            runtime: RuntimeOptions::default(),
            environment: Vec::new(),
            pulumi_home: None,
            log_level: None,
        }
    }
}

impl PulumiConfig {
    /// A new configuration with defaults.
    pub fn new() -> (r: Self)
        ensures
            is_default_config(r),
    {
        Self::default()
    }

    /// A builder for the configuration.
    pub fn builder() -> (r: PulumiConfigBuilder)
        ensures
            is_default_config(r.config),
    {
        PulumiConfigBuilder { config: PulumiConfig::default() }
    }

    /// Sets the passphrase directly.
    pub fn with_passphrase(self, passphrase: String) -> (r: Self)
        ensures
            r.secrets == SecretsConfig::Passphrase(passphrase),
            same_but_secrets(r, self),
    {
        let mut c = self;
        c.secrets = SecretsConfig::Passphrase(passphrase);
        c
    }

    /// Uses AWS KMS for secrets.
    pub fn with_aws_kms(self, key_id: String) -> (r: Self)
        ensures
            r.secrets matches SecretsConfig::AwsKms {
                key_id: k,
                region,
                access_key_id,
                secret_access_key,
            } && k == key_id && region is None && access_key_id is None
                && secret_access_key is None,
            same_but_secrets(r, self),
    {
        let mut c = self;
        c.secrets = SecretsConfig::AwsKms {
            key_id,
            region: None,
            access_key_id: None,
            secret_access_key: None,
        };
        c
    }

    /// Uses an object-store backend.
    pub fn with_s3_backend(self, bucket: String, region: String) -> (r: Self)
        ensures
            r.backend matches BackendConfig::S3 {
                bucket: b,
                region: g,
                access_key_id,
                secret_access_key,
                endpoint,
            } && b == bucket && g == region && access_key_id is None
                && secret_access_key is None && endpoint is None,
            same_but_backend(r, self),
    {
        let mut c = self;
        c.backend = BackendConfig::S3 {
            bucket,
            region,
            access_key_id: None,
            secret_access_key: None,
            endpoint: None,
        };
        c
    }

    /// Sets one environment variable override: an existing entry under
    /// the same key is overwritten.
    pub fn with_env(self, key: String, value: String) -> (r: Self)
        ensures
            string_pairs_entries_view(r.environment@) == env_insert(
                string_pairs_entries_view(self.environment@),
                key@,
                value@,
            ),
            same_but_environment(r, self),
    {
        let PulumiConfig { secrets, backend, runtime, environment, pulumi_home, log_level } = self;
        PulumiConfig {
            secrets,
            backend,
            runtime,
            environment: env_insert_exec(environment, key, value),
            pulumi_home,
            log_level,
        }
    }

    /// Sets the parallelism.
    pub fn with_parallel(self, parallel: u32) -> (r: Self)
        ensures
            r.runtime.parallel == Some(parallel),
            same_runtime_but_parallel(r.runtime, self.runtime),
            same_but_runtime(r, self),
    {
        let mut c = self;
        c.runtime.parallel = Some(parallel);
        c
    }

    /// Sets the timeout.
    pub fn with_timeout_seconds(self, seconds: u32) -> (r: Self)
        ensures
            r.runtime.timeout_seconds == Some(seconds),
            same_runtime_but_timeout(r.runtime, self.runtime),
            same_but_runtime(r, self),
    {
        let mut c = self;
        c.runtime.timeout_seconds = Some(seconds);
        c
    }
}


/// Equality of every configuration field but the secrets provider.
pub open spec fn same_but_secrets(a: PulumiConfig, b: PulumiConfig) -> bool {
    &&& a.backend == b.backend
    &&& a.runtime == b.runtime
    &&& a.environment == b.environment
    &&& a.pulumi_home == b.pulumi_home
    &&& a.log_level == b.log_level
}

/// Equality of every configuration field but the backend.
pub open spec fn same_but_backend(a: PulumiConfig, b: PulumiConfig) -> bool {
    &&& a.secrets == b.secrets
    &&& a.runtime == b.runtime
    &&& a.environment == b.environment
    &&& a.pulumi_home == b.pulumi_home
    &&& a.log_level == b.log_level
}

/// Equality of every configuration field but the runtime options.
pub open spec fn same_but_runtime(a: PulumiConfig, b: PulumiConfig) -> bool {
    &&& a.secrets == b.secrets
    &&& a.backend == b.backend
    &&& a.environment == b.environment
    &&& a.pulumi_home == b.pulumi_home
    &&& a.log_level == b.log_level
}

/// Equality of every configuration field but the environment overrides.
pub open spec fn same_but_environment(a: PulumiConfig, b: PulumiConfig) -> bool {
    &&& a.secrets == b.secrets
    &&& a.backend == b.backend
    &&& a.runtime == b.runtime
    &&& a.pulumi_home == b.pulumi_home
    &&& a.log_level == b.log_level
}

/// Equality of every configuration field but the home directory.
pub open spec fn same_but_home(a: PulumiConfig, b: PulumiConfig) -> bool {
    &&& a.secrets == b.secrets
    &&& a.backend == b.backend
    &&& a.runtime == b.runtime
    &&& a.environment == b.environment
    &&& a.log_level == b.log_level
}

/// Equality of every configuration field but the log level.
pub open spec fn same_but_log_level(a: PulumiConfig, b: PulumiConfig) -> bool {
    &&& a.secrets == b.secrets
    &&& a.backend == b.backend
    &&& a.runtime == b.runtime
    &&& a.environment == b.environment
    &&& a.pulumi_home == b.pulumi_home
}

/// Equality of every runtime option but the parallelism.
pub open spec fn same_runtime_but_parallel(a: RuntimeOptions, b: RuntimeOptions) -> bool {
    &&& a.timeout_seconds == b.timeout_seconds
    &&& a.show_config == b.show_config
    &&& a.show_replacement_steps == b.show_replacement_steps
    &&& a.show_stack_outputs == b.show_stack_outputs
    &&& a.disable_checkpoints == b.disable_checkpoints
    &&& a.suppress_outputs == b.suppress_outputs
}

/// Equality of every runtime option but the timeout.
pub open spec fn same_runtime_but_timeout(a: RuntimeOptions, b: RuntimeOptions) -> bool {
    &&& a.parallel == b.parallel
    &&& a.show_config == b.show_config
    &&& a.show_replacement_steps == b.show_replacement_steps
    &&& a.show_stack_outputs == b.show_stack_outputs
    &&& a.disable_checkpoints == b.disable_checkpoints
    &&& a.suppress_outputs == b.suppress_outputs
}

/// The environment with `key` bound to `value`: an existing entry under
/// the same key is overwritten in place, a new key is appended.  The
/// environment is a map keyed by its entries' names.
pub open spec fn env_insert(
    env: Seq<(Seq<char>, Seq<char>)>,
    key: Seq<char>,
    value: Seq<char>,
) -> Seq<(Seq<char>, Seq<char>)>
    decreases env.len(),
{
    if env.len() == 0 {
        seq![(key, value)]
    } else if env[0].0 == key {
        seq![(key, value)] + env.drop_first()
    } else {
        seq![env[0]] + env_insert(env.drop_first(), key, value)
    }
}

/// Insertion walks past a key-free prefix unchanged.
proof fn lemma_env_insert_prefix(
    env: Seq<(Seq<char>, Seq<char>)>,
    key: Seq<char>,
    value: Seq<char>,
    i: int,
)
    requires
        0 <= i <= env.len(),
        forall|j: int| 0 <= j < i ==> (#[trigger] env[j]).0 != key,
    ensures
        env_insert(env, key, value) == env.take(i) + env_insert(env.skip(i), key, value),
    decreases i,
{
    if i == 0 {
        assert(env.skip(0) =~= env);
        assert(env.take(0) + env_insert(env, key, value) =~= env_insert(env, key, value));
    } else {
        let rest = env.drop_first();
        assert(forall|j: int| 0 <= j < i - 1 ==> (#[trigger] rest[j]).0 != key) by {
            assert(forall|j: int| 0 <= j < i - 1 ==> rest[j] == env[j + 1]);
        }
        lemma_env_insert_prefix(rest, key, value, i - 1);
        assert(rest.take(i - 1) =~= env.subrange(1, i));
        assert(rest.skip(i - 1) =~= env.skip(i));
        assert(seq![env[0]] + (env.subrange(1, i) + env_insert(env.skip(i), key, value)) =~= env.take(
            i,
        ) + env_insert(env.skip(i), key, value));
    }
}

/// Binds `key` to `value` in an environment list, overwriting an
/// existing entry under the same key in place.
fn env_insert_exec(env: Vec<(String, String)>, key: String, value: String) -> (r: Vec<
    (String, String),
>)
    ensures
        string_pairs_entries_view(r@) == env_insert(
            string_pairs_entries_view(env@),
            key@,
            value@,
        ),
{
    let ghost full = string_pairs_entries_view(env@);
    let ghost target = env_insert(full, key@, value@);
    let mut out: Vec<(String, String)> = Vec::new();
    let mut replaced = false;
    let mut i: usize = 0;
    proof {
        assert(string_pairs_entries_view(out@) =~= full.take(0));
    }
    while i < env.len()
        invariant
            i <= env.len(),
            full == string_pairs_entries_view(env@),
            target == env_insert(full, key@, value@),
            full.len() == env@.len(),
            !replaced ==> string_pairs_entries_view(out@) == full.take(i as int) && (forall|
                j: int,
            |
                0 <= j < i ==> (#[trigger] full[j]).0 != key@),
            replaced ==> string_pairs_entries_view(out@) + full.skip(i as int) == target,
        decreases env.len() - i,
    {
        let (k, v) = &env[i];
        let ghost pre = string_pairs_entries_view(out@);
        if !replaced && *k == key {
            out.push((key.clone(), value.clone()));
            replaced = true;
            proof {
                assert(full[i as int].0 == key@);
                lemma_env_insert_prefix(full, key@, value@, i as int);
                assert(full.skip(i as int)[0] == full[i as int]);
                assert(env_insert(full.skip(i as int), key@, value@) == seq![(key@, value@)]
                    + full.skip(i as int).drop_first());
                assert(full.skip(i as int).drop_first() =~= full.skip(i + 1 as int));
                assert(string_pairs_entries_view(out@) =~= pre + seq![(key@, value@)]);
                assert((full.take(i as int) + seq![(key@, value@)]) + full.skip(i + 1 as int)
                    =~= full.take(i as int) + (seq![(key@, value@)] + full.skip(i + 1 as int)));
            }
        } else {
            let was_replaced = replaced;
            out.push((k.clone(), v.clone()));
            proof {
                assert(string_pairs_entries_view(out@) =~= pre + seq![full[i as int]]);
                if was_replaced {
                    assert(full.skip(i as int)[0] == full[i as int]);
                    assert(full.skip(i as int) =~= seq![full[i as int]] + full.skip(i + 1 as int));
                    assert((pre + seq![full[i as int]]) + full.skip(i + 1 as int) =~= pre + (seq![
                        full[i as int],
                    ] + full.skip(i + 1 as int)));
                } else {
                    assert(full[i as int].0 != key@);
                    assert(pre + seq![full[i as int]] =~= full.take(i + 1 as int));
                }
            }
        }
        i = i + 1;
    }
    if !replaced {
        let ghost pre = string_pairs_entries_view(out@);
        out.push((key, value));
        proof {
            lemma_env_insert_prefix(full, key@, value@, full.len() as int);
            assert(full.skip(full.len() as int) =~= Seq::<(Seq<char>, Seq<char>)>::empty());
            assert(env_insert(Seq::<(Seq<char>, Seq<char>)>::empty(), key@, value@) =~= seq![
                (key@, value@),
            ]);
            assert(pre =~= full.take(full.len() as int));
            assert(string_pairs_entries_view(out@) =~= pre + seq![(key@, value@)]);
            assert(full.take(full.len() as int) + seq![(key@, value@)] =~= target);
        }
    } else {
        proof {
            assert(full.skip(env@.len() as int) =~= Seq::<(Seq<char>, Seq<char>)>::empty());
            assert(string_pairs_entries_view(out@) + Seq::<(Seq<char>, Seq<char>)>::empty()
                =~= string_pairs_entries_view(out@));
        }
    }
    out
}

/// A credential entry contributed by an optional value.
pub open spec fn opt_pair(key: Seq<char>, v: Option<String>) -> Seq<(Seq<char>, Seq<char>)> {
    match v {
        Some(x) => seq![(key, x@)],
        None => Seq::empty(),
    }
}

/// The credential entries forwarded for each secrets provider.
pub open spec fn spec_secrets_credentials(s: SecretsConfig) -> Seq<(Seq<char>, Seq<char>)> {
    match s {
        SecretsConfig::AwsKms { region, access_key_id, secret_access_key, .. } => opt_pair(
            "AWS_REGION"@,
            region,
        ) + opt_pair("AWS_ACCESS_KEY_ID"@, access_key_id) + opt_pair(
            "AWS_SECRET_ACCESS_KEY"@,
            secret_access_key,
        ),
        SecretsConfig::AzureKeyVault { client_id, client_secret, tenant_id, .. } => opt_pair(
            "AZURE_CLIENT_ID"@,
            client_id,
        ) + opt_pair("AZURE_CLIENT_SECRET"@, client_secret) + opt_pair(
            "AZURE_TENANT_ID"@,
            tenant_id,
        ),
        SecretsConfig::GcpKms { credentials_json, .. } => opt_pair(
            "GOOGLE_CREDENTIALS"@,
            credentials_json,
        ),
        _ => Seq::empty(),
    }
}

/// What the forwarded secrets-provider block must hold.
pub open spec fn secrets_block_matches(r: Option<SecretsProvider>, s: SecretsConfig) -> bool {
    match s {
        SecretsConfig::Passphrase(p) => if p@.len() == 0 {
            r is None
        } else {
            r matches Some(SecretsProvider::Passphrase(q)) && q@ == p@
        },
        SecretsConfig::AwsKms { key_id, .. } => r matches Some(
            SecretsProvider::CloudKms { provider_type, key_id: k, credentials },
        ) && provider_type@ == "awskms"@ && k@ == key_id@ && string_pairs_entries_view(
            credentials@,
        ) == spec_secrets_credentials(s),
        SecretsConfig::AzureKeyVault { key_url, .. } => r matches Some(
            SecretsProvider::CloudKms { provider_type, key_id: k, credentials },
        ) && provider_type@ == "azurekeyvault"@ && k@ == key_url@ && string_pairs_entries_view(
            credentials@,
        ) == spec_secrets_credentials(s),
        SecretsConfig::GcpKms { key_name, .. } => r matches Some(
            SecretsProvider::CloudKms { provider_type, key_id: k, credentials },
        ) && provider_type@ == "gcpkms"@ && k@ == key_name@ && string_pairs_entries_view(
            credentials@,
        ) == spec_secrets_credentials(s),
        SecretsConfig::Unencrypted => r matches Some(SecretsProvider::Local),
    }
}

/// What the forwarded backend block must hold.  A local backend without
/// a path is omitted; absent credentials and endpoint are forwarded as
/// empty strings.
pub open spec fn backend_block_matches(r: Option<WireBackend>, b: BackendConfig) -> bool {
    match b {
        BackendConfig::Local { path } => match path {
            Some(p) => r matches Some(WireBackend::Local { path: q }) && q@ == p@,
            None => r is None,
        },
        BackendConfig::S3 { bucket, region, access_key_id, secret_access_key, endpoint } => r matches Some(
            WireBackend::S3 {
                bucket: wb,
                region: wr,
                access_key: wa,
                secret_key: ws,
                session_token: wt,
                endpoint: we,
            },
        ) && wb@ == bucket@ && wr@ == region@ && wa@ == opt_text(access_key_id) && ws@ == opt_text(
            secret_access_key,
        ) && wt@.len() == 0 && we@ == opt_text(endpoint),
        BackendConfig::AzureBlob { storage_account, container, access_key, sas_token } => r matches Some(
            WireBackend::AzureBlob {
                storage_account: wsa,
                container: wc,
                access_key: wa,
                sas_token: wt,
            },
        ) && wsa@ == storage_account@ && wc@ == container@ && wa@ == opt_text(access_key) && wt@
            == opt_text(sas_token),
        BackendConfig::PulumiService { url, access_token } => r matches Some(
            WireBackend::Cloud { url: wu, api_token: wa },
        ) && wu@ == url@ && wa@ == access_token@,
    }
}

/// An optional string, or empty.
pub open spec fn opt_text(v: Option<String>) -> Seq<char> {
    match v {
        Some(x) => x@,
        None => Seq::empty(),
    }
}

/// What the whole forwarded runtime-configuration block must hold.
pub open spec fn protobuf_matches(cfg: PulumiConfiguration, c: PulumiConfig) -> bool {
    &&& secrets_block_matches(cfg.secrets_provider, c.secrets)
    &&& backend_block_matches(cfg.backend, c.backend)
    &&& string_pairs_entries_view(cfg.environment@) == string_pairs_entries_view(c.environment@)
    &&& cfg.pulumi_home@ == opt_text(c.pulumi_home)
    &&& cfg.log_level@ == opt_text(c.log_level)
}

/// Deep copy of a sequence of string pairs.
fn string_pairs_clone(ps: &Vec<(String, String)>) -> (r: Vec<(String, String)>)
    ensures
        string_pairs_entries_view(r@) == string_pairs_entries_view(ps@),
{
    let mut out: Vec<(String, String)> = Vec::new();
    let mut i: usize = 0;
    while i < ps.len()
        invariant
            i <= ps.len(),
            out@.len() == i as int,
            forall|j: int| 0 <= j < i ==> out@[j].0@ == ps@[j].0@ && out@[j].1@ == ps@[j].1@,
        decreases ps.len() - i,
    {
        let (k, v) = &ps[i];
        out.push((k.clone(), v.clone()));
        i = i + 1;
    }
    proof {
        assert(string_pairs_entries_view(out@) =~= string_pairs_entries_view(ps@));
    }
    out
}

/// Pushes one credential entry for each present optional value.
fn push_opt_pair(out: &mut Vec<(String, String)>, key: &str, v: &Option<String>)
    ensures
        string_pairs_entries_view(final(out)@) == string_pairs_entries_view(old(out)@) + opt_pair(
            key@,
            *v,
        ),
{
    let ghost pre = string_pairs_entries_view(out@);
    match v {
        Some(x) => {
            out.push((key.to_owned(), x.clone()));
            proof {
                assert(string_pairs_entries_view(out@) =~= pre + opt_pair(key@, *v));
            }
        },
        None => {
            proof {
                assert(string_pairs_entries_view(out@) =~= pre + opt_pair(key@, *v));
            }
        },
    }
}

impl PulumiConfig {
    /// The runtime-configuration block this configuration forwards:
    /// every field is passed through verbatim, with the defaulting
    /// rules stated by `protobuf_matches`.
    pub fn to_protobuf(&self) -> (r: Option<PulumiConfiguration>)
        ensures
            r matches Some(cfg) && protobuf_matches(cfg, *self),
    {
        let secrets_provider: Option<SecretsProvider> = match &self.secrets {
            SecretsConfig::Passphrase(passphrase) => {
                if passphrase.as_str().unicode_len() == 0 {
                    None
                } else {
                    Some(SecretsProvider::Passphrase(passphrase.clone()))
                }
            },
            SecretsConfig::AwsKms { key_id, region, access_key_id, secret_access_key } => {
                let mut credentials: Vec<(String, String)> = Vec::new();
                proof {
                    assert(string_pairs_entries_view(credentials@) =~= Seq::<
                        (Seq<char>, Seq<char>),
                    >::empty());
                }
                push_opt_pair(&mut credentials, "AWS_REGION", region);
                push_opt_pair(&mut credentials, "AWS_ACCESS_KEY_ID", access_key_id);
                push_opt_pair(&mut credentials, "AWS_SECRET_ACCESS_KEY", secret_access_key);
                proof {
                    assert(string_pairs_entries_view(credentials@) =~= spec_secrets_credentials(
                        self.secrets,
                    ));
                }
                Some(
                    SecretsProvider::CloudKms {
                        provider_type: String::from_str("awskms"),
                        key_id: key_id.clone(),
                        credentials,
                    },
                )
            },
            SecretsConfig::AzureKeyVault { key_url, client_id, client_secret, tenant_id } => {
                let mut credentials: Vec<(String, String)> = Vec::new();
                proof {
                    assert(string_pairs_entries_view(credentials@) =~= Seq::<
                        (Seq<char>, Seq<char>),
                    >::empty());
                }
                push_opt_pair(&mut credentials, "AZURE_CLIENT_ID", client_id);
                push_opt_pair(&mut credentials, "AZURE_CLIENT_SECRET", client_secret);
                push_opt_pair(&mut credentials, "AZURE_TENANT_ID", tenant_id);
                proof {
                    assert(string_pairs_entries_view(credentials@) =~= spec_secrets_credentials(
                        self.secrets,
                    ));
                }
                Some(
                    SecretsProvider::CloudKms {
                        provider_type: String::from_str("azurekeyvault"),
                        key_id: key_url.clone(),
                        credentials,
                    },
                )
            },
            SecretsConfig::GcpKms { key_name, credentials_json } => {
                let mut credentials: Vec<(String, String)> = Vec::new();
                proof {
                    assert(string_pairs_entries_view(credentials@) =~= Seq::<
                        (Seq<char>, Seq<char>),
                    >::empty());
                }
                push_opt_pair(&mut credentials, "GOOGLE_CREDENTIALS", credentials_json);
                proof {
                    assert(string_pairs_entries_view(credentials@) =~= spec_secrets_credentials(
                        self.secrets,
                    ));
                }
                Some(
                    SecretsProvider::CloudKms {
                        provider_type: String::from_str("gcpkms"),
                        key_id: key_name.clone(),
                        credentials,
                    },
                )
            },
            SecretsConfig::Unencrypted => Some(SecretsProvider::Local),
        };
        let backend: Option<WireBackend> = match &self.backend {
            BackendConfig::Local { path } => {
                match path {
                    Some(p) => Some(WireBackend::Local { path: p.clone() }),
                    None => None,
                }
            },
            BackendConfig::S3 { bucket, region, access_key_id, secret_access_key, endpoint } => {
                let access_key = match access_key_id {
                    Some(k) => k.clone(),
                    None => String::new(),
                };
                let secret_key = match secret_access_key {
                    Some(k) => k.clone(),
                    None => String::new(),
                };
                let we = match endpoint {
                    Some(e) => e.clone(),
                    None => String::new(),
                };
                Some(
                    WireBackend::S3 {
                        bucket: bucket.clone(),
                        region: region.clone(),
                        access_key,
                        secret_key,
                        session_token: String::new(),
                        endpoint: we,
                    },
                )
            },
            BackendConfig::AzureBlob { storage_account, container, access_key, sas_token } => {
                let wa = match access_key {
                    Some(k) => k.clone(),
                    None => String::new(),
                };
                let wt = match sas_token {
                    Some(k) => k.clone(),
                    None => String::new(),
                };
                Some(
                    WireBackend::AzureBlob {
                        storage_account: storage_account.clone(),
                        container: container.clone(),
                        access_key: wa,
                        sas_token: wt,
                    },
                )
            },
            BackendConfig::PulumiService { url, access_token } => Some(
                WireBackend::Cloud { url: url.clone(), api_token: access_token.clone() },
            ),
        };
        let pulumi_home = match &self.pulumi_home {
            Some(p) => p.clone(),
            None => String::new(),
        };
        let log_level = match &self.log_level {
            Some(l) => l.clone(),
            None => String::new(),
        };
        Some(
            PulumiConfiguration {
                secrets_provider,
                backend,
                environment: string_pairs_clone(&self.environment),
                pulumi_home,
                log_level,
            },
        )
    }
}

/// Builder for `PulumiConfig`.
#[derive(Debug)]
pub struct PulumiConfigBuilder {
    pub config: PulumiConfig,
}

impl Default for PulumiConfigBuilder {
    fn default() -> (r: Self)
        ensures
            is_default_config(r.config),
    {
        PulumiConfigBuilder { config: PulumiConfig::default() }
    }
}

impl PulumiConfigBuilder {
    /// Sets the secrets provider.
    pub fn secrets(self, secrets: SecretsConfig) -> (r: Self)
        ensures
            r.config.secrets == secrets,
            same_but_secrets(r.config, self.config),
    {
        let mut b = self;
        b.config.secrets = secrets;
        b
    }

    /// Sets the passphrase directly.
    pub fn passphrase(self, passphrase: String) -> (r: Self)
        ensures
            r.config.secrets == SecretsConfig::Passphrase(passphrase),
            same_but_secrets(r.config, self.config),
    {
        let mut b = self;
        b.config.secrets = SecretsConfig::Passphrase(passphrase);
        b
    }

    /// Uses AWS KMS.
    pub fn aws_kms(self, key_id: String) -> (r: Self)
        ensures
            r.config.secrets matches SecretsConfig::AwsKms {
                key_id: k,
                region,
                access_key_id,
                secret_access_key,
            } && k == key_id && region is None && access_key_id is None
                && secret_access_key is None,
            same_but_secrets(r.config, self.config),
    {
        let mut b = self;
        b.config.secrets = SecretsConfig::AwsKms {
            key_id,
            region: None,
            access_key_id: None,
            secret_access_key: None,
        };
        b
    }

    /// Sets the backend.
    pub fn backend(self, backend: BackendConfig) -> (r: Self)
        ensures
            r.config.backend == backend,
            same_but_backend(r.config, self.config),
    {
        let mut b = self;
        b.config.backend = backend;
        b
    }

    /// Uses the local backend.
    pub fn local_backend(self, path: Option<String>) -> (r: Self)
        ensures
            r.config.backend == (BackendConfig::Local { path }),
            same_but_backend(r.config, self.config),
    {
        let mut b = self;
        b.config.backend = BackendConfig::Local { path };
        b
    }

    /// Uses an object-store backend.
    pub fn s3_backend(self, bucket: String, region: String) -> (r: Self)
        ensures
            r.config.backend matches BackendConfig::S3 {
                bucket: wb,
                region: wr,
                access_key_id,
                secret_access_key,
                endpoint,
            } && wb == bucket && wr == region && access_key_id is None
                && secret_access_key is None && endpoint is None,
            same_but_backend(r.config, self.config),
    {
        let mut b = self;
        b.config.backend = BackendConfig::S3 {
            bucket,
            region,
            access_key_id: None,
            secret_access_key: None,
            endpoint: None,
        };
        b
    }

    /// Sets the runtime options.
    pub fn runtime(self, runtime: RuntimeOptions) -> (r: Self)
        ensures
            r.config.runtime == runtime,
            same_but_runtime(r.config, self.config),
    {
        let mut b = self;
        b.config.runtime = runtime;
        b
    }

    /// Sets the parallelism.
    pub fn parallel(self, parallel: u32) -> (r: Self)
        ensures
            r.config.runtime.parallel == Some(parallel),
            same_runtime_but_parallel(r.config.runtime, self.config.runtime),
            same_but_runtime(r.config, self.config),
    {
        let mut b = self;
        b.config.runtime.parallel = Some(parallel);
        b
    }

    /// Sets the timeout.
    pub fn timeout_seconds(self, seconds: u32) -> (r: Self)
        ensures
            r.config.runtime.timeout_seconds == Some(seconds),
            same_runtime_but_timeout(r.config.runtime, self.config.runtime),
            same_but_runtime(r.config, self.config),
    {
        let mut b = self;
        b.config.runtime.timeout_seconds = Some(seconds);
        b
    }

    /// Sets one environment variable override: an existing entry under
    /// the same key is overwritten.
    pub fn env(self, key: String, value: String) -> (r: Self)
        ensures
            string_pairs_entries_view(r.config.environment@) == env_insert(
                string_pairs_entries_view(self.config.environment@),
                key@,
                value@,
            ),
            same_but_environment(r.config, self.config),
    {
        PulumiConfigBuilder { config: self.config.with_env(key, value) }
    }

    /// Sets the home directory.
    pub fn pulumi_home(self, path: String) -> (r: Self)
        ensures
            r.config.pulumi_home == Some(path),
            same_but_home(r.config, self.config),
    {
        let mut b = self;
        b.config.pulumi_home = Some(path);
        b
    }

    /// Sets the log level.
    pub fn log_level(self, level: String) -> (r: Self)
        ensures
            r.config.log_level == Some(level),
            same_but_log_level(r.config, self.config),
    {
        let mut b = self;
        b.config.log_level = Some(level);
        b
    }

    /// Finishes the configuration.
    pub fn build(self) -> (r: PulumiConfig)
        ensures
            r == self.config,
    {
        self.config
    }
}

} // verus!
