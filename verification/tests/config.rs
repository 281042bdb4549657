use pulumist::config::{BackendConfig, PulumiConfig, SecretsConfig};
use pulumist::wire::{SecretsProvider, WireBackend};

fn s(text: &str) -> String {
    text.to_string()
}

#[test]
fn default_config_forwards_nothing() {
    let cfg = PulumiConfig::new().to_protobuf().unwrap();
    assert!(cfg.secrets_provider.is_none());
    assert!(cfg.backend.is_none());
    assert_eq!(cfg.environment.len(), 0);
    assert_eq!(cfg.pulumi_home, "");
    assert_eq!(cfg.log_level, "");
}

#[test]
fn passphrase_is_forwarded_when_set() {
    let cfg = PulumiConfig::new()
        .with_passphrase(s("SECRET-REDACTED"))
        .to_protobuf()
        .unwrap();
    match cfg.secrets_provider {
        Some(SecretsProvider::Passphrase(p)) => assert_eq!(p, "SECRET-REDACTED"),
        _ => panic!("a non-empty passphrase must be forwarded"),
    }
}

#[test]
fn aws_kms_credentials_in_insertion_order() {
    let mut config = PulumiConfig::new().with_aws_kms(s("key-1"));
    config.secrets = SecretsConfig::AwsKms {
        key_id: s("key-1"),
        region: Some(s("us-east-1")),
        access_key_id: None,
        secret_access_key: Some(s("SECRET-REDACTED")),
    };
    let cfg = config.to_protobuf().unwrap();
    match cfg.secrets_provider {
        Some(SecretsProvider::CloudKms {
            provider_type,
            key_id,
            credentials,
        }) => {
            assert_eq!(provider_type, "awskms");
            assert_eq!(key_id, "key-1");
            assert_eq!(
                credentials,
                vec![
                    (s("AWS_REGION"), s("us-east-1")),
                    (s("AWS_SECRET_ACCESS_KEY"), s("SECRET-REDACTED")),
                ]
            );
        }
        _ => panic!("AWS KMS must forward a cloud provider block"),
    }
}

#[test]
fn s3_backend_defaults_credentials_to_empty() {
    let cfg = PulumiConfig::new()
        .with_s3_backend(s("bucket"), s("us-west-2"))
        .to_protobuf()
        .unwrap();
    match cfg.backend {
        Some(WireBackend::S3 {
            bucket,
            region,
            access_key,
            secret_key,
            session_token,
            endpoint,
        }) => {
            assert_eq!(bucket, "bucket");
            assert_eq!(region, "us-west-2");
            assert_eq!(access_key, "");
            assert_eq!(secret_key, "");
            assert_eq!(session_token, "");
            assert_eq!(endpoint, "");
        }
        _ => panic!("the object-store backend must be forwarded"),
    }
}

#[test]
fn local_backend_with_path_is_forwarded() {
    let config = PulumiConfig::builder()
        .local_backend(Some(s("/tmp/state")))
        .build();
    match config.to_protobuf().unwrap().backend {
        Some(WireBackend::Local { path }) => assert_eq!(path, "/tmp/state"),
        _ => panic!("a local backend with a path must be forwarded"),
    }
    let bare = PulumiConfig::builder().local_backend(None).build();
    assert!(bare.to_protobuf().unwrap().backend.is_none());
}

#[test]
fn builder_accumulates_everything() {
    let config = PulumiConfig::builder()
        .passphrase(s("SECRET-REDACTED"))
        .s3_backend(s("b"), s("r"))
        .parallel(8)
        .timeout_seconds(600)
        .env(s("K"), s("V"))
        .env(s("K2"), s("V2"))
        .pulumi_home(s("/home/x"))
        .log_level(s("debug"))
        .build();
    assert_eq!(config.runtime.parallel, Some(8));
    assert_eq!(config.runtime.timeout_seconds, Some(600));
    assert_eq!(config.environment, vec![(s("K"), s("V")), (s("K2"), s("V2"))]);
    let cfg = config.to_protobuf().unwrap();
    assert_eq!(cfg.environment, vec![(s("K"), s("V")), (s("K2"), s("V2"))]);
    assert_eq!(cfg.pulumi_home, "/home/x");
    assert_eq!(cfg.log_level, "debug");
}

#[test]
fn azure_and_gcp_kms_blocks() {
    let mut config = PulumiConfig::new();
    config.secrets = SecretsConfig::AzureKeyVault {
        key_url: s("https://vault/keys/k"),
        client_id: Some(s("cid")),
        client_secret: None,
        tenant_id: Some(s("tid")),
    };
    match config.clone().to_protobuf().unwrap().secrets_provider {
        Some(SecretsProvider::CloudKms {
            provider_type,
            key_id,
            credentials,
        }) => {
            assert_eq!(provider_type, "azurekeyvault");
            assert_eq!(key_id, "https://vault/keys/k");
            assert_eq!(
                credentials,
                vec![(s("AZURE_CLIENT_ID"), s("cid")), (s("AZURE_TENANT_ID"), s("tid"))]
            );
        }
        _ => panic!("the key-vault block must be forwarded"),
    }
    config.secrets = SecretsConfig::GcpKms {
        key_name: s("projects/p/keys/k"),
        credentials_json: None,
    };
    match config.clone().to_protobuf().unwrap().secrets_provider {
        Some(SecretsProvider::CloudKms {
            provider_type,
            credentials,
            ..
        }) => {
            assert_eq!(provider_type, "gcpkms");
            assert_eq!(credentials.len(), 0);
        }
        _ => panic!("the cloud KMS block must be forwarded"),
    }
    config.secrets = SecretsConfig::Unencrypted;
    match config.to_protobuf().unwrap().secrets_provider {
        Some(SecretsProvider::Local) => {}
        _ => panic!("disabled encryption maps to the local provider"),
    }
}

#[test]
fn s3_endpoint_is_forwarded_verbatim() {
    let mut config = PulumiConfig::new();
    config.backend = BackendConfig::S3 {
        bucket: s("b"),
        region: s("r"),
        access_key_id: Some(s("AK")),
        secret_access_key: Some(s("SECRET-REDACTED")),
        endpoint: Some(s("https://minio.local:9000")),
    };
    match config.to_protobuf().unwrap().backend {
        Some(WireBackend::S3 {
            access_key,
            secret_key,
            endpoint,
            ..
        }) => {
            assert_eq!(access_key, "AK");
            assert_eq!(secret_key, "SECRET-REDACTED");
            assert_eq!(endpoint, "https://minio.local:9000");
        }
        _ => panic!("the object-store backend must be forwarded"),
    }
}

#[test]
fn with_env_overwrites_an_existing_key_in_place() {
    let config = PulumiConfig::new()
        .with_env(s("A"), s("1"))
        .with_env(s("B"), s("2"))
        .with_env(s("A"), s("3"));
    assert_eq!(config.environment, vec![(s("A"), s("3")), (s("B"), s("2"))]);
    // the whole map is forwarded with the overwritten value only
    let cfg = config.to_protobuf().unwrap();
    assert_eq!(cfg.environment, vec![(s("A"), s("3")), (s("B"), s("2"))]);
}

#[test]
fn builder_env_overwrites_an_existing_key_in_place() {
    let config = PulumiConfig::builder()
        .env(s("K"), s("old"))
        .env(s("K"), s("new"))
        .env(s("L"), s("x"))
        .build();
    assert_eq!(config.environment, vec![(s("K"), s("new")), (s("L"), s("x"))]);
}
