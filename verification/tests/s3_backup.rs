use aqbot_core::error::AQBotError;
use aqbot_core::s3_backup::{
    backup_file_name_from_key, bucket_name, collect_backup_page, error_chain, explicit_credentials,
    format_s3_sdk_error, normalize_prefix, normalized_endpoint, object_key, region_name,
    service_error_details, sort_backup_files, validate_config, S3Config, S3FailureKind,
    S3FileInfo, S3ListPage, S3ObjectSummary, S3RequestFailure, S3_CONNECT_TIMEOUT_SECS,
    S3_MAX_ATTEMPTS, S3_OPERATION_ATTEMPT_TIMEOUT_SECS, S3_OPERATION_TIMEOUT_SECS,
    S3_READ_TIMEOUT_SECS,
};

fn file(name: &str) -> S3FileInfo {
    S3FileInfo {
        file_name: name.to_string(),
        size: 1,
        last_modified: String::new(),
        hostname: "alpha".to_string(),
    }
}

fn gateway_message(r: Result<(), AQBotError>) -> String {
    match r {
        Err(AQBotError::Gateway(m)) => m,
        Err(_) => panic!("expected a gateway error"),
        Ok(()) => panic!("expected an error"),
    }
}

#[test]
fn normalizes_s3_prefix_for_object_keys() {
    assert_eq!(normalize_prefix(""), "");
    assert_eq!(normalize_prefix("/aqbot/backups/"), "aqbot/backups/");
    assert_eq!(object_key("/aqbot/backups/", "/backup.zip"), "aqbot/backups/backup.zip");
}

#[test]
fn filters_backup_files_from_prefixed_keys() {
    let prefix = normalize_prefix("aqbot/backups");

    assert_eq!(
        backup_file_name_from_key(&prefix, "aqbot/backups/aqbot-backup-20260515_010203.host.zip"),
        Some("aqbot-backup-20260515_010203.host.zip".to_string())
    );
    assert_eq!(
        backup_file_name_from_key(&prefix, "aqbot/backups/nested/aqbot-backup-20260515_010203.host.zip"),
        None
    );
    assert_eq!(backup_file_name_from_key(&prefix, "aqbot/backups/not-a-backup.zip"), None);
    assert_eq!(
        backup_file_name_from_key(&prefix, "aqbot/backups/aqbot-backup-20260515_010203.host.db"),
        None
    );
}

#[test]
fn sorts_s3_backups_newest_first_by_filename() {
    let mut files = vec![
        file("aqbot-backup-20260514_010203.alpha.zip"),
        file("aqbot-backup-20260515_010203.alpha.zip"),
    ];

    sort_backup_files(&mut files);

    assert_eq!(files[0].file_name, "aqbot-backup-20260515_010203.alpha.zip");
    assert_eq!(files[1].file_name, "aqbot-backup-20260514_010203.alpha.zip");
}

#[test]
fn s3_dispatch_errors_are_actionable_for_users() {
    let err = S3RequestFailure {
        kind: S3FailureKind::Dispatch {
            is_timeout: false,
            is_io: true,
            is_user: false,
            connector_chain: Some(vec!["io error".to_string(), "connection reset by peer".to_string()]),
        },
        source_chain: Some(vec!["io error".to_string(), "connection reset by peer".to_string()]),
        display: "dispatch failure".to_string(),
    };

    let message = format_s3_sdk_error("upload", &err);

    assert!(message.contains("S3 upload failed: network request failed"));
    assert!(message.contains("endpoint"));
    assert!(message.contains("connection reset by peer"));
    assert_ne!(message, "S3 upload failed: dispatch failure");
}

#[test]
fn s3_timeout_errors_are_actionable_for_users() {
    let err = S3RequestFailure {
        kind: S3FailureKind::Timeout,
        source_chain: Some(vec!["deadline elapsed".to_string()]),
        display: "request has timed out".to_string(),
    };

    let message = format_s3_sdk_error("upload", &err);

    assert!(message.contains("S3 upload failed: request timed out"));
    assert!(message.contains("deadline elapsed"));
}

#[test]
fn s3_service_errors_keep_service_details() {
    let err = S3RequestFailure {
        kind: S3FailureKind::Service {
            code: Some("AccessDenied".to_string()),
            message: Some("access denied by policy".to_string()),
            display: "test service error".to_string(),
        },
        source_chain: Some(vec!["test service error".to_string()]),
        display: "service error".to_string(),
    };

    let message = format_s3_sdk_error("upload", &err);

    assert!(message.contains("S3 upload failed: AccessDenied"));
    assert!(message.contains("access denied by policy"));
}

#[test]
fn explicit_credentials_require_access_key_and_secret() {
    let config = S3Config {
        bucket: "bucket".to_string(),
        region: "us-east-1".to_string(),
        use_default_credentials: false,
        ..Default::default()
    };

    let err = gateway_message(validate_config(&config));

    assert!(err.contains("S3 access key ID is required"));
}

#[test]
fn default_credentials_still_require_bucket_and_region() {
    let config = S3Config { use_default_credentials: true, ..Default::default() };

    let err = gateway_message(validate_config(&config));

    assert!(err.contains("S3 bucket is required"));
}

#[test]
fn validate_config_names_each_missing_setting() {
    let base = S3Config {
        bucket: " bucket ".to_string(),
        region: "us-east-1".to_string(),
        access_key_id: "AKIA".to_string(),
        secret_access_key: "secret".to_string(),
        ..Default::default()
    };
    assert!(validate_config(&base).is_ok());
    let no_region = S3Config { region: "  ".to_string(), ..base.clone() };
    assert_eq!(gateway_message(validate_config(&no_region)), "S3 region is required");
    let no_secret = S3Config { secret_access_key: "\t".to_string(), ..base.clone() };
    assert_eq!(gateway_message(validate_config(&no_secret)), "S3 secret access key is required");
    let defaults = S3Config {
        access_key_id: String::new(),
        secret_access_key: String::new(),
        use_default_credentials: true,
        ..base.clone()
    };
    assert!(validate_config(&defaults).is_ok());
}

#[test]
fn settings_are_trimmed_before_use() {
    let config = S3Config {
        bucket: "  my-bucket \n".to_string(),
        region: " eu-west-1 ".to_string(),
        endpoint_url: Some("  https://minio.local:9000 ".to_string()),
        access_key_id: " AKIA ".to_string(),
        secret_access_key: " secret ".to_string(),
        session_token: Some("   ".to_string()),
        ..Default::default()
    };
    assert_eq!(bucket_name(&config), "my-bucket");
    assert_eq!(region_name(&config), "eu-west-1");
    assert_eq!(normalized_endpoint(&config), Some("https://minio.local:9000".to_string()));
    let credentials = explicit_credentials(&config).expect("explicit credentials");
    assert_eq!(credentials.access_key_id, "AKIA");
    assert_eq!(credentials.secret_access_key, "secret");
    assert_eq!(credentials.session_token, None);
    let blank_endpoint = S3Config { endpoint_url: Some(" ".to_string()), ..config.clone() };
    assert_eq!(normalized_endpoint(&blank_endpoint), None);
    let with_token = S3Config { session_token: Some(" token ".to_string()), ..config.clone() };
    assert_eq!(explicit_credentials(&with_token).unwrap().session_token, Some("token".to_string()));
    let default_chain = S3Config { use_default_credentials: true, ..config };
    assert!(explicit_credentials(&default_chain).is_none());
}

#[test]
fn object_key_of_a_backup_names_it_again() {
    for prefix in ["", "/", " team/backups// ", "aqbot/backups"] {
        let name = "aqbot-backup-20260101_000000.laptop.zip";
        let key = object_key(prefix, name);
        assert!(!key.starts_with('/'));
        assert_eq!(backup_file_name_from_key(&normalize_prefix(prefix), &key), Some(name.to_string()));
    }
    assert_eq!(normalize_prefix(" team/backups// "), "team/backups/");
    assert_eq!(object_key("", "//a.zip"), "a.zip");
}

#[test]
fn sorting_keeps_every_file_and_equal_names_in_order() {
    let mut files = vec![
        file("aqbot-backup-20260101_000000.b.zip"),
        file("aqbot-backup-20260301_000000.a.zip"),
        file("aqbot-backup-20260201_000000.c.zip"),
        file("aqbot-backup-20260301_000000.a.zip"),
    ];
    files[1].size = 10;
    files[3].size = 20;
    sort_backup_files(&mut files);
    let names: Vec<&str> = files.iter().map(|f| f.file_name.as_str()).collect();
    assert_eq!(
        names,
        vec![
            "aqbot-backup-20260301_000000.a.zip",
            "aqbot-backup-20260301_000000.a.zip",
            "aqbot-backup-20260201_000000.c.zip",
            "aqbot-backup-20260101_000000.b.zip",
        ]
    );
    assert_eq!(files[0].size, 10);
    assert_eq!(files[1].size, 20);
    let mut empty: Vec<S3FileInfo> = Vec::new();
    sort_backup_files(&mut empty);
    assert!(empty.is_empty());
}

#[test]
fn dispatch_kinds_and_fallbacks_in_messages() {
    let timeout = S3RequestFailure {
        kind: S3FailureKind::Dispatch { is_timeout: true, is_io: true, is_user: false, connector_chain: None },
        source_chain: None,
        display: "dispatch failure".to_string(),
    };
    assert_eq!(
        format_s3_sdk_error("list backups", &timeout),
        "S3 list backups failed: network request failed (timeout). Check S3 endpoint, proxy, DNS, and network connectivity. Details: dispatch failure"
    );
    let user = S3RequestFailure {
        kind: S3FailureKind::Dispatch { is_timeout: false, is_io: false, is_user: true, connector_chain: Some(vec!["user error".to_string()]) },
        source_chain: None,
        display: "dispatch failure".to_string(),
    };
    assert!(format_s3_sdk_error("connection", &user).contains("(request)"));
    let other = S3RequestFailure {
        kind: S3FailureKind::Other,
        source_chain: Some(vec!["response error".to_string(), "bad body".to_string()]),
        display: "x".to_string(),
    };
    assert_eq!(format_s3_sdk_error("download", &other), "S3 download failed: response error: bad body");
    let blank_service = S3RequestFailure {
        kind: S3FailureKind::Service { code: None, message: Some("  ".to_string()), display: " ".to_string() },
        source_chain: None,
        display: "service error".to_string(),
    };
    assert_eq!(format_s3_sdk_error("delete", &blank_service), "S3 delete failed: service error");
}

#[test]
fn service_details_prefer_code_and_message() {
    let code = Some("NoSuchKey".to_string());
    let msg = Some("gone".to_string());
    let blank = Some(" ".to_string());
    let display = "display".to_string();
    assert_eq!(service_error_details(&code, &msg, &display), Some("NoSuchKey: gone".to_string()));
    assert_eq!(service_error_details(&code, &blank, &display), Some("NoSuchKey".to_string()));
    assert_eq!(service_error_details(&None, &msg, &display), Some("gone".to_string()));
    assert_eq!(service_error_details(&None, &None, &display), Some("display".to_string()));
    assert_eq!(service_error_details(&None, &blank, &" ".to_string()), None);
}

#[test]
fn error_chain_joins_causes() {
    assert_eq!(error_chain(&vec!["a".to_string(), "b".to_string(), "c".to_string()]), "a: b: c");
    assert_eq!(error_chain(&vec!["only".to_string()]), "only");
}

#[test]
fn backup_pages_keep_backups_and_pass_the_token_on() {
    let page = S3ListPage {
        objects: vec![
            S3ObjectSummary {
                key: Some("aqbot/backups/aqbot-backup-20260515_010203.host.zip".to_string()),
                size: Some(42),
                last_modified: Some("2026-05-15T01:02:03Z".to_string()),
            },
            S3ObjectSummary { key: None, size: Some(1), last_modified: None },
            S3ObjectSummary { key: Some("aqbot/backups/readme.txt".to_string()), size: None, last_modified: None },
            S3ObjectSummary {
                key: Some("aqbot/backups/aqbot-backup-20260516_010203.other.zip".to_string()),
                size: None,
                last_modified: None,
            },
        ],
        is_truncated: Some(true),
        next_continuation_token: Some("next".to_string()),
    };
    let mut files = Vec::new();
    let hostname = |name: &String| -> String { format!("host-of-{}", name.len()) };
    let token = collect_backup_page("aqbot/backups/", &page, &hostname, &mut files);
    assert_eq!(token, Some("next".to_string()));
    assert_eq!(files.len(), 2);
    assert_eq!(files[0].file_name, "aqbot-backup-20260515_010203.host.zip");
    assert_eq!(files[0].size, 42);
    assert_eq!(files[0].last_modified, "2026-05-15T01:02:03Z");
    assert_eq!(files[0].hostname, "host-of-37");
    assert_eq!(files[1].size, 0);
    assert_eq!(files[1].last_modified, "");
    let last = S3ListPage { objects: Vec::new(), is_truncated: Some(false), next_continuation_token: Some("x".to_string()) };
    assert_eq!(collect_backup_page("", &last, &hostname, &mut files), None);
    let untold = S3ListPage { objects: Vec::new(), is_truncated: None, next_continuation_token: None };
    assert_eq!(collect_backup_page("", &untold, &hostname, &mut files), None);
    assert_eq!(files.len(), 2);
}

#[test]
fn s3_requests_have_bounded_timeouts_and_extra_retries() {
    assert_eq!(S3_CONNECT_TIMEOUT_SECS, 10);
    assert_eq!(S3_READ_TIMEOUT_SECS, 30);
    assert_eq!(S3_OPERATION_ATTEMPT_TIMEOUT_SECS, 300);
    assert_eq!(S3_OPERATION_TIMEOUT_SECS, 900);
    assert_eq!(S3_MAX_ATTEMPTS, 5);
}
