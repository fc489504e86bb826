use blueos_recorder::config::{args, init_with, is_verbose, recorder_path, schema_path, zkey_config, Args};

#[test]
fn test_args_parsing() {
    // The values `program_name --verbose --recorder-path /custom/path`
    // parses to.
    let parsed = Args {
        verbose: true,
        recorder_path: "/custom/path".to_string(),
        schema_path: None,
        zkey: vec![],
    };
    assert_eq!(parsed.verbose, true);
    assert_eq!(parsed.recorder_path, "/custom/path");

    // The values `program_name --zkey potato=elefante --zkey
    // potato.coiso=fifi` parses to.
    let parsed = Args {
        verbose: false,
        recorder_path: "/tmp".to_string(),
        schema_path: None,
        zkey: vec!["potato=elefante".to_string(), "potato.coiso=fifi".to_string()],
    };
    assert_eq!(parsed.zkey, vec!["potato=elefante", "potato.coiso=fifi"]);

    // All arguments together.
    let parsed = Args {
        verbose: true,
        recorder_path: "/custom/path".to_string(),
        schema_path: None,
        zkey: vec![
            "eita".to_string(),
            "potato=elefante".to_string(),
            "potato.coiso=fifi".to_string(),
        ],
    };
    assert_eq!(parsed.verbose, true);
    assert_eq!(parsed.recorder_path, "/custom/path");
    assert_eq!(
        parsed.zkey,
        vec!["eita", "potato=elefante", "potato.coiso=fifi"]
    );

    let config = init_with(parsed);

    let kv = zkey_config(&config);
    assert_eq!(kv.get("eita"), None);
    assert_eq!(kv.get("potato"), Some(&"elefante".to_string()));
    assert_eq!(kv.get("potato.coiso"), Some(&"fifi".to_string()));
    assert_eq!(kv.len(), 2);
}

#[test]
fn accessors_return_configured_values() {
    let config = init_with(Args {
        verbose: true,
        recorder_path: "/data/recordings".to_string(),
        schema_path: Some("/data/schemas".to_string()),
        zkey: vec![],
    });
    assert!(is_verbose(&config));
    assert_eq!(recorder_path(&config), "/data/recordings");
    assert_eq!(schema_path(&config), Some("/data/schemas".to_string()));
    assert_eq!(args(&config).recorder_path, "/data/recordings");
}

#[test]
fn zkey_last_value_wins() {
    let config = init_with(Args {
        verbose: false,
        recorder_path: "/tmp".to_string(),
        schema_path: None,
        zkey: vec!["k=v1".to_string(), "k=v2".to_string(), "other=x".to_string()],
    });
    let kv = zkey_config(&config);
    assert_eq!(kv.get("k"), Some(&"v2".to_string()));
    assert_eq!(kv.get("other"), Some(&"x".to_string()));
    assert_eq!(kv.len(), 2);
}

#[test]
fn zkey_splits_on_first_equals() {
    let config = init_with(Args {
        verbose: false,
        recorder_path: "/tmp".to_string(),
        schema_path: None,
        zkey: vec!["key=a=b".to_string()],
    });
    let kv = zkey_config(&config);
    assert_eq!(kv.get("key"), Some(&"a=b".to_string()));
}
