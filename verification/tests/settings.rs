use std::collections::HashMap;

use ma_irc::acl::is_allowed;
use ma_irc::config::{CoreSettings, RuntimeConfig};
use ma_irc::did_publish::{check_document_did, key_parts};
use ma_irc::kubo::{api_url, put_cid};
use ma_irc::root_publish::{
    persist_root_cid, root_cid_setting, root_publish_interval, superseded_cid,
};

fn load_transport_acl_from_yaml(yaml: &str) -> Result<ma_core::AclMap, String> {
    let mut parsed: HashMap<String, ma_core::AclMap> =
        serde_yaml::from_str(yaml).map_err(|error| error.to_string())?;
    parsed.remove("acl").ok_or_else(|| "missing acl".to_string())
}

fn core_settings(config: ma_core::config::Config) -> CoreSettings {
    CoreSettings {
        slug: config.slug,
        kubo_rpc_url: config.kubo_rpc_url,
        extra: config.extra,
    }
}

fn settings_from(yaml: &str) -> CoreSettings {
    core_settings(ma_core::config::Config::from_yaml_str(yaml).expect("ma-core config"))
}

#[test]
fn transport_acl_uses_ma_core_semantics() {
    let yaml = r#"
acl:
  "*": [rpc]
  "did:ma:blocked": null
"#;
    let acl = load_transport_acl_from_yaml(yaml).expect("acl parse");
    assert!(is_allowed(&acl, "did:ma:anyone", "rpc"));
    assert!(!is_allowed(&acl, "did:ma:blocked", "rpc"));
}

#[test]
fn acl_entries_are_looked_up_by_principal() {
    let yaml = r##"
acl:
  "did:ma:admin": ["*"]
  "did:ma:reader": [inbox]
  "#": [ipfs]
"##;
    let acl = load_transport_acl_from_yaml(yaml).expect("acl parse");
    // The fragment of a DID does not count, and `*` grants everything.
    assert!(is_allowed(&acl, "did:ma:admin#phone", "rpc"));
    assert!(is_allowed(&acl, "did:ma:reader", "inbox"));
    assert!(!is_allowed(&acl, "did:ma:reader", "rpc"));
    // Local entities share an entry.
    assert!(is_allowed(&acl, "#concourse", "ipfs"));
    assert!(!is_allowed(&acl, "#concourse", "rpc"));
    // Who has no entry has nothing.
    assert!(!is_allowed(&acl, "did:ma:stranger", "inbox"));
}

#[test]
fn runtime_config_defaults_use_irc_slug_and_status_port() {
    let cfg = RuntimeConfig::default();
    assert_eq!(cfg.slug, "irc");
    assert_eq!(cfg.status_bind, "127.0.0.1:5667");
    assert_eq!(cfg.kubo_rpc_url, "http://127.0.0.1:5001");
}

#[test]
fn runtime_config_reads_irc_settings_from_ma_core_extras() {
    let core = settings_from(
        r#"
slug: irc
status_bind: 127.0.0.1:6000
owners: [did:ma:owner]
acl_file: transport.acl.yaml
"#,
    );

    let cfg = RuntimeConfig::from_core(&core).expect("IRC config");
    assert_eq!(cfg.status_bind, "127.0.0.1:6000");
    assert_eq!(cfg.owners, ["did:ma:owner"]);
    assert_eq!(
        cfg.acl_file.as_deref().map(std::path::Path::new),
        Some(std::path::Path::new("transport.acl.yaml"))
    );
}

#[test]
fn unset_settings_take_their_defaults() {
    let cfg = RuntimeConfig::from_core(&settings_from("slug: lounge\n")).expect("IRC config");
    assert_eq!(cfg.slug, "lounge");
    assert_eq!(cfg.status_bind, "127.0.0.1:5667");
    assert!(cfg.owners.is_empty());
    assert_eq!(cfg.acl_file, None);
}

#[test]
fn unreadable_settings_are_named() {
    let refused = |yaml: &str| {
        RuntimeConfig::from_core(&settings_from(yaml))
            .expect_err("unreadable setting")
            .message()
            .to_string()
    };
    assert_eq!(
        refused("slug: irc\nstatus_bind: [1]\nowners: 5\n"),
        "parsing config key 'status_bind'"
    );
    assert_eq!(refused("slug: irc\nowners: 5\n"), "parsing config key 'owners'");
    assert_eq!(
        refused("slug: irc\nacl_file: {a: b}\n"),
        "parsing config key 'acl_file'"
    );
}

#[test]
fn root_cid_is_noted_and_read_back() {
    let mut extra = serde_yaml::Mapping::new();
    assert_eq!(root_cid_setting(&extra), None);
    assert_eq!(superseded_cid(&extra, "bafy1"), None);

    assert!(persist_root_cid(&mut extra, "bafy1"));
    assert_eq!(root_cid_setting(&extra).as_deref(), Some("bafy1"));
    // The same head again changes nothing and retires nothing.
    assert!(!persist_root_cid(&mut extra, "bafy1"));
    assert_eq!(superseded_cid(&extra, "bafy1"), None);

    // A new head retires the previous one.
    assert_eq!(superseded_cid(&extra, "bafy2").as_deref(), Some("bafy1"));
    assert!(persist_root_cid(&mut extra, "bafy2"));
    assert_eq!(root_cid_setting(&extra).as_deref(), Some("bafy2"));
}

#[test]
fn root_cid_setting_ignores_blank_values() {
    assert_eq!(root_cid_setting(&settings_from("root_cid: '  '\n").extra), None);
    assert_eq!(root_cid_setting(&settings_from("root_cid: 7\n").extra), None);
    assert_eq!(
        root_cid_setting(&settings_from("root_cid: ' bafy '\n").extra).as_deref(),
        Some("bafy")
    );
}

#[test]
fn publish_interval_is_positive() {
    let interval = |yaml: &str| root_publish_interval(&settings_from(yaml).extra);
    assert_eq!(interval("slug: irc\n"), 300);
    assert_eq!(interval("root_publish_interval_secs: 60\n"), 60);
    assert_eq!(interval("root_publish_interval_secs: 0\n"), 300);
    assert_eq!(interval("root_publish_interval_secs: -5\n"), 300);
    assert_eq!(interval("root_publish_interval_secs: soon\n"), 300);
}

#[test]
fn kubo_addresses_have_one_slash() {
    assert_eq!(
        api_url("http://127.0.0.1:5001//", "dag/put"),
        "http://127.0.0.1:5001/api/v0/dag/put"
    );
    assert_eq!(api_url("http://h", "pin/rm"), "http://h/api/v0/pin/rm");
}

#[test]
fn put_cid_takes_either_spelling() {
    let upper = put_cid(Some("a".to_string()), Some("b".to_string()), "{}");
    assert_eq!(upper.expect("cid"), "a");
    let lower = put_cid(None, Some("b".to_string()), "{}");
    assert_eq!(lower.expect("cid"), "b");
    let missing = put_cid(None, None, "{}").expect_err("no cid");
    assert_eq!(missing.message(), "missing CID in dag/put response: {}");
}

#[test]
fn published_document_is_the_runtimes_own() {
    assert!(check_document_did("did:ma:rt", "did:ma:rt").is_ok());
    let error = check_document_did("did:ma:x", "did:ma:rt").expect_err("foreign document");
    assert_eq!(
        error.message(),
        "generated document DID 'did:ma:x' does not match runtime DID 'did:ma:rt'"
    );
    assert_eq!(key_parts("irc"), ["runtime", "irc"]);
}
