use client_core::RajeevVault;
use client_core::StoreOptions;
use client_core::StorageEngine;
use client_core::VaultConfig;
use client_core::VaultError;
use client_core::generate_encryption_key;
use client_core::hash_value;
use client_core::verify_hash;
use client_core::vault_store::StorageError;

fn create_test_engine() -> StorageEngine {
    StorageEngine::new("test-master-key-123")
}

fn now() -> i64 {
    1_700_000_000_000
}

#[test]
fn test_store_and_retrieve() {
    let mut engine = create_test_engine();
    engine.store_at("token", "my-secret", None, None, false, true, now()).unwrap();

    let value = engine.retrieve_at("token", None, false, now()).unwrap();
    assert_eq!(value, Some("my-secret".to_string()));
}

#[test]
fn test_store_with_namespace() {
    let mut engine = create_test_engine();
    engine.store_at("api_key", "key-1", Some("payments"), None, false, true, now()).unwrap();
    engine.store_at("api_key", "key-2", Some("health"), None, false, true, now()).unwrap();

    let v1 = engine.retrieve_at("api_key", Some("payments"), false, now()).unwrap();
    let v2 = engine.retrieve_at("api_key", Some("health"), false, now()).unwrap();

    assert_eq!(v1, Some("key-1".to_string()));
    assert_eq!(v2, Some("key-2".to_string()));
}

#[test]
fn test_key_not_found() {
    let mut engine = create_test_engine();
    let value = engine.retrieve_at("nonexistent", None, false, now()).unwrap();
    assert_eq!(value, None);
}

#[test]
fn mod_test_delete() {
    let mut engine = create_test_engine();
    engine.store_at("temp", "value", None, None, false, true, now()).unwrap();

    assert!(engine.delete("temp", None).unwrap());
    assert_eq!(engine.retrieve_at("temp", None, false, now()).unwrap(), None);
}

#[test]
fn test_exists() {
    let mut engine = create_test_engine();
    engine.store_at("exists-key", "value", None, None, false, true, now()).unwrap();

    assert!(engine.exists_at("exists-key", None, now()).unwrap());
    assert!(!engine.exists_at("no-key", None, now()).unwrap());
}

#[test]
fn test_list_keys() {
    let mut engine = create_test_engine();
    engine.store_at("alpha", "1", None, None, false, true, now()).unwrap();
    engine.store_at("beta", "2", None, None, false, true, now()).unwrap();
    engine.store_at("gamma", "3", None, None, false, true, now()).unwrap();

    let keys = engine.list_keys_at(None, now()).unwrap();
    assert_eq!(keys, vec!["alpha", "beta", "gamma"]);
}

#[test]
fn test_list_namespaces() {
    let mut engine = create_test_engine();
    engine.store_at("k1", "v1", Some("auth"), None, false, true, now()).unwrap();
    engine.store_at("k2", "v2", Some("payments"), None, false, true, now()).unwrap();

    let ns = engine.list_namespaces().unwrap();
    assert!(ns.contains(&"auth".to_string()));
    assert!(ns.contains(&"payments".to_string()));
}

#[test]
fn test_wipe_namespace() {
    let mut engine = create_test_engine();
    engine.store_at("k1", "v1", Some("temp"), None, false, true, now()).unwrap();
    engine.store_at("k2", "v2", Some("temp"), None, false, true, now()).unwrap();
    engine.store_at("k3", "v3", Some("keep"), None, false, true, now()).unwrap();

    engine.wipe_namespace("temp").unwrap();

    assert_eq!(engine.list_keys_at(Some("temp"), now()).unwrap().len(), 0);
    assert_eq!(engine.list_keys_at(Some("keep"), now()).unwrap().len(), 1);
}

#[test]
fn test_wipe_all() {
    let mut engine = create_test_engine();
    engine.store_at("k1", "v1", None, None, false, true, now()).unwrap();
    engine.store_at("k2", "v2", None, None, false, true, now()).unwrap();

    engine.wipe_all().unwrap();

    let stats = engine.get_stats_at(now()).unwrap();
    assert_eq!(stats.total_entries, 0);
}

#[test]
fn test_biometric_required() {
    let mut engine = create_test_engine();
    engine.store_at("pin", "1234", None, None, true, true, now()).unwrap();

    let result = engine.retrieve_at("pin", None, false, now());
    assert!(matches!(result, Err(StorageError::BiometricRequired)));

    let value = engine.retrieve_at("pin", None, true, now()).unwrap();
    assert_eq!(value, Some("1234".to_string()));
}

#[test]
fn test_non_exportable() {
    let mut engine = create_test_engine();
    engine.store_at("private", "secret", None, None, false, false, now()).unwrap();

    let result = engine.export_entry("private", None);
    assert!(matches!(result, Err(StorageError::NotExportable)));
}

#[test]
fn mod_test_stats() {
    let mut engine = create_test_engine();
    engine.store_at("k1", "v1", Some("ns1"), None, false, true, now()).unwrap();
    engine.store_at("k2", "v2", Some("ns2"), None, false, true, now()).unwrap();

    let stats = engine.get_stats_at(now()).unwrap();
    assert_eq!(stats.total_entries, 2);
    assert_eq!(stats.total_namespaces, 2);
}

#[test]
fn test_unicode_storage() {
    let mut engine = create_test_engine();
    let value = "\u{928}\u{92E}\u{938}\u{94D}\u{924}\u{947} \u{926}\u{941}\u{928}\u{93F}\u{92F}\u{93E} \u{1F1EE}\u{1F1F3}";
    engine.store_at("hindi", value, None, None, false, true, now()).unwrap();

    let out = engine.retrieve_at("hindi", None, false, now()).unwrap();
    assert_eq!(out, Some(value.to_string()));
}

#[test]
fn test_overwrite_existing_key() {
    let mut engine = create_test_engine();
    engine.store_at("key", "value1", None, None, false, true, now()).unwrap();
    engine.store_at("key", "value2", None, None, false, true, now()).unwrap();

    let value = engine.retrieve_at("key", None, false, now()).unwrap();
    assert_eq!(value, Some("value2".to_string()));
}

#[test]
fn test_expiry_and_cleanup() {
    let mut engine = create_test_engine();
    engine.store_at("short", "v", None, Some("30m"), false, true, now()).unwrap();
    assert!(engine.exists_at("short", None, now()).unwrap());
    let later = now() + 31 * 60 * 1000;
    assert!(!engine.exists_at("short", None, later).unwrap());
    let result = engine.retrieve_at("short", None, false, later);
    assert!(matches!(result, Err(StorageError::KeyExpired(_))));
    assert_eq!(engine.get_stats_at(later).unwrap().total_entries, 0);
}

#[test]
fn test_expiry_rejects_malformed() {
    let mut engine = create_test_engine();
    let bad = engine.store_at("k", "v", None, Some("30x"), false, true, now());
    assert!(matches!(bad, Err(StorageError::SerializationError(_))));
    let empty = engine.store_at("k", "v", None, Some("  "), false, true, now());
    assert!(matches!(empty, Err(StorageError::SerializationError(_))));
}

#[test]
fn test_overwrite_preserves_created_at() {
    let mut engine = create_test_engine();
    engine.store_at("key", "v1", None, None, false, true, 1_000).unwrap();
    engine.store_at("key", "v2", None, None, false, true, 2_000).unwrap();
    let exported = engine.export_entry("key", None).unwrap();
    assert!(exported.is_some());
    let stats = engine.get_stats_at(2_000).unwrap();
    assert_eq!(stats.total_entries, 1);
}

fn create_test_vault() -> RajeevVault {
    RajeevVault::new(VaultConfig {
        app_id: "test-app".to_string(),
        db_path: Some(":memory:".to_string()),
        encryption_algo: "AES-256-GCM".to_string(),
        biometric_available: false,
    })
    .unwrap()
}

fn plain_options(namespace: Option<&str>) -> StoreOptions {
    StoreOptions {
        expiry: None,
        biometric_required: false,
        exportable: true,
        namespace: namespace.map(|s| s.to_string()),
    }
}

#[test]
fn test_vault_store_retrieve() {
    let mut vault = create_test_vault();

    vault.store("token".to_string(), "secret-123".to_string(), plain_options(None)).unwrap();

    let value = vault.retrieve("token".to_string(), None, false).unwrap();
    assert_eq!(value, Some("secret-123".to_string()));
}

#[test]
fn test_vault_namespaces() {
    let mut vault = create_test_vault();

    vault.store("key".to_string(), "value-auth".to_string(), plain_options(Some("auth"))).unwrap();
    vault.store("key".to_string(), "value-pay".to_string(), plain_options(Some("payments"))).unwrap();

    let v1 = vault.retrieve("key".to_string(), Some("auth".to_string()), false).unwrap();
    let v2 = vault.retrieve("key".to_string(), Some("payments".to_string()), false).unwrap();

    assert_eq!(v1, Some("value-auth".to_string()));
    assert_eq!(v2, Some("value-pay".to_string()));
}

#[test]
fn test_vault_wipe_all() {
    let mut vault = create_test_vault();

    vault.store("k1".to_string(), "v1".to_string(), plain_options(None)).unwrap();

    vault.wipe_all().unwrap();
    let stats = vault.get_stats().unwrap();
    assert_eq!(stats.total_entries, 0);
}

#[test]
fn test_free_functions() {
    let key = generate_encryption_key();
    assert!(!key.is_empty());

    let hash = hash_value("password".to_string());
    assert!(verify_hash("password".to_string(), hash.clone()));
    assert!(!verify_hash("wrong".to_string(), hash));
}

#[test]
fn test_vault_delete() {
    let mut vault = create_test_vault();

    vault.store("temp".to_string(), "value".to_string(), plain_options(None)).unwrap();

    assert!(vault.delete("temp".to_string(), None).unwrap());
    assert_eq!(vault.retrieve("temp".to_string(), None, false).unwrap(), None);
}

#[test]
fn test_vault_exists() {
    let mut vault = create_test_vault();

    vault.store("exists-key".to_string(), "value".to_string(), plain_options(None)).unwrap();

    assert!(vault.has_key("exists-key".to_string(), None).unwrap());
    assert!(!vault.has_key("no-key".to_string(), None).unwrap());
}

#[test]
fn test_vault_unicode() {
    let mut vault = create_test_vault();

    vault.store("hindi".to_string(), "namaste duniya".to_string(), plain_options(None)).unwrap();

    let value = vault.retrieve("hindi".to_string(), None, false).unwrap();
    assert_eq!(value, Some("namaste duniya".to_string()));
}

#[test]
fn test_vault_biometric_gate() {
    let mut vault = create_test_vault();

    let options = StoreOptions {
        expiry: None,
        biometric_required: true,
        exportable: true,
        namespace: None,
    };
    vault.store("guarded".to_string(), "secret".to_string(), options).unwrap();

    let denied = vault.retrieve("guarded".to_string(), None, false);
    assert!(matches!(denied, Err(VaultError::BiometricRequired)));

    let allowed = vault.retrieve("guarded".to_string(), None, true).unwrap();
    assert_eq!(allowed, Some("secret".to_string()));
}
