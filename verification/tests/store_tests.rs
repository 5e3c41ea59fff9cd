use base64::engine::general_purpose;
use base64::Engine;
use password_manager::errors::StoreError;
use password_manager::models::{Entry, Meta, Store};
use password_manager::store::{init_new_store, load_store};

fn fresh_store() -> Store {
    load_store(None).unwrap()
}

#[test]
fn load_absent_gives_fresh_empty_store() {
    let store = fresh_store();
    assert_eq!(store.entries.len(), 0);
    assert_eq!(store.meta.salt.len(), 44);
    let decoded = general_purpose::STANDARD.decode(&store.meta.salt).unwrap();
    assert_eq!(decoded.len(), 32);
}

#[test]
fn init_new_store_salts_differ() {
    let a = init_new_store().unwrap();
    let b = init_new_store().unwrap();
    assert_ne!(a.meta.salt, b.meta.salt);
}

#[test]
fn store_lifecycle_save_and_reload() {
    let mut store = fresh_store();
    store
        .add("alice".to_string(), "hunter2".to_string(), false, "")
        .unwrap();

    // serialize in the persisted JSON shape
    let mut entries_obj = serde_json::Map::new();
    for e in &store.entries {
        let mut eo = serde_json::Map::new();
        eo.insert(
            "username".to_string(),
            serde_json::Value::String(e.username.clone()),
        );
        eo.insert(
            "password".to_string(),
            serde_json::Value::String(e.password.clone()),
        );
        eo.insert("encrypted".to_string(), serde_json::Value::Bool(e.encrypted));
        eo.insert(
            "nonce".to_string(),
            match &e.nonce {
                Some(n) => serde_json::Value::String(n.clone()),
                None => serde_json::Value::Null,
            },
        );
        entries_obj.insert(e.username.clone(), serde_json::Value::Object(eo));
    }
    let mut meta_obj = serde_json::Map::new();
    meta_obj.insert(
        "salt".to_string(),
        serde_json::Value::String(store.meta.salt.clone()),
    );
    let mut root = serde_json::Map::new();
    root.insert("meta".to_string(), serde_json::Value::Object(meta_obj));
    root.insert("entries".to_string(), serde_json::Value::Object(entries_obj));
    let text = serde_json::Value::Object(root).to_string();

    // read it back
    let parsed: serde_json::Value = serde_json::from_str(&text).unwrap();
    let salt = parsed["meta"]["salt"].as_str().unwrap().to_string();
    let mut entries = Vec::new();
    for (k, v) in parsed["entries"].as_object().unwrap() {
        entries.push(Entry {
            username: k.clone(),
            password: v["password"].as_str().unwrap().to_string(),
            encrypted: v["encrypted"].as_bool().unwrap(),
            nonce: match &v["nonce"] {
                serde_json::Value::Null => None,
                other => Some(other.as_str().unwrap().to_string()),
            },
        });
    }
    let reloaded = load_store(Some(Store { meta: Meta { salt }, entries })).unwrap();
    assert_eq!(reloaded.entries.len(), 1);
    assert_eq!(reloaded.entries[0].username, "alice");
    assert_eq!(reloaded.entries[0].password, "hunter2");
    assert!(!reloaded.entries[0].encrypted);
    assert!(reloaded.entries[0].nonce.is_none());
    assert_eq!(reloaded.show("alice", "").unwrap(), "hunter2");
}

#[test]
fn duplicate_identifier_rejected() {
    let mut store = fresh_store();
    store
        .add("alice".to_string(), "hunter2".to_string(), false, "")
        .unwrap();
    let second = store.add("alice".to_string(), "other".to_string(), false, "");
    assert_eq!(second, Err(StoreError::DuplicateIdentifier));
    assert_eq!(store.entries.len(), 1);
    assert_eq!(store.show("alice", "").unwrap(), "hunter2");
}

#[test]
fn duplicate_check_is_case_sensitive() {
    let mut store = fresh_store();
    store
        .add("Alice".to_string(), "one".to_string(), false, "")
        .unwrap();
    store
        .add("alice".to_string(), "two".to_string(), false, "")
        .unwrap();
    assert_eq!(store.entries.len(), 2);
}

#[test]
fn lookup_is_case_insensitive() {
    let mut store = fresh_store();
    store
        .add("Alice".to_string(), "hunter2".to_string(), false, "")
        .unwrap();
    assert!(store.find("alice").is_some());
    assert_eq!(store.find("alice").unwrap().username, "Alice");
    assert_eq!(store.show("aLiCe", "ignored").unwrap(), "hunter2");
    store.rm("ALICE").unwrap();
    assert_eq!(store.entries.len(), 0);
}

#[test]
fn case_insensitive_removal_takes_first_match() {
    let mut store = fresh_store();
    store
        .add("Alice".to_string(), "one".to_string(), false, "")
        .unwrap();
    store
        .add("alice".to_string(), "two".to_string(), false, "")
        .unwrap();
    store.rm("ALICE").unwrap();
    assert_eq!(store.entries.len(), 1);
    assert_eq!(store.entries[0].username, "alice");
    assert_eq!(store.show("alice", "").unwrap(), "two");
}

#[test]
fn missing_entry_reported() {
    let mut store = fresh_store();
    assert_eq!(store.show("nobody", ""), Err(StoreError::NotFound));
    assert_eq!(store.rm("nobody"), Err(StoreError::NotFound));
    assert!(store.find("nobody").is_none());
}

#[test]
fn protected_add_then_show() {
    let mut store = fresh_store();
    store
        .add("alice".to_string(), "s3cret".to_string(), true, "master")
        .unwrap();
    assert_eq!(store.entries.len(), 1);
    assert!(store.entries[0].encrypted);
    assert!(store.entries[0].nonce.is_some());
    // the stored field is ciphertext, not the secret
    assert_ne!(store.entries[0].password, "s3cret");
    assert_eq!(store.show("alice", "master").unwrap(), "s3cret");
}

#[test]
fn protected_show_with_wrong_master_fails() {
    let mut store = fresh_store();
    store
        .add("alice".to_string(), "s3cret".to_string(), true, "master")
        .unwrap();
    assert_eq!(
        store.show("alice", "not master"),
        Err(StoreError::Authentication)
    );
}

#[test]
fn list_names_every_entry() {
    let mut store = fresh_store();
    store
        .add("alice".to_string(), "one".to_string(), false, "")
        .unwrap();
    store
        .add("bob".to_string(), "two".to_string(), false, "")
        .unwrap();
    let names = store.list();
    assert_eq!(names.len(), 2);
    assert!(names.iter().any(|n| n == "alice"));
    assert!(names.iter().any(|n| n == "bob"));
}

#[test]
fn load_rejects_record_without_nonce() {
    let good = fresh_store();
    let bad = Store {
        meta: Meta { salt: good.meta.salt.clone() },
        entries: vec![Entry {
            username: "alice".to_string(),
            password: "abc".to_string(),
            encrypted: true,
            nonce: None,
        }],
    };
    assert_eq!(load_store(Some(bad)).err(), Some(StoreError::Persistence));
}

#[test]
fn load_rejects_spurious_nonce() {
    let good = fresh_store();
    let bad = Store {
        meta: Meta { salt: good.meta.salt.clone() },
        entries: vec![Entry {
            username: "alice".to_string(),
            password: "abc".to_string(),
            encrypted: false,
            nonce: Some("AAAA".to_string()),
        }],
    };
    assert_eq!(load_store(Some(bad)).err(), Some(StoreError::Persistence));
}

#[test]
fn load_rejects_bad_salt() {
    let bad = Store {
        meta: Meta { salt: "!!!not a salt!!!".to_string() },
        entries: Vec::new(),
    };
    assert_eq!(load_store(Some(bad)).err(), Some(StoreError::Persistence));
    let short = Store {
        meta: Meta { salt: general_purpose::STANDARD.encode([1u8, 2, 3]) },
        entries: Vec::new(),
    };
    assert_eq!(load_store(Some(short)).err(), Some(StoreError::Persistence));
}

#[test]
fn load_rejects_duplicate_identifiers() {
    let good = fresh_store();
    let mk = |pw: &str| Entry {
        username: "alice".to_string(),
        password: pw.to_string(),
        encrypted: false,
        nonce: None,
    };
    let bad = Store {
        meta: Meta { salt: good.meta.salt.clone() },
        entries: vec![mk("one"), mk("two")],
    };
    assert_eq!(load_store(Some(bad)).err(), Some(StoreError::Persistence));
}

#[test]
fn load_accepts_well_formed_store() {
    let good = fresh_store();
    let salt = good.meta.salt.clone();
    let stored = Store {
        meta: Meta { salt: salt.clone() },
        entries: vec![Entry {
            username: "alice".to_string(),
            password: "hunter2".to_string(),
            encrypted: false,
            nonce: None,
        }],
    };
    let loaded = load_store(Some(stored)).unwrap();
    assert_eq!(loaded.meta.salt, salt);
    assert_eq!(loaded.entries.len(), 1);
}
