use mapflow::catalog::{
    Catalog, ColumnMeta, DatasetTable, FileRecord, FileStatus, PublishError,
    PROCESSING_RECONCILIATION_ERROR,
};

fn uploaded_record(id: &str, name: &str) -> FileRecord {
    FileRecord {
        id: id.to_string(),
        name: name.to_string(),
        file_type: "geojson".to_string(),
        size: 42,
        uploaded_at: "2026-02-04T10:00:00Z".to_string(),
        status: FileStatus::Uploaded,
        crs: None,
        path: format!("./uploads/{}/{}.geojson", id, name),
        table_name: None,
        error: None,
        is_public: false,
    }
}

fn ready_catalog_with(id: &str) -> (Catalog, usize) {
    let mut catalog = Catalog::new();
    catalog.insert_record(uploaded_record(id, "points"));
    let k = catalog.find_file_index(id).unwrap();
    catalog.begin_processing(k);
    let table = DatasetTable {
        name: format!("layer_{}", id),
        columns: vec!["fid".to_string(), "geom".to_string(), "name".to_string()],
    };
    let rows = vec![ColumnMeta {
        source_id: id.to_string(),
        normalized_name: "name".to_string(),
        original_name: "Name".to_string(),
        ordinal: 3,
        logical_type: "VARCHAR".to_string(),
    }];
    catalog.complete_import(k, format!("layer_{}", id), table, rows);
    (catalog, k)
}

#[test]
fn import_lifecycle_reaches_ready() {
    let (catalog, k) = ready_catalog_with("ab12cd");
    assert!(matches!(catalog.files[k].status, FileStatus::Ready));
    assert_eq!(catalog.files[k].table_name.as_deref(), Some("layer_ab12cd"));
    assert_eq!(catalog.columns.len(), 1);
    assert_eq!(catalog.columns[0].normalized_name, "name");
}

#[test]
fn failed_import_keeps_error() {
    let mut catalog = Catalog::new();
    catalog.insert_record(uploaded_record("ff00aa", "broken"));
    let k = catalog.find_file_index("ff00aa").unwrap();
    catalog.begin_processing(k);
    catalog.mark_failed(k, "Spatial import failed: boom".to_string());
    assert!(matches!(catalog.files[k].status, FileStatus::Failed));
    assert_eq!(
        catalog.files[k].error.as_deref(),
        Some("Spatial import failed: boom")
    );
}

#[test]
fn reconcile_fails_processing_records() {
    let mut catalog = Catalog::new();
    catalog.insert_record(uploaded_record("aaaaaa", "one"));
    catalog.insert_record(uploaded_record("bbbbbb", "two"));
    let k = catalog.find_file_index("aaaaaa").unwrap();
    catalog.begin_processing(k);
    let swept = catalog.reconcile_processing_files();
    assert_eq!(swept, 1);
    let ka = catalog.find_file_index("aaaaaa").unwrap();
    let kb = catalog.find_file_index("bbbbbb").unwrap();
    assert!(matches!(catalog.files[ka].status, FileStatus::Failed));
    assert_eq!(
        catalog.files[ka].error.as_deref(),
        Some(PROCESSING_RECONCILIATION_ERROR)
    );
    assert!(matches!(catalog.files[kb].status, FileStatus::Uploaded));
    // running the sweep again is harmless
    let swept_again = catalog.reconcile_processing_files();
    assert_eq!(swept_again, 0);
}

#[test]
fn publish_requires_ready() {
    let mut catalog = Catalog::new();
    catalog.insert_record(uploaded_record("cc00ee", "raw"));
    let slug = "my-map".to_string();
    let r = catalog.publish("cc00ee", Some(&slug));
    match r {
        Err(e) => {
            assert!(matches!(e, PublishError::NotReady));
            assert_eq!(e.message(), "File is not ready for publishing");
        }
        Ok(_) => panic!("expected NotReady"),
    }
    let r2 = catalog.publish("nosuch", Some(&slug));
    assert!(matches!(r2, Err(PublishError::FileNotFound)));
}

#[test]
fn publish_then_republish_conflicts() {
    let (mut catalog, k) = ready_catalog_with("0a0a0a");
    let slug = "my-map".to_string();
    let resp = catalog.publish("0a0a0a", Some(&slug)).unwrap();
    assert_eq!(resp.slug, "my-map");
    assert_eq!(resp.url, "/tiles/my-map/{z}/{x}/{y}");
    assert!(resp.is_public);
    assert!(catalog.files[k].is_public);
    // publishing again under another slug reports the existing one
    let other = "x".to_string();
    match catalog.publish("0a0a0a", Some(&other)) {
        Err(e) => {
            assert!(matches!(e, PublishError::AlreadyPublished(ref existing) if existing == "my-map"));
            assert_eq!(
                e.message(),
                "File already published with slug 'my-map'. Unpublish first to change slug."
            );
        }
        Ok(_) => panic!("expected AlreadyPublished"),
    }
    // a different ready file cannot take the same slug
    let mut catalog2 = catalog;
    catalog2.insert_record(uploaded_record("0b0b0b", "other"));
    let k2 = catalog2.find_file_index("0b0b0b").unwrap();
    catalog2.begin_processing(k2);
    let table = DatasetTable {
        name: "layer_0b0b0b".to_string(),
        columns: vec!["fid".to_string(), "geom".to_string()],
    };
    catalog2.complete_import(k2, "layer_0b0b0b".to_string(), table, vec![]);
    let r = catalog2.publish("0b0b0b", Some(&slug));
    match r {
        Err(e) => {
            assert!(matches!(e, PublishError::SlugTaken));
            assert_eq!(e.message(), "Slug already in use");
        }
        Ok(_) => panic!("expected SlugTaken"),
    }
}

#[test]
fn publish_rejects_invalid_slug() {
    let (mut catalog, _) = ready_catalog_with("1b1b1b");
    let bad = "invalid slug!".to_string();
    match catalog.publish("1b1b1b", Some(&bad)) {
        Err(PublishError::InvalidSlug(msg)) => assert_eq!(
            msg,
            "Slug can only contain letters, numbers, hyphens, and underscores"
        ),
        _ => panic!("expected InvalidSlug"),
    }
    let long = "a".repeat(101);
    match catalog.publish("1b1b1b", Some(&long)) {
        Err(PublishError::InvalidSlug(msg)) => {
            assert_eq!(msg, "Slug must be 100 characters or less")
        }
        _ => panic!("expected InvalidSlug"),
    }
}

#[test]
fn publish_unpublish_publish_roundtrip() {
    let (mut catalog, k) = ready_catalog_with("2c2c2c");
    let slug = "my-map".to_string();
    catalog.publish("2c2c2c", Some(&slug)).unwrap();
    assert!(catalog.files[k].is_public);
    catalog.unpublish("2c2c2c").unwrap();
    assert!(!catalog.files[k].is_public);
    assert!(catalog.published.is_empty());
    let resp = catalog.publish("2c2c2c", Some(&slug)).unwrap();
    assert_eq!(resp.slug, "my-map");
    assert!(catalog.files[k].is_public);
}

#[test]
fn unpublish_unregistered_file_fails() {
    let (mut catalog, _) = ready_catalog_with("3d3d3d");
    assert!(catalog.unpublish("3d3d3d").is_err());
}

#[test]
fn default_slug_is_the_file_id() {
    let (mut catalog, _) = ready_catalog_with("4e4e4e");
    let resp = catalog.publish("4e4e4e", None).unwrap();
    assert_eq!(resp.slug, "4e4e4e");
    assert_eq!(resp.url, "/tiles/4e4e4e/{z}/{x}/{y}");
}

#[test]
fn initialization_flag_is_sticky() {
    let mut catalog = Catalog::new();
    assert!(!catalog.is_initialized());
    catalog.set_initialized();
    assert!(catalog.is_initialized());
}
