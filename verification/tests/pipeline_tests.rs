use std::io::Write;

use mapflow::catalog::{Catalog, PublicTileError, TileGateError};
use mapflow::upload::file_type_from_name;
use mapflow::config::{cookie_secure_from, create_id, format_bytes, max_size_from_mb, split_cors_origins};
use mapflow::extension::{
    build_load_extension_sql, find_existing_local_spatial_extension_path,
    resolve_local_spatial_extension_candidates, LoaderAction, SpatialLoader,
};
use mapflow::ident::normalize_column_name;
use mapflow::import::{
    coerce_storage_type, complete_import_from_schema, geometry_renames, layer_table_name,
    plan_property_columns, spatial_read_path, TableColumn,
};
use mapflow::models::FileSchemaResponse;
use mapflow::publication::{classify_publish_conflict, publish_url, validate_slug, PublishConflict};
use mapflow::tiles::{build_feature_properties_sql, build_mvt_select_sql, tile_response, validate_tile_coords};
use mapflow::validation::{validate_geojson, validate_shapefile_entries, validate_shapefile_zip};

fn entry_list(names: &[&str]) -> Vec<Vec<char>> {
    names.iter().map(|n| n.chars().collect()).collect()
}

#[test]
fn normalize_keeps_safe_names() {
    assert_eq!(normalize_column_name("speed_limit").as_deref(), Some("speed_limit"));
    assert_eq!(normalize_column_name("Name").as_deref(), Some("name"));
}

#[test]
fn normalize_replaces_and_collapses() {
    assert_eq!(normalize_column_name("Max Speed (km/h)").as_deref(), Some("max_speed_km_h"));
    assert_eq!(normalize_column_name("  spaced out  ").as_deref(), Some("spaced_out"));
    assert_eq!(normalize_column_name("a__b___c").as_deref(), Some("a_b_c"));
}

#[test]
fn normalize_rescues_bad_starts_and_keywords() {
    assert_eq!(normalize_column_name("123abc").as_deref(), Some("col_123abc"));
    assert_eq!(normalize_column_name("select").as_deref(), Some("col_select"));
    assert_eq!(normalize_column_name("table!").as_deref(), Some("col_table"));
}

#[test]
fn normalize_rejects_empty_results() {
    assert_eq!(normalize_column_name(""), None);
    assert_eq!(normalize_column_name("   "), None);
    assert_eq!(normalize_column_name("!!!"), None);
}

#[test]
fn normalize_is_idempotent_on_samples() {
    for raw in ["Max Speed (km/h)", "123abc", "select", "a__b", "  Name "] {
        let once = normalize_column_name(raw).unwrap();
        let twice = normalize_column_name(&once).unwrap();
        assert_eq!(once, twice);
    }
}

#[test]
fn tile_coords_bounds() {
    assert!(validate_tile_coords(0, 0, 0));
    assert!(validate_tile_coords(10, 527, 351));
    assert!(validate_tile_coords(22, (1 << 22) - 1, 0));
    assert!(!validate_tile_coords(-1, 0, 0));
    assert!(!validate_tile_coords(0, 1, 0));
    assert!(!validate_tile_coords(1, 0, 2));
    assert!(!validate_tile_coords(23, 0, 0));
}

#[test]
fn slug_rules() {
    assert_eq!(validate_slug("my-map").unwrap(), "my-map");
    assert_eq!(validate_slug("  padded  ").unwrap(), "padded");
    assert_eq!(validate_slug("").unwrap_err(), "Slug cannot be empty");
    assert_eq!(validate_slug("   ").unwrap_err(), "Slug cannot be empty");
    assert_eq!(
        validate_slug(&"a".repeat(101)).unwrap_err(),
        "Slug must be 100 characters or less"
    );
    assert_eq!(
        validate_slug("invalid slug!").unwrap_err(),
        "Slug can only contain letters, numbers, hyphens, and underscores"
    );
}

#[test]
fn conflict_classification() {
    assert!(matches!(
        classify_publish_conflict("Constraint Error: PRIMARY KEY violated"),
        PublishConflict::AlreadyPublished
    ));
    assert!(matches!(
        classify_publish_conflict("Constraint Error: duplicate key file_id"),
        PublishConflict::AlreadyPublished
    ));
    assert!(matches!(
        classify_publish_conflict("UNIQUE constraint failed"),
        PublishConflict::SlugTaken
    ));
    assert!(matches!(
        classify_publish_conflict("column slug must be unique"),
        PublishConflict::SlugTaken
    ));
    assert!(matches!(
        classify_publish_conflict("disk full"),
        PublishConflict::Other
    ));
}

#[test]
fn url_template() {
    assert_eq!(publish_url("my-map"), "/tiles/my-map/{z}/{x}/{y}");
}

#[test]
fn shapefile_entry_rules() {
    assert_eq!(
        validate_shapefile_entries(&entry_list(&["readme.txt"])).unwrap_err(),
        "Missing .shp file in zip"
    );
    assert_eq!(
        validate_shapefile_entries(&entry_list(&["roads.shp", "roads.shx"])).unwrap_err(),
        "Shapefile zip must include .shp/.shx/.dbf with the same name"
    );
    assert!(validate_shapefile_entries(&entry_list(&[
        "roads.shp",
        "roads.shx",
        "roads.dbf",
        "roads.prj"
    ]))
    .is_ok());
}

#[test]
fn shapefile_zip_end_to_end() {
    let mut buf = std::io::Cursor::new(Vec::new());
    {
        let mut writer = zip::ZipWriter::new(&mut buf);
        let opts: zip::write::SimpleFileOptions =
            zip::write::SimpleFileOptions::default().compression_method(zip::CompressionMethod::Stored);
        writer.start_file("roads.shp", opts).unwrap();
        writer.write_all(b"shp").unwrap();
        writer.start_file("roads.shx", opts).unwrap();
        writer.write_all(b"shx").unwrap();
        writer.finish().unwrap();
    }
    let bytes = buf.into_inner();
    assert_eq!(
        validate_shapefile_zip(&bytes).unwrap_err(),
        "Shapefile zip must include .shp/.shx/.dbf with the same name"
    );
    assert_eq!(
        validate_shapefile_zip(&b"not a zip".to_vec()).unwrap_err(),
        "Unable to read zip file"
    );
}

#[test]
fn shapefile_zip_complete_set_passes() {
    let mut buf = std::io::Cursor::new(Vec::new());
    {
        let mut writer = zip::ZipWriter::new(&mut buf);
        let opts: zip::write::SimpleFileOptions =
            zip::write::SimpleFileOptions::default().compression_method(zip::CompressionMethod::Stored);
        for name in ["data/ROADS.SHP", "data/roads.shx", "data/Roads.dbf"] {
            writer.start_file(name, opts).unwrap();
            writer.write_all(b"x").unwrap();
        }
        writer.finish().unwrap();
    }
    assert!(validate_shapefile_zip(&buf.into_inner()).is_ok());
}

#[test]
fn geojson_validation() {
    assert!(validate_geojson("{ \"type\": \"FeatureCollection\", \"features\": [] }").is_ok());
    assert_eq!(validate_geojson("[1, 2, 3]").unwrap_err(), "Invalid GeoJSON");
    assert_eq!(validate_geojson("not json").unwrap_err(), "Invalid GeoJSON");
}

#[test]
fn mvt_sql_shape() {
    let columns = vec![mapflow::catalog::ColumnMeta {
        source_id: "ab12cd".to_string(),
        normalized_name: "name".to_string(),
        original_name: "Na\"me".to_string(),
        ordinal: 3,
        logical_type: "VARCHAR".to_string(),
    }];
    let sql = build_mvt_select_sql(&columns, "layer_ab12cd", "EPSG:4326");
    assert!(sql.starts_with("SELECT ST_AsMVT(feature, 'layer', 4096, 'geom', 'fid') FROM ("));
    assert!(sql.contains("ST_Transform(geom, 'EPSG:4326', 'EPSG:3857', always_xy := true)"));
    assert!(sql.contains("\"Na\"\"me\" := \"name\""));
    assert!(sql.contains("FROM \"layer_ab12cd\""));
    assert!(sql.contains("ST_TileEnvelope(?, ?, ?)"));
    let props = build_feature_properties_sql(&columns, "layer_ab12cd");
    assert_eq!(props, "SELECT \"name\" FROM \"layer_ab12cd\" WHERE fid = ?");
}

#[test]
fn empty_tile_bytes() {
    assert_eq!(tile_response(None), Vec::<u8>::new());
    assert_eq!(tile_response(Some(vec![1, 2, 3])), vec![1, 2, 3]);
}

#[test]
fn byte_labels() {
    assert_eq!(format_bytes(200 * 1024 * 1024), "200MB");
    assert_eq!(format_bytes(12 * 1024 * 1024), "12MB");
    assert_eq!(format_bytes(1024), "1KB");
    assert_eq!(format_bytes(3 * 1024 * 1024 * 1024), "3GB");
    assert_eq!(format_bytes(999), "999B");
    assert_eq!(format_bytes(1536), "1536B");
}

#[test]
fn max_size_defaulting() {
    let (bytes, label) = max_size_from_mb(None);
    assert_eq!(bytes, 200 * 1024 * 1024);
    assert_eq!(label, "200MB");
    let (bytes, label) = max_size_from_mb(Some(12));
    assert_eq!(bytes, 12 * 1024 * 1024);
    assert_eq!(label, "12MB");
    let (bytes, label) = max_size_from_mb(Some(0));
    assert_eq!(bytes, 200 * 1024 * 1024);
    assert_eq!(label, "200MB");
}

#[test]
fn cookie_and_cors_settings() {
    assert!(!cookie_secure_from(None));
    assert!(cookie_secure_from(Some(&"true".to_string())));
    assert!(!cookie_secure_from(Some(&"false".to_string())));
    assert!(!cookie_secure_from(Some(&"invalid".to_string())));
    let defaults = split_cors_origins(None);
    assert_eq!(defaults, vec!["http://localhost:5173", "http://localhost:3000"]);
    let custom = split_cors_origins(Some(&" https://a.example , , https://b.example".to_string()));
    assert_eq!(custom, vec!["https://a.example", "https://b.example"]);
}

#[test]
fn fresh_ids_are_six_hex_chars() {
    let id = create_id();
    assert_eq!(id.len(), 6);
    assert!(id.chars().all(|c| c.is_ascii_hexdigit() && !c.is_ascii_uppercase()));
}

#[test]
fn resolve_candidates_prefers_explicit_env_path() {
    let cwd = "/workspace/mapflow".to_string();
    let exe = "/opt/mapflow".to_string();
    let env_path = "/tmp/custom/spatial.duckdb_extension".to_string();
    let env_dir = "/tmp/custom-dir".to_string();
    let candidates = resolve_local_spatial_extension_candidates(
        Some(&env_path),
        Some(&env_dir),
        Some(&cwd),
        Some(&exe),
    );
    assert_eq!(candidates[0], "/tmp/custom/spatial.duckdb_extension");
    assert_eq!(candidates[1], "/tmp/custom-dir/spatial.duckdb_extension");
}

#[test]
fn find_existing_path_picks_first_existing_file() {
    let candidates = vec![
        "missing.duckdb_extension".to_string(),
        "first.duckdb_extension".to_string(),
        "second.duckdb_extension".to_string(),
    ];
    let exists = vec![false, true, true];
    let found = find_existing_local_spatial_extension_path(&candidates, &exists).expect("found");
    assert_eq!(found, "first.duckdb_extension");
}

#[test]
fn build_load_extension_sql_escapes_single_quotes() {
    let sql = build_load_extension_sql("/tmp/mapflow's/spatial.duckdb_extension");
    assert_eq!(sql, "LOAD '/tmp/mapflow''s/spatial.duckdb_extension';");
}

#[test]
fn loader_never_reinstalls_once_loaded() {
    let mut loader = SpatialLoader::new();
    assert!(matches!(loader.next_action(), LoaderAction::TryLoad));
    loader.observe(false);
    assert!(matches!(loader.next_action(), LoaderAction::TryLocalLoad));
    loader.observe(false);
    assert!(matches!(loader.next_action(), LoaderAction::InstallThenLoad));
    loader.observe(true);
    assert!(matches!(loader.next_action(), LoaderAction::Done));
    loader.observe(false);
    assert!(matches!(loader.next_action(), LoaderAction::Done));
}

#[test]
fn loader_gives_up_after_five_attempts() {
    let mut loader = SpatialLoader::new();
    loader.observe(false); // probe failed
    loader.observe(false); // local probe failed
    for attempt in 1..=4u64 {
        match loader.next_action() {
            LoaderAction::InstallThenLoad => assert_eq!(attempt, 1),
            LoaderAction::SleepThenInstall(ms) => assert_eq!(ms, 250 * (attempt - 1)),
            other => panic!("unexpected action {:?}", other),
        }
        loader.observe(false);
    }
    loader.observe(false);
    assert!(matches!(loader.next_action(), LoaderAction::GiveUp));
}

#[test]
fn storage_type_coercions() {
    assert_eq!(coerce_storage_type("VARCHAR"), ("VARCHAR".to_string(), false));
    assert_eq!(coerce_storage_type("SMALLINT"), ("INTEGER".to_string(), true));
    assert_eq!(coerce_storage_type("UBIGINT"), ("BIGINT".to_string(), true));
    assert_eq!(coerce_storage_type("BLOB"), ("VARCHAR".to_string(), true));
}

fn col(name: &str, dt: &str, ordinal: i64) -> TableColumn {
    TableColumn { name: name.to_string(), data_type: dt.to_string(), ordinal }
}

#[test]
fn import_plan_normalizes_and_dedups() {
    let schema = vec![
        col("fid", "BIGINT", 1),
        col("geom", "GEOMETRY", 2),
        col("Name", "VARCHAR", 3),
        col("name!", "VARCHAR", 4),
        col("count", "SMALLINT", 5),
    ];
    let plan = plan_property_columns("ab12cd", &schema);
    assert_eq!(plan.table_columns, vec!["fid", "geom", "name", "name_2", "count"]);
    assert_eq!(plan.rows.len(), 3);
    assert_eq!(plan.rows[0].normalized_name, "name");
    assert_eq!(plan.rows[0].original_name, "Name");
    assert_eq!(plan.rows[1].normalized_name, "name_2");
    assert_eq!(plan.rows[2].logical_type, "INTEGER");
    assert_eq!(plan.coercions.len(), 1);
    assert_eq!(plan.coercions[0].column, "count");
    assert_eq!(plan.coercions[0].target, "INTEGER");
}

#[test]
fn import_commit_through_catalog() {
    let mut catalog = Catalog::new();
    catalog.insert_record(mapflow::catalog::FileRecord {
        id: "beef01".to_string(),
        name: "roads".to_string(),
        file_type: "shapefile".to_string(),
        size: 10,
        uploaded_at: "2026-02-04T10:00:00Z".to_string(),
        status: mapflow::catalog::FileStatus::Uploaded,
        crs: None,
        path: "./uploads/beef01/roads.zip".to_string(),
        table_name: None,
        error: None,
        is_public: false,
    });
    let k = catalog.find_file_index("beef01").unwrap();
    catalog.begin_processing(k);
    let schema = vec![col("fid", "BIGINT", 1), col("geom", "GEOMETRY", 2), col("class", "VARCHAR", 3)];
    let plan = complete_import_from_schema(&mut catalog, k, "layer_beef01".to_string(), &schema)
        .expect("import should commit");
    assert_eq!(plan.rows.len(), 1);
    assert!(matches!(catalog.files[k].status, mapflow::catalog::FileStatus::Ready));
    assert_eq!(catalog.files[k].table_name.as_deref(), Some("layer_beef01"));
    // a schema without a geometry column is refused
    let mut catalog2 = Catalog::new();
    catalog2.insert_record(mapflow::catalog::FileRecord {
        id: "beef02".to_string(),
        name: "bare".to_string(),
        file_type: "geojson".to_string(),
        size: 10,
        uploaded_at: "2026-02-04T10:00:00Z".to_string(),
        status: mapflow::catalog::FileStatus::Uploaded,
        crs: None,
        path: "./uploads/beef02/bare.geojson".to_string(),
        table_name: None,
        error: None,
        is_public: false,
    });
    let k2 = catalog2.find_file_index("beef02").unwrap();
    catalog2.begin_processing(k2);
    let schema2 = vec![col("fid", "BIGINT", 1), col("class", "VARCHAR", 2)];
    assert!(complete_import_from_schema(&mut catalog2, k2, "layer_beef02".to_string(), &schema2).is_err());
}

#[test]
fn geometry_pass_renames_only_geometry_columns() {
    let schema = vec![
        col("wkb_geometry", "GEOMETRY", 1),
        col("geom", "GEOMETRY", 2),
        col("name", "VARCHAR", 3),
    ];
    let renames = geometry_renames(&schema);
    assert_eq!(renames, vec!["wkb_geometry"]);
}

#[test]
fn spatial_paths_and_table_names() {
    assert_eq!(spatial_read_path("/data/u/roads.zip", true), "/vsizip//data/u/roads.zip");
    assert_eq!(spatial_read_path("/data/u/p.geojson", false), "/data/u/p.geojson");
    assert_eq!(layer_table_name("ab12cd"), "layer_ab12cd");
}

#[test]
fn schema_response_lists_fields_in_order() {
    let resp = FileSchemaResponse {
        fields: vec![
            mapflow::models::FieldInfo { name: "name".to_string(), data_type: "VARCHAR".to_string() },
            mapflow::models::FieldInfo { name: "count".to_string(), data_type: "INTEGER".to_string() },
        ],
    };
    assert_eq!(resp.fields.len(), 2);
    assert_eq!(resp.fields[0].name, "name");
    assert_eq!(resp.fields[1].data_type, "INTEGER");
}


#[test]
fn tile_gates() {
    let mut catalog = mapflow::catalog::Catalog::new();
    catalog.insert_record(mapflow::catalog::FileRecord {
        id: "aa11bb".to_string(),
        name: "points".to_string(),
        file_type: "geojson".to_string(),
        size: 42,
        uploaded_at: "2026-02-04T10:00:00Z".to_string(),
        status: mapflow::catalog::FileStatus::Uploaded,
        crs: None,
        path: "./uploads/aa11bb/points.geojson".to_string(),
        table_name: None,
        error: None,
        is_public: false,
    });
    assert!(matches!(
        catalog.resolve_tile_source("no-such-id"),
        Err(TileGateError::FileNotFound)
    ));
    assert!(matches!(
        catalog.resolve_tile_source("aa11bb"),
        Err(TileGateError::NotReady)
    ));
    let k = catalog.find_file_index("aa11bb").unwrap();
    catalog.begin_processing(k);
    let table = mapflow::catalog::DatasetTable {
        name: "layer_aa11bb".to_string(),
        columns: vec!["fid".to_string(), "geom".to_string()],
    };
    catalog.complete_import(k, "layer_aa11bb".to_string(), table, vec![]);
    let (crs, table_name) = catalog.resolve_tile_source("aa11bb").unwrap();
    assert_eq!(crs, "EPSG:4326");
    assert_eq!(table_name, "layer_aa11bb");

    assert!(matches!(
        catalog.resolve_public_tile("my-map"),
        Err(PublicTileError::PublicTileNotFound)
    ));
    let slug = "my-map".to_string();
    catalog.publish("aa11bb", Some(&slug)).unwrap();
    let (crs, table_name) = catalog.resolve_public_tile("my-map").unwrap();
    assert_eq!(crs, "EPSG:4326");
    assert_eq!(table_name, "layer_aa11bb");
    catalog.unpublish("aa11bb").unwrap();
    assert!(matches!(
        catalog.resolve_public_tile("my-map"),
        Err(PublicTileError::PublicTileNotFound)
    ));
}

#[test]
fn file_type_mapping() {
    assert_eq!(file_type_from_name("roads.zip").as_deref(), Some("shapefile"));
    assert_eq!(file_type_from_name("points.GeoJSON").as_deref(), Some("geojson"));
    assert_eq!(file_type_from_name("a.json").as_deref(), Some("geojson"));
    assert_eq!(file_type_from_name("a.geojsonl").as_deref(), Some("geojsonl"));
    assert_eq!(file_type_from_name("a.geojsons").as_deref(), Some("geojsonl"));
    assert_eq!(file_type_from_name("route.kml").as_deref(), Some("kml"));
    assert_eq!(file_type_from_name("trace.gpx").as_deref(), Some("gpx"));
    assert_eq!(file_type_from_name("map.topojson").as_deref(), Some("topojson"));
    assert_eq!(file_type_from_name("readme.txt"), None);
    assert_eq!(file_type_from_name("no_extension"), None);
    assert_eq!(file_type_from_name(".hidden"), None);
}
