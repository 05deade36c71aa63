use mapflow::auth::{authenticate_record, AuthError, User};
use mapflow::graph::{Config, Edge, Node, XyzLayerRef};
use mapflow::graph_verify::ConfigService;
use mapflow::mbtiles::{
    metadata_from_rows, normalize_tile_format, parse_i32, strip_dot_slash, tms_y, MetadataRow,
};
use mapflow::password::hash_password;
use mapflow::session::{SessionRecord, SessionTable};
use mapflow::upload::{normalize_srid_override, parse_srid_from_wkt, sanitize_base_name, ShapefileParts};

#[test]
fn test_config_crud() {
    let mut config = Config::new();
    assert_eq!(config.nodes.len(), 0);

    let node = Node::new_resource(
        "test".to_string(),
        None,
        vec!["test.shp".to_string()],
        1000,
        "4326".to_string(),
        "test_table".to_string(),
    );
    let node_id = node.id.clone();
    config.add_node(node);
    assert_eq!(config.nodes.len(), 1);

    let found = config.find_node(&node_id);
    assert!(found.is_some());

    config.remove_node(&node_id);
    assert_eq!(config.nodes.len(), 0);
}

#[test]
fn test_edge_crud() {
    let mut config = Config::new();
    let edge = Edge::new("node1".to_string(), "node2".to_string());
    let edge_id = edge.id.clone();
    config.add_edge(edge);
    assert_eq!(config.edges.len(), 1);

    config.remove_edge(&edge_id);
    assert_eq!(config.edges.len(), 0);
}

#[test]
fn test_verify_valid_config() {
    let service = ConfigService::new(Vec::new());

    let mut config = Config::new();
    let resource = Node::new_resource(
        "shanghai".to_string(),
        None,
        vec!["test.shp".to_string()],
        1000,
        "4326".to_string(),
        "test_table".to_string(),
    );
    let resource_id = resource.id.clone();
    config.add_node(resource);

    let layer = Node::new_layer(
        "buildings".to_string(),
        None,
        resource_id.clone(),
        Some(vec!["name".to_string()]),
        10,
        18,
    );
    let layer_id = layer.id.clone();
    config.add_node(layer);

    let xyz = Node::new_xyz(
        "shanghai_tiles".to_string(),
        None,
        vec![121_473_700, 31_230_400, 12_000_000],
        0,
        22,
        12,
        vec![-180_000_000, -85_051_100, 180_000_000, 85_051_100],
        vec![XyzLayerRef {
            id: "layer_buildings".to_string(),
            source_layer_id: layer_id.clone(),
        }],
    );
    let xyz_id = xyz.id.clone();
    config.add_node(xyz);

    config.add_edge(Edge::new(resource_id, layer_id.clone()));
    config.add_edge(Edge::new(layer_id, xyz_id));

    let result = service.verify(&config);
    assert!(result.valid);
    assert!(result.errors.is_empty());
}

#[test]
fn test_verify_duplicate_node_ids() {
    let service = ConfigService::new(Vec::new());

    let mut config = Config::new();
    let node1 = Node::new_resource(
        "test1".to_string(),
        None,
        vec!["test1.shp".to_string()],
        1000,
        "4326".to_string(),
        "table1".to_string(),
    );
    let mut node2 = Node::new_resource(
        "test2".to_string(),
        None,
        vec!["test2.shp".to_string()],
        1000,
        "4326".to_string(),
        "table2".to_string(),
    );
    node2.id = node1.id.clone();

    config.add_node(node1);
    config.add_node(node2);

    let result = service.verify(&config);
    assert!(!result.valid);
    assert!(result
        .errors
        .iter()
        .any(|e| e.message.contains("Duplicate")));
}

#[test]
fn test_verify_rejects_wrong_direction() {
    let service = ConfigService::new(Vec::new());
    let mut config = Config::new();
    let resource = Node::new_resource(
        "r".to_string(),
        None,
        vec!["r.shp".to_string()],
        1,
        "4326".to_string(),
        "t".to_string(),
    );
    let resource_id = resource.id.clone();
    let xyz = Node::new_xyz(
        "x".to_string(),
        None,
        vec![0, 0, 0],
        0,
        22,
        0,
        vec![-1, -1, 1, 1],
        vec![],
    );
    let xyz_id = xyz.id.clone();
    config.add_node(resource);
    config.add_node(xyz);
    config.add_edge(Edge::new(resource_id, xyz_id));
    let result = service.verify(&config);
    assert!(!result.valid);
}

#[test]
fn test_parse_srid_from_wkt() {
    let wkt = r#"GEOGCS["WGS 84",DATUM["WGS_1984",SPHEROID["WGS 84",6378137,298.257223563,AUTHORITY["EPSG","7030"]],AUTHORITY["EPSG","6326"]],PRIMEM["Greenwich",0,AUTHORITY["EPSG","8901"]],UNIT["degree",0.0174532925199433,AUTHORITY["EPSG","9122"]],AUTHORITY["EPSG","4326"]]"#;
    let srid = parse_srid_from_wkt(wkt).unwrap();
    assert_eq!(srid, "4326");
}

#[test]
fn test_parse_srid_web_mercator() {
    let wkt = r#"PROJCS["WGS 84 / Pseudo-Mercator",GEOGCS["WGS 84",DATUM["WGS_1984",SPHEROID["WGS 84",6378137,298.257223563,AUTHORITY["EPSG","7030"]],AUTHORITY["EPSG","6326"]],PRIMEM["Greenwich",0,AUTHORITY["EPSG","8901"]],UNIT["degree",0.0174532925199433,AUTHORITY["EPSG","9122"]],AUTHORITY["EPSG","4326"]],PROJECTION["Mercator_1SP"],PARAMETER["central_meridian",0],PARAMETER["scale_factor",1],PARAMETER["false_easting",0],PARAMETER["false_northing",0],UNIT["metre",1,AUTHORITY["EPSG","9001"]],AXIS["Easting",EAST],AXIS["Northing",NORTH],AUTHORITY["EPSG","3857"]]"#;
    let srid = parse_srid_from_wkt(wkt).unwrap();
    assert_eq!(srid, "3857");
}

#[test]
fn parse_srid_fallbacks() {
    assert_eq!(parse_srid_from_wkt("PROJCS[\"WGS 84 / Pseudo-Mercator\"").unwrap(), "3857");
    assert_eq!(parse_srid_from_wkt("something with wgs 84 inside").unwrap(), "4326");
    assert_eq!(
        parse_srid_from_wkt("no projection here").unwrap_err(),
        "Could not auto-detect SRID from .prj; please provide SRID override"
    );
}

#[test]
fn srid_override_rules() {
    assert_eq!(normalize_srid_override(" EPSG:4326 ").unwrap(), "4326");
    assert_eq!(normalize_srid_override("3857").unwrap(), "3857");
    assert!(normalize_srid_override("EPSG:").is_err());
    assert!(normalize_srid_override("not-a-code").is_err());
}

#[test]
fn base_name_sanitizing_and_paths() {
    assert_eq!(sanitize_base_name("my map-data"), "my_map_data");
    let parts = ShapefileParts {
        base_name: "roads".to_string(),
        shp: "a/roads.shp".to_string(),
        shx: "a/roads.shx".to_string(),
        dbf: "a/roads.dbf".to_string(),
        prj: Some("a/roads.prj".to_string()),
        cpg: None,
    };
    let paths = parts.all_paths();
    assert_eq!(paths, vec!["a/roads.shp", "a/roads.shx", "a/roads.dbf", "a/roads.prj"]);
}

#[test]
fn mbtiles_rules() {
    assert_eq!(parse_i32("12"), Some(12));
    assert_eq!(parse_i32("-3"), Some(-3));
    assert_eq!(parse_i32("+7"), Some(7));
    assert_eq!(parse_i32("2147483647"), Some(i32::MAX));
    assert_eq!(parse_i32("-2147483648"), Some(i32::MIN));
    assert_eq!(parse_i32("2147483648"), None);
    assert_eq!(parse_i32(""), None);
    assert_eq!(parse_i32("12a"), None);

    let rows = vec![
        MetadataRow { key: "format".to_string(), value: "pbf".to_string() },
        MetadataRow { key: "minzoom".to_string(), value: "0".to_string() },
        MetadataRow { key: "maxzoom".to_string(), value: "14".to_string() },
        MetadataRow { key: "bounds".to_string(), value: "-180,-85,180,85".to_string() },
        MetadataRow { key: "ignored".to_string(), value: "x".to_string() },
    ];
    let meta = metadata_from_rows(&rows);
    assert_eq!(meta.format, "pbf");
    assert_eq!(meta.minzoom, Some(0));
    assert_eq!(meta.maxzoom, Some(14));
    assert_eq!(meta.bounds.as_deref(), Some("-180,-85,180,85"));

    assert_eq!(normalize_tile_format("pbf").as_deref(), Some("mvt"));
    assert_eq!(normalize_tile_format("jpeg").as_deref(), Some("png"));
    assert_eq!(normalize_tile_format("webp"), None);

    assert_eq!(tms_y(2, 1), 2);
    assert_eq!(tms_y(0, 0), 0);

    assert_eq!(strip_dot_slash("./uploads/a/b.mbtiles"), "uploads/a/b.mbtiles");
    assert_eq!(strip_dot_slash("/abs/path"), "/abs/path");
}

#[test]
fn sessions_upsert_load_delete() {
    let mut table = SessionTable::new();
    table.save(SessionRecord {
        id: "sess-1".to_string(),
        data: "{\"user_id\":\"123\"}".to_string(),
        expiry_unix: 1000,
    });
    assert!(table.load("sess-1", 500).is_some());
    assert!(table.load("sess-1", 1500).is_none(), "Expired session should return None");
    assert!(table.load("missing", 0).is_none());

    table.save(SessionRecord {
        id: "sess-1".to_string(),
        data: "{\"new_key\":\"new_value\"}".to_string(),
        expiry_unix: 2000,
    });
    let rec = table.load("sess-1", 1500).expect("updated session is visible");
    assert!(rec.data.contains("new_value"));
    assert_eq!(table.records.len(), 1);

    table.delete("sess-1");
    assert!(table.load("sess-1", 0).is_none());
    table.delete("sess-1");
}

#[test]
fn authentication_decisions() {
    let hash = hash_password("Test123!@#").unwrap();
    let dummy = hash_password("dummy_password_for_timing_attack").unwrap();
    let user = User {
        id: "u1".to_string(),
        username: "testuser".to_string(),
        password_hash: hash,
        role: "admin".to_string(),
    };
    match authenticate_record(Some(user), "Test123!@#", &dummy) {
        Ok(u) => assert_eq!(u.username, "testuser"),
        Err(_) => panic!("expected success"),
    }
    let user2 = User {
        id: "u1".to_string(),
        username: "testuser".to_string(),
        password_hash: hash_password("Test123!@#").unwrap(),
        role: "admin".to_string(),
    };
    assert!(matches!(
        authenticate_record(Some(user2), "WrongPassword123!", &dummy),
        Err(AuthError::InvalidCredentials)
    ));
    assert!(matches!(
        authenticate_record(None, "anything", &dummy),
        Err(AuthError::InvalidCredentials)
    ));
    // a found user whose stored hash is malformed yields the hashing error
    let broken = User {
        id: "u2".to_string(),
        username: "corrupt".to_string(),
        password_hash: "not a bcrypt hash".to_string(),
        role: "admin".to_string(),
    };
    assert!(matches!(
        authenticate_record(Some(broken), "Test123!@#", &dummy),
        Err(AuthError::PasswordHash(_))
    ));
}

#[test]
fn timing_equalization_ratio() {
    let hash = hash_password("Test123!@#").unwrap();
    let dummy = hash_password("dummy_password_for_timing_attack").unwrap();
    let mut wrong_pw_total = std::time::Duration::ZERO;
    let mut no_user_total = std::time::Duration::ZERO;
    for _ in 0..3 {
        let user = User {
            id: "u1".to_string(),
            username: "existinguser".to_string(),
            password_hash: hash.clone(),
            role: "admin".to_string(),
        };
        let t = std::time::Instant::now();
        let r = authenticate_record(Some(user), "WrongPassword123!", &dummy);
        wrong_pw_total += t.elapsed();
        assert!(matches!(r, Err(AuthError::InvalidCredentials)));

        let t = std::time::Instant::now();
        let r = authenticate_record(None, "WrongPassword123!", &dummy);
        no_user_total += t.elapsed();
        assert!(matches!(r, Err(AuthError::InvalidCredentials)));
    }
    let a = wrong_pw_total.as_secs_f64();
    let b = no_user_total.as_secs_f64();
    let ratio = if a > b { a / b } else { b / a };
    assert!(ratio < 2.0, "timing ratio too large");
}
