use flate2::write::GzEncoder;
use flate2::Compression;
use std::io::Write;
use vista_sdk::dto::{GmodDto, GmodNodeDto};
use vista_sdk::error::{LoadResourceError, VisError};
use vista_sdk::resources::{
    deserialize_gmod_dto, exclude, get_asset, get_files, get_gmod_dto, get_vis_versions,
    load_definition, Asset,
};
use vista_sdk::version::VisVersion;
use vista_sdk::vis::Vis;

const GMOD_3_4A: &str = r#"{
  "visRelease": "3-4a",
  "items": [
    {"category": "ASSET", "type": "TYPE", "code": "VE", "name": "Vessel", "commonName": null,
     "definition": "The whole asset", "commonDefinition": null, "installSubstructure": null,
     "normalAssignmentNames": null},
    {"category": "ASSET FUNCTION", "type": "GROUP", "code": "300a", "name": "Function group"},
    {"category": "ASSET FUNCTION", "type": "GROUP", "code": "400a", "name": "Second group",
     "installSubstructure": true},
    {"category": "ASSET FUNCTION", "type": "LEAF", "code": "100a", "name": "Propulsion",
     "normalAssignmentNames": {"C101": "Engine", "B2": "Boiler"}},
    {"category": "PRODUCT", "type": "TYPE", "code": "200a", "name": "Engine type"},
    {"category": "PRODUCT FUNCTION", "type": "COMPOSITION", "code": "410", "name": "Driver"},
    {"category": "PRODUCT", "type": "SELECTION", "code": "411s", "name": "Driver selection"},
    {"category": "ASSET FUNCTION", "type": "LEAF", "code": "500", "name": "Shared"},
    {"category": "ASSET FUNCTION", "type": "LEAF", "code": "499", "name": "Left out"}
  ],
  "relations": [
    ["VE", "300a"], ["VE", "400a"], ["300a", "100a"], ["100a", "200a"], ["400a", "410"],
    ["410", "411s"], ["300a", "500"], ["400a", "500"], ["400a", "499"]
  ]
}"#;

const GMOD_3_5A: &str = r#"{"vis_release": "3-5a",
  "items": [{"category": "ASSET", "node_type": "TYPE", "code": "VE"}],
  "relations": []}"#;

fn gz(text: &str) -> Vec<u8> {
    let mut encoder = GzEncoder::new(Vec::new(), Compression::default());
    encoder.write_all(text.as_bytes()).unwrap();
    encoder.finish().unwrap()
}

fn asset(name: &str, data: Vec<u8>) -> Asset {
    Asset { name: name.to_string(), data }
}

fn bundled() -> Vec<Asset> {
    vec![
        asset("codebooks-vis-3-4a.json.gz", gz("{}")),
        asset("gmod-vis-3-4a.json.gz", gz(GMOD_3_4A)),
        asset("gmod-vis-3-5a.json.gz", gz(GMOD_3_5A)),
        asset("gmod-vis-versioning-3-5a.json.gz", gz("{}")),
    ]
}

#[test]
fn has_embedded_resources() {
    let assets = bundled();
    let files = get_files(&assets);
    assert!(files.iter().count() > 0);
    for file in files.iter() {
        assert!(get_asset(&assets, file.as_ref()).is_some());
        println!("{}", file);
    }
}

#[test]
fn can_get_vis_versions() {
    let assets = bundled();
    let versions = get_vis_versions(&assets).unwrap();

    assert!(!versions.is_empty());
    assert!(versions.iter().map(AsRef::as_ref).any(|v: &str| v == "3-4a"));
}

#[test]
fn get_gmod_works() {
    let assets = bundled();
    let expected_version = "3-4a";
    let gmod_dto = get_gmod_dto(&assets, expected_version);
    assert!(gmod_dto.is_ok());

    let gmod_dto = gmod_dto.unwrap();
    let version = gmod_dto.vis_release;
    assert_eq!(expected_version, version);
}

#[test]
fn can_init() {
    _ = Vis::new(bundled())
}

#[test]
fn can_get_gmod() {
    let instance = Vis::new(bundled());
    let version = VisVersion::v3_4a;
    let gmod = instance.get_gmod(version).unwrap();
    assert_eq!(gmod.version(), version);
}

#[test]
fn vis_versions() {
    assert_eq!(VisVersion::v3_4a.to_string(), "3-4a");
    assert_eq!(VisVersion::v3_4a, "3-4a".parse().expect("Should be parseable"));
}

#[test]
fn files_are_listed_in_order() {
    let names = get_files(&bundled());
    assert_eq!(
        names,
        vec![
            "codebooks-vis-3-4a.json.gz",
            "gmod-vis-3-4a.json.gz",
            "gmod-vis-3-5a.json.gz",
            "gmod-vis-versioning-3-5a.json.gz"
        ]
    );
    assert!(get_files(&Vec::new()).is_empty());
}

#[test]
fn versions_skip_files_that_are_no_taxonomy() {
    let versions = get_vis_versions(&bundled()).unwrap();
    assert_eq!(versions, vec!["3-4a", "3-5a"]);
}

#[test]
fn versions_fail_on_the_first_unreadable_taxonomy() {
    let mut assets = bundled();
    assets.insert(1, asset("gmod-broken.json.gz", b"not gzip at all".to_vec()));
    let listed = get_vis_versions(&assets);
    assert!(matches!(listed, Err(LoadResourceError::ReadError(_))));
}

#[test]
fn definition_is_decoded_field_by_field() {
    let dto = get_gmod_dto(&bundled(), "3-4a").unwrap();
    assert_eq!(dto.vis_release, "3-4a");
    assert_eq!(dto.items.len(), 8);
    let root = &dto.items[0];
    assert_eq!(root.code, "VE");
    assert_eq!(root.category, "ASSET");
    assert_eq!(root.node_type, "TYPE");
    assert_eq!(root.name.as_deref(), Some("Vessel"));
    assert_eq!(root.common_name, None);
    assert_eq!(root.definition.as_deref(), Some("The whole asset"));
    assert_eq!(root.common_definition, None);
    assert_eq!(root.install_substructure, None);
    assert!(root.normal_assignment_names.is_none());
    assert_eq!(dto.items[2].install_substructure, Some(true));
    let names = dto.items[3].normal_assignment_names.as_ref().unwrap();
    assert_eq!(
        names,
        &vec![
            ("B2".to_string(), "Boiler".to_string()),
            ("C101".to_string(), "Engine".to_string())
        ]
    );
    assert_eq!(dto.relations[0], ["VE".to_string(), "300a".to_string()]);
}

#[test]
fn codes_that_end_in_99_are_left_out() {
    let dto = get_gmod_dto(&bundled(), "3-4a").unwrap();
    assert!(dto.items.iter().all(|item| item.code != "499"));
    assert_eq!(dto.items.len(), 8);
    assert_eq!(dto.relations.len(), 8);
    assert!(dto.relations.iter().all(|pair| pair[0] != "499" && pair[1] != "499"));
}

fn record(code: &str) -> GmodNodeDto {
    GmodNodeDto {
        category: "ASSET FUNCTION".to_string(),
        node_type: "LEAF".to_string(),
        code: code.to_string(),
        name: None,
        common_name: None,
        definition: None,
        common_definition: None,
        install_substructure: None,
        normal_assignment_names: None,
    }
}

fn pair(parent: &str, child: &str) -> [String; 2] {
    [parent.to_string(), child.to_string()]
}

#[test]
fn exclude_keeps_order_and_drops_touching_edges() {
    let dto = GmodDto {
        vis_release: "3-4a".to_string(),
        items: vec![record("VE"), record("199"), record("a"), record("99"), record("b")],
        relations: vec![pair("VE", "a"), pair("199", "a"), pair("a", "99"), pair("a", "b")],
    };
    let kept = exclude(&dto);
    let codes: Vec<&str> = kept.items.iter().map(|item| item.code.as_str()).collect();
    assert_eq!(codes, vec!["VE", "a", "b"]);
    assert_eq!(kept.relations, vec![pair("VE", "a"), pair("a", "b")]);
    assert_eq!(kept.vis_release, "3-4a");
}

#[test]
fn snake_case_names_are_read_too() {
    let dto = get_gmod_dto(&bundled(), "3-5a").unwrap();
    assert_eq!(dto.vis_release, "3-5a");
    assert_eq!(dto.items.len(), 1);
    assert_eq!(dto.items[0].node_type, "TYPE");
}

#[test]
fn unknown_version_is_not_found() {
    let loaded = get_gmod_dto(&bundled(), "9-9z");
    assert!(matches!(loaded, Err(LoadResourceError::ResourceNotFound)));
    assert_eq!(loaded.unwrap_err().to_string(), "resource not found");
}

#[test]
fn file_is_found_by_its_whole_name() {
    let assets = bundled();
    let loaded = deserialize_gmod_dto(&assets, "gmod-vis-3-5a.json.gz").unwrap();
    assert_eq!(loaded.vis_release, "3-5a");
    let missing = deserialize_gmod_dto(&assets, "gmod-vis-3-5a");
    assert!(matches!(missing, Err(LoadResourceError::ResourceNotFound)));
    assert!(get_asset(&assets, "gmod").is_none());
    assert_eq!(get_asset(&assets, "gmod-vis-3-4a.json.gz").unwrap().name, "gmod-vis-3-4a.json.gz");
}

#[test]
fn bytes_that_are_no_gzip_give_a_read_error() {
    let loaded = load_definition(&b"{\"visRelease\": \"3-4a\"}".to_vec());
    assert!(matches!(loaded, Err(LoadResourceError::ReadError(_))));
}

#[test]
fn gzip_of_bytes_that_are_no_text_gives_a_read_error() {
    let mut encoder = GzEncoder::new(Vec::new(), Compression::default());
    encoder.write_all(&[0xff, 0xfe, 0x00, 0xc3]).unwrap();
    let loaded = load_definition(&encoder.finish().unwrap());
    assert!(matches!(loaded, Err(LoadResourceError::ReadError(_))));
}

#[test]
fn text_that_is_no_json_gives_a_deserialization_error() {
    let loaded = load_definition(&gz("{\"visRelease\": "));
    assert!(matches!(loaded, Err(LoadResourceError::DeserializationError(_))));
}

#[test]
fn json_that_is_no_definition_gives_a_deserialization_error() {
    for text in [
        "[]",
        "{}",
        r#"{"visRelease": 3, "items": [], "relations": []}"#,
        r#"{"visRelease": "3-4a", "items": {}, "relations": []}"#,
        r#"{"visRelease": "3-4a", "items": [{"category": "A", "type": "T"}], "relations": []}"#,
        r#"{"visRelease": "3-4a", "items": [{"category": "A", "type": "T", "code": "VE", "name": 1}], "relations": []}"#,
        r#"{"visRelease": "3-4a", "items": [{"category": "A", "type": "T", "code": "VE", "installSubstructure": "yes"}], "relations": []}"#,
        r#"{"visRelease": "3-4a", "items": [{"category": "A", "type": "T", "code": "VE", "normalAssignmentNames": {"a": 1}}], "relations": []}"#,
        r#"{"visRelease": "3-4a", "items": [], "relations": [["VE"]]}"#,
        r#"{"visRelease": "3-4a", "items": [], "relations": [["VE", "a", "b"]]}"#,
        r#"{"visRelease": "3-4a", "items": [], "relations": [["VE", 1]]}"#,
    ] {
        let loaded = load_definition(&gz(text));
        assert!(matches!(loaded, Err(LoadResourceError::DeserializationError(_))), "{}", text);
    }
}

#[test]
fn a_field_under_both_of_its_names_is_refused() {
    for text in [
        r#"{"visRelease": "3-4a", "vis_release": "3-4a", "items": [], "relations": []}"#,
        r#"{"visRelease": "3-4a", "items": [{"category": "A", "type": "T", "node_type": "T", "code": "VE"}], "relations": []}"#,
        r#"{"visRelease": "3-4a", "items": [{"category": "A", "type": "T", "code": "VE", "commonName": "a", "common_name": null}], "relations": []}"#,
        r#"{"visRelease": "3-4a", "items": [{"category": "A", "type": "T", "code": "VE", "commonDefinition": "a", "common_definition": "a"}], "relations": []}"#,
        r#"{"visRelease": "3-4a", "items": [{"category": "A", "type": "T", "code": "VE", "installSubstructure": true, "install_substructure": true}], "relations": []}"#,
        r#"{"visRelease": "3-4a", "items": [{"category": "A", "type": "T", "code": "VE", "normalAssignmentNames": {}, "normal_assignment_names": {}}], "relations": []}"#,
    ] {
        let loaded = load_definition(&gz(text));
        assert!(matches!(loaded, Err(LoadResourceError::DeserializationError(_))), "{}", text);
    }
}

#[test]
fn a_field_under_either_of_its_names_is_read() {
    let camel = r#"{"visRelease": "3-4a", "items": [{"category": "A", "type": "T", "code": "VE", "commonName": "c", "commonDefinition": "d", "installSubstructure": false, "normalAssignmentNames": {"n": "t"}}], "relations": []}"#;
    let snake = r#"{"vis_release": "3-4a", "items": [{"category": "A", "node_type": "T", "code": "VE", "common_name": "c", "common_definition": "d", "install_substructure": false, "normal_assignment_names": {"n": "t"}}], "relations": []}"#;
    for text in [camel, snake] {
        let loaded = load_definition(&gz(text)).unwrap();
        assert_eq!(loaded.vis_release, "3-4a");
        let item = &loaded.items[0];
        assert_eq!(item.node_type, "T");
        assert_eq!(item.common_name.as_deref(), Some("c"));
        assert_eq!(item.common_definition.as_deref(), Some("d"));
        assert_eq!(item.install_substructure, Some(false));
        assert_eq!(
            item.normal_assignment_names,
            Some(vec![("n".to_string(), "t".to_string())])
        );
    }
}

#[test]
fn the_smallest_definition_is_read() {
    let loaded = load_definition(&gz(r#"{"visRelease": "x", "items": [], "relations": [], "more": 1.5}"#)).unwrap();
    assert_eq!(loaded.vis_release, "x");
    assert!(loaded.items.is_empty());
    assert!(loaded.relations.is_empty());
}

#[test]
fn registry_hands_out_the_same_taxonomy_again() {
    let instance = Vis::new(bundled());
    let first = instance.get_gmod(VisVersion::v3_4a).unwrap();
    let second = instance.get_gmod(VisVersion::v3_4a).unwrap();
    assert!(std::sync::Arc::ptr_eq(&first, &second));
    assert_eq!(first.len(), 8);
    let other = instance.get_gmod(VisVersion::v3_5a).unwrap();
    assert_eq!(other.version(), VisVersion::v3_5a);
    assert_eq!(other.len(), 1);
}

#[test]
fn registry_reports_a_version_without_a_file() {
    let instance = Vis::new(bundled());
    match instance.get_gmod(VisVersion::v3_7a) {
        Err(VisError::FailedToLoad(cause)) => assert_eq!(cause, "resource not found"),
        _ => panic!("a load error is due"),
    }
}

#[test]
fn registry_reports_an_unknown_version_tag() {
    let text = r#"{"visRelease": "3-6b", "items": [{"category": "ASSET", "type": "TYPE", "code": "VE"}], "relations": []}"#;
    let instance = Vis::new(vec![asset("gmod-vis-3-6a.json.gz", gz(text))]);
    match instance.get_gmod(VisVersion::v3_6a) {
        Err(VisError::VersionNotRecognized(tag)) => assert_eq!(tag, "3-6b"),
        _ => panic!("an unknown version is due"),
    }
}

#[test]
fn registry_refuses_an_inconsistent_definition() {
    for text in [
        r#"{"visRelease": "3-6a", "items": [{"category": "A", "type": "T", "code": "X"}], "relations": []}"#,
        r#"{"visRelease": "3-6a", "items": [{"category": "A", "type": "T", "code": "VE"}, {"category": "A", "type": "T", "code": "VE"}], "relations": []}"#,
        r#"{"visRelease": "3-6a", "items": [{"category": "A", "type": "T", "code": "VE"}], "relations": [["VE", "gone"]]}"#,
    ] {
        let instance = Vis::new(vec![asset("gmod-vis-3-6a.json.gz", gz(text))]);
        match instance.get_gmod(VisVersion::v3_6a) {
            Err(VisError::FailedToLoad(cause)) => {
                assert_eq!(cause, "the definition is not consistent")
            }
            _ => panic!("a load error is due"),
        }
    }
}
