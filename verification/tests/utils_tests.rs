use dino::middleware::{bytes_to_hex, request_id_value, server_time_value};
use dino::utils::{
    build_cache_paths, calc_hash_for_files, calc_project_hash, get_files_with_exts, should_rebuild,
};

fn strings(xs: &[&str]) -> Vec<String> {
    xs.iter().map(|s| s.to_string()).collect()
}

#[test]
fn get_files_with_exts_should_work() {
    let paths = strings(&[
        "fixtures/prj/test1/b.ts",
        "fixtures/prj/a.ts",
        "fixtures/prj/test2/test3/d.json",
        "fixtures/prj/test1/c.js",
        "fixtures/prj/ignored.yml",
    ]);
    let files = get_files_with_exts(&paths, &strings(&["ts", "js", "json"]));
    assert_eq!(files.len(), 4);
    assert_eq!(
        files,
        strings(&[
            "fixtures/prj/a.ts",
            "fixtures/prj/test1/b.ts",
            "fixtures/prj/test1/c.js",
            "fixtures/prj/test2/test3/d.json",
        ])
    );
}

#[test]
fn calc_hash_for_files_should_work() {
    // Four empty sources, as in a freshly scaffolded project tree.
    let files: Vec<Vec<u8>> = vec![Vec::new(), Vec::new(), Vec::new(), Vec::new()];
    let hash = calc_hash_for_files(&files, 8);
    assert_eq!(hash, "af1349b9");
}

#[test]
fn project_hash_is_sixteen_characters() {
    let files: Vec<Vec<u8>> = vec![b"export default main;".to_vec()];
    let hash = calc_project_hash(&files);
    assert_eq!(hash.len(), 16);
    assert!(hash.chars().all(|c| c.is_ascii_hexdigit()));
}

#[test]
fn identical_sources_name_identical_artefacts() {
    let files: Vec<Vec<u8>> = vec![b"function a(){}".to_vec(), b"name: demo".to_vec()];
    let (mjs1, yml1) = build_cache_paths(&files);
    let (mjs2, yml2) = build_cache_paths(&files);
    assert_eq!(mjs1, mjs2);
    assert_eq!(yml1, yml2);
    assert!(mjs1.starts_with(".build/"));
    assert!(mjs1.ends_with(".mjs"));
    assert!(yml1.ends_with(".yml"));

    let hash = calc_project_hash(&files);
    assert_eq!(mjs1, format!(".build/{}.mjs", hash));
    assert_eq!(yml1, format!(".build/{}.yml", hash));

    let other: Vec<Vec<u8>> = vec![b"function a(){}".to_vec(), b"name: changed".to_vec()];
    let (mjs3, _) = build_cache_paths(&other);
    assert_ne!(mjs1, mjs3);
}

#[test]
fn rebuild_triggers_on_sources_and_config() {
    assert!(should_rebuild(&strings(&["src/x.ts"])));
    assert!(should_rebuild(&strings(&["lib/y.js"])));
    assert!(should_rebuild(&strings(&["proj/config.yml"])));
    assert!(should_rebuild(&strings(&["a.md", "b.ts"])));
    assert!(!should_rebuild(&strings(&["readme.md", "notes.txt"])));
    assert!(!should_rebuild(&strings(&[])));
    assert!(!should_rebuild(&strings(&["data.json", "other.yml"])));
}

#[test]
fn server_time_header_value_is_decimal_micros() {
    assert_eq!(server_time_value(0), "0us");
    assert_eq!(server_time_value(7), "7us");
    assert_eq!(server_time_value(1534), "1534us");
    assert_eq!(server_time_value(u64::MAX), format!("{}us", u64::MAX));
}

#[test]
fn request_id_is_propagated_or_freshly_rendered() {
    let fresh = vec![0x0fu8, 0xa0, 0x00, 0xff];
    assert_eq!(request_id_value(None, &fresh), "0fa000ff");
    assert_eq!(
        request_id_value(Some("keep-me".to_string()), &fresh),
        "keep-me"
    );
    assert_eq!(bytes_to_hex(&Vec::new()), "");
}

#[test]
fn config_suffix_needs_a_component_boundary() {
    assert!(should_rebuild(&strings(&["config.yml"])));
    assert!(should_rebuild(&strings(&["a/b/config.yml"])));
    assert!(!should_rebuild(&strings(&["myconfig.yml"])));
    assert!(!should_rebuild(&strings(&["a/otherconfig.yml"])));
}
