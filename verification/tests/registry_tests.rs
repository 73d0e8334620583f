use gdynya::CrateName;
use gdynya::DependencyKind;
use gdynya::GetIndexResponse;
use gdynya::MemStore;
use gdynya::PostDependency;
use gdynya::PostIndexRequest;
use gdynya::Registry;
use gdynya::Version;
use gdynya::BAD_REQUEST;
use gdynya::NOT_FOUND;

fn request(name: &str, vers: &str) -> PostIndexRequest {
    PostIndexRequest {
        name: CrateName::parse(name).unwrap(),
        vers: Version::parse(vers).unwrap(),
        deps: vec![PostDependency {
            name: CrateName::parse("serde").unwrap(),
            version_req: "^1".to_string(),
            features: vec!["derive".to_string()],
            default_features: true,
            optional: false,
            target: None,
            kind: DependencyKind::Normal,
            explicit_name_in_toml: None,
        }],
        features: Vec::new(),
        authors: vec!["someone".to_string()],
        description: Some("a test crate".to_string()),
        documentation: None,
        homepage: None,
        readme: None,
        readme_file: None,
        keywords: Vec::new(),
        categories: Vec::new(),
        license: Some("MIT".to_string()),
        license_file: None,
        links: None,
        rust_version: None,
        badges: Vec::new(),
    }
}

fn new_registry() -> Registry<MemStore> {
    Registry::new(MemStore::new())
}

#[test]
fn publish_then_fetch_returns_exact_archive() {
    let mut reg = new_registry();
    let archive = b"hello world".to_vec();
    reg.put(&request("demo", "1.0.0"), archive.clone()).unwrap();
    let name = CrateName::parse("demo").unwrap();
    let vers = Version::parse("1.0.0").unwrap();
    let got = reg.get_crate(&name, &vers).unwrap();
    assert_eq!(got, archive);
}

#[test]
fn publish_records_sha256_checksum_in_index() {
    let mut reg = new_registry();
    let archive = b"hello world".to_vec();
    reg.put(&request("demo", "1.0.0"), archive).unwrap();
    let name = CrateName::parse("demo").unwrap();
    let index = reg.get_index(&name).unwrap();
    assert_eq!(index.len(), 1);
    let rec = &index[0];
    assert_eq!(
        rec.cksum,
        "b94d27b9934d3e08a52e52d7da7dabfac484efe37a5380ee9088f7ace2efcde9"
    );
    assert_eq!(rec.name.original(), "demo");
    assert_eq!(rec.vers.as_str(), "1.0.0");
    assert!(!rec.yanked);
    assert_eq!(rec.v, 2);
    assert_eq!(rec.deps.len(), 1);
    assert_eq!(rec.deps[0].req, "^1");
    assert!(rec.deps[0].package.is_none());
    assert!(rec.deps[0].registry.is_none());
}

#[test]
fn projection_checksum_of_empty_archive() {
    let rec = GetIndexResponse::new(&request("demo", "1.0.0"), &[]);
    assert_eq!(
        rec.cksum,
        "e3b0c44298fc1c149afbf4c8996fb92427ae41e4649b934ca495991b7852b855"
    );
}

#[test]
fn republish_conflicts_even_with_different_archive() {
    let mut reg = new_registry();
    reg.put(&request("demo", "1.0.0"), b"first".to_vec()).unwrap();
    let err = reg.put(&request("demo", "1.0.0"), b"second".to_vec()).unwrap_err();
    assert_eq!(err.error_type, BAD_REQUEST);
    assert_eq!(err.message, "already exists");
    // The first archive is untouched.
    let name = CrateName::parse("demo").unwrap();
    let vers = Version::parse("1.0.0").unwrap();
    assert_eq!(reg.get_crate(&name, &vers).unwrap(), b"first".to_vec());
}

#[test]
fn different_versions_do_not_conflict() {
    let mut reg = new_registry();
    reg.put(&request("demo", "1.0.0"), b"one".to_vec()).unwrap();
    reg.put(&request("demo", "1.0.1"), b"two".to_vec()).unwrap();
    let name = CrateName::parse("demo").unwrap();
    let index = reg.get_index(&name).unwrap();
    assert_eq!(index.len(), 2);
}

#[test]
fn yank_touches_one_version_only_and_reverses() {
    let mut reg = new_registry();
    reg.put(&request("demo", "1.0.0"), b"one".to_vec()).unwrap();
    reg.put(&request("demo", "2.0.0"), b"two".to_vec()).unwrap();
    let name = CrateName::parse("demo").unwrap();
    let v2 = Version::parse("2.0.0").unwrap();
    reg.set_yank(&name, &v2, true).unwrap();
    let index = reg.get_index(&name).unwrap();
    for rec in &index {
        if rec.vers.as_str() == "2.0.0" {
            assert!(rec.yanked);
        } else {
            assert!(!rec.yanked);
        }
        // Every other field is unchanged by the yank.
        assert_eq!(rec.v, 2);
        assert_eq!(rec.deps.len(), 1);
    }
    reg.set_yank(&name, &v2, false).unwrap();
    let index = reg.get_index(&name).unwrap();
    for rec in &index {
        assert!(!rec.yanked);
    }
}

#[test]
fn yank_of_unknown_version_is_not_found() {
    let mut reg = new_registry();
    let name = CrateName::parse("demo").unwrap();
    let vers = Version::parse("1.0.0").unwrap();
    let err = reg.set_yank(&name, &vers, true).unwrap_err();
    assert_eq!(err.error_type, NOT_FOUND);
}

#[test]
fn fetch_of_unknown_crate_is_not_found() {
    let reg = new_registry();
    let name = CrateName::parse("demo").unwrap();
    let vers = Version::parse("1.0.0").unwrap();
    let err = reg.get_crate(&name, &vers).unwrap_err();
    assert_eq!(err.error_type, NOT_FOUND);
}

#[test]
fn index_of_unknown_crate_is_not_found() {
    let reg = new_registry();
    let name = CrateName::parse("demo").unwrap();
    let err = reg.get_index(&name).unwrap_err();
    assert_eq!(err.error_type, NOT_FOUND);
    assert_eq!(err.message, "no index");
}

#[test]
fn index_keys_do_not_leak_across_name_prefixes() {
    let mut reg = new_registry();
    reg.put(&request("foo", "1.0.0"), b"one".to_vec()).unwrap();
    reg.put(&request("foobar", "2.0.0"), b"two".to_vec()).unwrap();
    let foo = CrateName::parse("foo").unwrap();
    let index = reg.get_index(&foo).unwrap();
    assert_eq!(index.len(), 1);
    assert_eq!(index[0].vers.as_str(), "1.0.0");
}

#[test]
fn owners_round_trip() {
    let mut reg = new_registry();
    let name = CrateName::parse("demo").unwrap();
    let err = reg.get_owners(&name).unwrap_err();
    assert_eq!(err.error_type, NOT_FOUND);
    reg.add_owner(&name, vec!["alice".to_string(), "bob".to_string()]).unwrap();
    let mut owners = reg.get_owners(&name).unwrap();
    owners.sort();
    assert_eq!(owners, vec!["alice".to_string(), "bob".to_string()]);
    reg.delete_owner(&name, vec!["alice".to_string()]).unwrap();
    let owners = reg.get_owners(&name).unwrap();
    assert_eq!(owners, vec!["bob".to_string()]);
    reg.delete_owner(&name, vec!["bob".to_string()]).unwrap();
    let err = reg.get_owners(&name).unwrap_err();
    assert_eq!(err.error_type, NOT_FOUND);
}

#[test]
fn owners_of_normalized_name_are_shared_across_spellings() {
    let mut reg = new_registry();
    let snake = CrateName::parse("my_crate").unwrap();
    let kebab = CrateName::parse("my-crate").unwrap();
    reg.add_owner(&snake, vec!["alice".to_string()]).unwrap();
    let owners = reg.get_owners(&kebab).unwrap();
    assert_eq!(owners, vec!["alice".to_string()]);
}

#[test]
fn search_is_unsupported() {
    let reg = new_registry();
    let query = gdynya::SearchCratesQuery { q: "demo".to_string(), per_page: 10 };
    let err = reg.search(&query).unwrap_err();
    assert_eq!(err.error_type, NOT_FOUND);
    assert_eq!(err.message, "search is unsupported");
}

#[test]
fn health_check_passes_on_memory_store() {
    let reg = new_registry();
    reg.health_check().unwrap();
}

#[test]
fn version_parse_follows_the_semver_grammar() {
    assert!(Version::parse("1.2.3").is_some());
    assert!(Version::parse("1.2.3-alpha.1+build.5").is_some());
    assert_eq!(Version::parse("0.1.0").unwrap().as_str(), "0.1.0");
    assert!(Version::parse("").is_none());
    assert!(Version::parse("1.2").is_none());
    assert!(Version::parse("01.2.3").is_none());
    assert!(Version::parse("not a version").is_none());
    assert!(Version::parse("1.2.3 ").is_none());
}
