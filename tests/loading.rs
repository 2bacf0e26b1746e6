use yang_loader::errors::{ErrorInfo, LoadError};
use yang_loader::loader::YangLoader;
use yang_loader::yaml_data::YamlData;

fn records(n: i64) -> Vec<YamlData> {
    (1..=n).map(|i| YamlData::new(i, format!("R{}", i))).collect()
}

fn not_found() -> LoadError {
    LoadError::from(std::io::Error::new(std::io::ErrorKind::NotFound, "no such file"))
}

#[test]
fn load() {
    let mut loader = YangLoader::new(
        "/Users/YourName/Desktop/Resource".to_string(),
        vec!["test".to_string()],
    );
    let _ = loader.load(|_file: &str| Err(not_found()));

    let resource = loader.get_resource("test");
    println!("resource: {:?}", resource);
}

#[test]
fn add_yaml_appends_extension() {
    let loader = YangLoader::new("base".to_string(), vec![]);
    assert_eq!(loader.add_yaml("test"), "test.yaml");
    assert_eq!(loader.add_yaml("monster.v1"), "monster.v1.yaml");
}

#[test]
fn load_stores_every_collection() {
    let mut loader = YangLoader::new("base".to_string(), vec!["a".to_string(), "b".to_string()]);
    let result = loader.load(|file: &str| if file == "a.yaml" { Ok(records(1)) } else { Ok(records(2)) });
    assert!(result.is_ok());
    assert_eq!(loader.get_resource("a").unwrap().len(), 1);
    assert_eq!(loader.get_resource("b").unwrap().len(), 2);
    assert_eq!(loader.get_all_resources().len(), 2);
    assert_eq!(loader.file_path(), "base");
    assert_eq!(loader.file_names().len(), 2);
}

#[test]
fn missing_file_gives_io_error_and_no_entry() {
    let mut loader = YangLoader::new(
        "base".to_string(),
        vec!["a".to_string(), "missing".to_string(), "c".to_string()],
    );
    let asked: std::cell::RefCell<Vec<String>> = std::cell::RefCell::new(Vec::new());
    let result = loader.load(|file: &str| {
        asked.borrow_mut().push(file.to_string());
        if file == "missing.yaml" { Err(not_found()) } else { Ok(records(1)) }
    });
    assert!(matches!(result, Err(LoadError::IoError(_))));
    assert!(loader.get_resource("missing").is_none());
    assert!(loader.get_resource("a").is_some());
    assert!(loader.get_resource("c").is_none());
    assert_eq!(asked.into_inner(), vec!["a.yaml".to_string(), "missing.yaml".to_string()]);
}

#[test]
fn unknown_collection_is_none() {
    let loader = YangLoader::new("base".to_string(), vec![]);
    assert!(loader.get_resource("test").is_none());
    assert!(loader.get_all_resources().is_empty());
}

#[test]
fn insert_resource_replaces_collection() {
    let mut loader = YangLoader::new("base".to_string(), vec![]);
    loader.insert_resource("m".to_string(), records(3));
    loader.insert_resource("n".to_string(), records(1));
    loader.insert_resource("m".to_string(), records(2));
    assert_eq!(loader.get_resource("m").unwrap().len(), 2);
    assert_eq!(loader.get_all_resources().len(), 2);
}

#[test]
fn error_info_keeps_its_fields() {
    let e = ErrorInfo::new("Npc".to_string(), Some(2), "bad".to_string());
    assert_eq!(e.name(), "Npc");
    assert_eq!(e.table_index(), Some(2));
    assert_eq!(e.err_msg(), "bad");
}

#[test]
fn yaml_error_converts_to_parse_error() {
    let err = serde_yaml::from_str::<i64>("[1, 2").unwrap_err();
    assert!(matches!(LoadError::from(err), LoadError::SerdeYamlError(_)));
}
