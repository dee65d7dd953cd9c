use model_composer::{MissingData, PartNotFoundError, PartPath, PartsMap};

#[derive(Debug, Clone, PartialEq)]
struct Light {
    brightness: u64,
}

const REGISTRY: &str =
    r#"{"Door": {"path": "door.model"}, "Lamp": {"path": "lamp.model", "data": {"brightness": 5}}}"#;

fn decode(text: &str) -> PartsMap<Light> {
    let value: serde_json::Value = serde_json::from_str(text).unwrap();
    let mut parts = PartsMap::default();
    for (name, entry) in value.as_object().unwrap() {
        let path = entry.get("path").unwrap().as_str().unwrap().to_string();
        let data = entry.get("data").map(|data| Light {
            brightness: data.get("brightness").unwrap().as_u64().unwrap(),
        });
        parts.insert(name.clone(), PartPath { path, data });
    }
    parts
}

#[test]
fn empty_registry_binds_nothing() {
    let parts: PartsMap<Light> = PartsMap::default();
    assert!(!parts.contains("Door"));
    assert!(parts.may_load_part("Door").is_none());
    assert_eq!(parts.load_part("Door").unwrap_err().part, "Door");
}

#[test]
fn loaded_registry_finds_door_and_lamp_and_not_table() {
    let parts = decode(REGISTRY);

    let door = parts.load_part("Door").unwrap();
    assert_eq!(door.path, "door.model");
    assert_eq!(door.data, None);

    let lamp = parts.load_part("Lamp").unwrap();
    assert_eq!(lamp.path, "lamp.model");
    assert_eq!(lamp.data, Some(Light { brightness: 5 }));

    let missing = parts.load_part("Table").unwrap_err();
    assert_eq!(missing.part, "Table");
}

#[test]
fn lookup_returns_the_part_that_was_bound() {
    let mut parts = PartsMap::default();
    for index in 0..20u64 {
        let part = PartPath { path: format!("part{index}.glb"), data: Some(Light { brightness: index }) };
        parts.insert(format!("Part{index}"), part);
    }
    for index in 0..20u64 {
        let name = format!("Part{index}");
        assert!(parts.contains(&name));
        let part = parts.load_part(&name).unwrap();
        assert_eq!(part.path, format!("part{index}.glb"));
        assert_eq!(part.data, Some(Light { brightness: index }));
        assert_eq!(parts.may_load_part(&name).unwrap().path, part.path);
    }
    assert!(!parts.contains("Part20"));
    assert!(!parts.contains("part0"));
    assert!(!parts.contains(""));
    assert!(parts.may_load_part("Part20").is_none());
    assert!(parts.load_part("Part20").is_err());
}

#[test]
fn a_later_binding_replaces_an_earlier_one() {
    let mut parts: PartsMap<Light> = PartsMap::default();
    parts.insert("Door".to_string(), PartPath { path: "old.model".to_string(), data: None });
    parts.insert("Lamp".to_string(), PartPath { path: "lamp.model".to_string(), data: None });
    parts.insert(
        "Door".to_string(),
        PartPath { path: "new.model".to_string(), data: Some(Light { brightness: 1 }) },
    );
    let door = parts.load_part("Door").unwrap();
    assert_eq!(door.path, "new.model");
    assert_eq!(door.data, Some(Light { brightness: 1 }));
    assert_eq!(parts.load_part("Lamp").unwrap().path, "lamp.model");
}

#[test]
fn part_not_found_names_the_part() {
    let err = PartNotFoundError::new("Table");
    assert_eq!(err.part, "Table");
    assert_eq!(err.message(), "unable to read Table part");
    assert_eq!(PartNotFoundError::new("").message(), "unable to read  part");
}

#[test]
fn data_is_handed_out_or_reported_missing() {
    let parts = decode(REGISTRY);
    let lamp = parts.load_part("Lamp").unwrap();
    assert_eq!(lamp.data().unwrap(), &Light { brightness: 5 });

    let door = parts.load_part("Door").unwrap();
    let missing: MissingData = door.data().unwrap_err();
    assert_eq!(missing.message(), "unable to read data for part path");
}

#[test]
fn missing_data_differs_from_missing_part() {
    let parts = decode(REGISTRY);
    // A known part without data fails on its data, not on its name.
    assert!(parts.load_part("Door").is_ok());
    assert!(parts.load_part("Door").unwrap().data().is_err());
    // An unknown part fails on its name.
    assert!(parts.load_part("Table").is_err());
}
