use omniverlay_core::errors::{OmniverlayError, OmniverlayResult};
use omniverlay_core::extensions::config::{
    ConfigCategoryBuilder, ConfigValue, ConfigValueType, ExtensionConfig, ExtensionConfigBuilder,
};
use omniverlay_core::extensions::data::{
    file_stem, DataLoader, ExtensionDataManager, OmniverlayData, OmniverlayLayout,
    OmniverlayProfile,
};
use omniverlay_core::extensions::{
    Extension, ExtensionInfo, ExtensionLayout, ExtensionManager, ExtensionState,
};
use omniverlay_core::utils::json::JsonValue;
use omniverlay_core::utils::name_map::NameMap;
use std::cell::RefCell;
use std::collections::HashMap;

/// An extension whose record is given and whose hooks count their runs.
struct Fixed {
    info: ExtensionInfo,
    hooks: u32,
}

impl Extension for Fixed {
    fn enable(&mut self) -> OmniverlayResult<()> {
        self.hooks += 1;
        Ok(())
    }

    fn disable(&mut self) -> OmniverlayResult<()> {
        self.hooks += 1;
        Ok(())
    }

    fn get_extension_info(&self) -> OmniverlayResult<ExtensionInfo> {
        Ok(self.info.clone())
    }
}

fn small_config() -> ExtensionConfig {
    ExtensionConfigBuilder::new()
        .add_category(
            ConfigCategoryBuilder::new("General".to_string())
                .add_value(
                    "age".to_string(),
                    ConfigValue::new("The age".to_string(), ConfigValueType::Int(30)),
                )
                .build(),
        )
        .build()
}

fn extension(name: &str, enabled: bool, layout: Option<ExtensionLayout>) -> Fixed {
    Fixed {
        info: ExtensionInfo {
            name: name.to_string(),
            state: ExtensionState { is_enabled: enabled, config: None },
            layout,
        },
        hooks: 0,
    }
}

fn registry(extensions: Vec<Fixed>) -> ExtensionManager<Fixed> {
    let mut manager = ExtensionManager::new();
    for e in extensions {
        manager.register_extension(e).unwrap();
    }
    manager
}

fn profile(name: &str, states: Vec<(&str, bool)>) -> OmniverlayProfile {
    let mut extensions = NameMap::new();
    for (n, enabled) in states {
        extensions.insert(n.to_string(), ExtensionState { is_enabled: enabled, config: None });
    }
    OmniverlayProfile { name: name.to_string(), extensions }
}

fn layout(name: &str, layouts: Vec<(&str, ExtensionLayout)>) -> OmniverlayLayout {
    let mut extensions = NameMap::new();
    for (n, l) in layouts {
        extensions.insert(n.to_string(), l);
    }
    OmniverlayLayout { name: name.to_string(), extensions }
}

fn rect(width: u32, height: u32, x: u32, y: u32) -> ExtensionLayout {
    ExtensionLayout { width, height, x, y }
}

#[test]
fn on_load_gives_a_profile_an_entry_for_every_registered_extension() {
    let manager = registry(vec![
        extension("Perf", true, None),
        extension("Clock", false, None),
        extension("Notes", true, None),
    ]);
    let mut doc = profile("work", vec![("Clock", true)]);
    assert!(doc.on_load(&manager).is_ok());
    assert_eq!(doc.name, "work");
    assert_eq!(doc.extensions.len(), 3);
    for name in ["Perf", "Clock", "Notes"] {
        assert!(doc.extensions.contains_key(name));
    }
    // What the profile held stays; what is new takes the live state.
    assert!(doc.extensions.get("Clock").unwrap().is_enabled);
    assert!(doc.extensions.get("Perf").unwrap().is_enabled);
    assert!(doc.extensions.get("Notes").unwrap().is_enabled);
    // The entries that were there come first, the new ones in the order of registration.
    assert_eq!(doc.extensions.name_at(0), "Clock");
    assert_eq!(doc.extensions.name_at(1), "Perf");
    assert_eq!(doc.extensions.name_at(2), "Notes");
}

#[test]
fn on_load_keeps_an_entry_that_is_there_for_perf() {
    let mut doc = profile("default", vec![("Perf", false)]);
    let mut live = extension("Perf", true, None);
    live.info.state.config = Some(small_config());
    let manager = registry(vec![live]);
    assert!(doc.on_load(&manager).is_ok());
    assert_eq!(doc.extensions.len(), 1);
    let held = doc.extensions.get("Perf").unwrap();
    assert!(!held.is_enabled);
    assert!(held.config.is_none());
}

#[test]
fn on_load_takes_the_live_state_of_an_extension_that_is_new() {
    let mut doc = profile("default", vec![]);
    let mut live = extension("Perf", true, None);
    live.info.state.config = Some(small_config());
    let manager = registry(vec![live]);
    assert!(doc.on_load(&manager).is_ok());
    let held = doc.extensions.get("Perf").unwrap();
    assert!(held.is_enabled);
    assert!(held.config.as_ref().unwrap().match_structure(&small_config()));
}

#[test]
fn on_load_keeps_entries_of_extensions_that_are_not_registered() {
    let manager = registry(vec![extension("Perf", false, None)]);
    let mut doc = profile("work", vec![("Gone", true)]);
    doc.on_load(&manager).unwrap();
    assert_eq!(doc.extensions.len(), 2);
    assert!(doc.extensions.get("Gone").unwrap().is_enabled);
}

#[test]
fn on_load_merges_the_size_into_a_layout_and_keeps_the_position() {
    let manager = registry(vec![
        extension("Perf", false, Some(rect(200, 100, 1, 2))),
        extension("Clock", false, Some(rect(50, 60, 3, 4))),
        extension("Bare", false, None),
    ]);
    let mut doc = layout("desk", vec![("Perf", rect(10, 20, 300, 400))]);
    assert!(doc.on_load(&manager).is_ok());
    assert_eq!(doc.name, "desk");
    assert_eq!(doc.extensions.len(), 2);
    assert_eq!(*doc.extensions.get("Perf").unwrap(), rect(200, 100, 300, 400));
    assert_eq!(*doc.extensions.get("Clock").unwrap(), rect(50, 60, 3, 4));
    // An extension without a layout gets no entry.
    assert!(!doc.extensions.contains_key("Bare"));
}

#[test]
fn applying_a_profile_overwrites_states_without_hooks() {
    let mut manager = registry(vec![extension("Perf", false, None), extension("Clock", true, None)]);
    let doc = profile("work", vec![("Clock", false), ("Perf", true)]);
    assert!(doc.apply_to_extensions(&mut manager).is_ok());
    let list = manager.list_extensions().unwrap();
    assert_eq!(list[0].name, "Perf");
    assert!(list[0].state.is_enabled);
    assert_eq!(list[1].name, "Clock");
    assert!(!list[1].state.is_enabled);
    assert_eq!(manager.get_extension_by_name("Perf").unwrap().extension().hooks, 0);
    assert_eq!(manager.get_extension_by_name("Clock").unwrap().extension().hooks, 0);
}

#[test]
fn applying_a_profile_with_an_unknown_name_fails() {
    let mut manager = registry(vec![extension("Perf", false, None), extension("Clock", false, None)]);
    let doc = profile("work", vec![("Perf", true), ("Gone", true), ("Clock", true)]);
    let r = doc.apply_to_extensions(&mut manager);
    assert!(matches!(r, Err(OmniverlayError::ExtensionNotFound(ref n)) if n == "Gone"));
    // What came before the unknown name stays written, what comes after is not written.
    let list = manager.list_extensions().unwrap();
    assert!(list[0].state.is_enabled);
    assert!(!list[1].state.is_enabled);
}

#[test]
fn applying_a_layout_writes_layouts_and_fails_on_an_unknown_name() {
    let mut manager = registry(vec![extension("Perf", false, None), extension("Clock", false, None)]);
    let doc = layout("desk", vec![("Perf", rect(1, 2, 3, 4)), ("Clock", rect(5, 6, 7, 8))]);
    assert!(doc.apply_to_extensions(&mut manager).is_ok());
    let list = manager.list_extensions().unwrap();
    assert_eq!(list[0].layout, Some(rect(1, 2, 3, 4)));
    assert_eq!(list[1].layout, Some(rect(5, 6, 7, 8)));
    let doc = layout("desk", vec![("Gone", rect(0, 0, 0, 0)), ("Perf", rect(9, 9, 9, 9))]);
    let r = doc.apply_to_extensions(&mut manager);
    assert!(matches!(r, Err(OmniverlayError::ExtensionNotFound(ref n)) if n == "Gone"));
    assert_eq!(manager.list_extensions().unwrap()[0].layout, Some(rect(1, 2, 3, 4)));
}

#[test]
fn applying_an_empty_document_changes_nothing() {
    let mut manager = registry(vec![extension("Perf", true, Some(rect(1, 1, 1, 1)))]);
    assert!(OmniverlayProfile::default().apply_to_extensions(&mut manager).is_ok());
    assert!(OmniverlayLayout::default().apply_to_extensions(&mut manager).is_ok());
    let list = manager.list_extensions().unwrap();
    assert!(list[0].state.is_enabled);
    assert_eq!(list[0].layout, Some(rect(1, 1, 1, 1)));
}

#[test]
fn names_and_directories_of_documents() {
    assert_eq!(OmniverlayProfile::default().name().unwrap(), "default");
    assert_eq!(OmniverlayLayout::default().name().unwrap(), "default");
    assert_eq!(profile("work", vec![]).name().unwrap(), "work");
    assert_eq!(OmniverlayProfile::dir_name(), "profiles");
    assert_eq!(OmniverlayLayout::dir_name(), "layouts");
    assert_eq!(OmniverlayProfile::kind(), "Profile");
    assert_eq!(OmniverlayLayout::kind(), "Layout");
    assert_eq!(OmniverlayProfile::default().extensions.len(), 0);
}

#[test]
fn a_profile_read_back_from_its_json_is_the_same() {
    let mut doc = profile("work", vec![("Perf", true), ("Clock", false)]);
    doc.extensions.insert(
        "Notes".to_string(),
        ExtensionState { is_enabled: true, config: Some(small_config()) },
    );
    let json = doc.to_json().unwrap();
    let back = OmniverlayProfile::from_json(&json).unwrap();
    assert_eq!(format!("{:?}", back), format!("{:?}", doc));
}

#[test]
fn a_layout_read_back_from_its_json_is_the_same() {
    let doc = layout("desk", vec![("Perf", rect(1, 2, 3, 4)), ("Clock", rect(5, 6, 7, u32::MAX))]);
    let json = doc.to_json().unwrap();
    let back = OmniverlayLayout::from_json(&json).unwrap();
    assert_eq!(format!("{:?}", back), format!("{:?}", doc));
}

#[test]
fn from_json_refuses_what_is_not_a_document() {
    let bad = JsonValue::Object(vec![("name".to_string(), JsonValue::String("x".to_string()))]);
    assert!(matches!(OmniverlayProfile::from_json(&bad), Err(OmniverlayError::SerdeJson(_))));
    assert!(matches!(OmniverlayLayout::from_json(&bad), Err(OmniverlayError::SerdeJson(_))));
    assert!(matches!(
        OmniverlayProfile::from_json(&JsonValue::Array(vec![])),
        Err(OmniverlayError::SerdeJson(_))
    ));
    // A layout is no profile.
    let desk = layout("desk", vec![("Perf", rect(1, 2, 3, 4))]).to_json().unwrap();
    assert!(OmniverlayProfile::from_json(&desk).is_err());
}

type Disk = RefCell<HashMap<String, JsonValue>>;

fn read_from(disk: &Disk) -> impl FnOnce(&str) -> OmniverlayResult<Option<JsonValue>> + '_ {
    move |file: &str| Ok(disk.borrow().get(file).cloned())
}

fn write_to(disk: &Disk) -> impl FnOnce(&str, &JsonValue) -> OmniverlayResult<()> + '_ {
    move |file: &str, json: &JsonValue| {
        disk.borrow_mut().insert(file.to_string(), json.clone());
        Ok(())
    }
}

fn failing_write(_: &str, _: &JsonValue) -> OmniverlayResult<()> {
    Err(OmniverlayError::IoError("disk full".to_string()))
}

#[test]
fn switch_then_read() {
    let disk: Disk = RefCell::new(HashMap::new());
    disk.borrow_mut().insert(
        "work.json".to_string(),
        profile("work", vec![("Perf", true)]).to_json().unwrap(),
    );
    let mut manager = registry(vec![extension("Perf", false, None), extension("Clock", false, None)]);
    let mut data: ExtensionDataManager<OmniverlayProfile> = ExtensionDataManager::new();
    assert_eq!(data.get_current().unwrap().name, "default");
    let r = data.switch_data("work".to_string(), &mut manager, read_from(&disk), write_to(&disk));
    assert!(r.is_ok());
    let current = data.get_current().unwrap();
    assert_eq!(current.name, "work");
    // The file holds the current document, with what the registry added.
    let on_disk = OmniverlayProfile::from_json(disk.borrow().get("work.json").unwrap()).unwrap();
    assert_eq!(format!("{:?}", on_disk), format!("{:?}", current));
    assert_eq!(on_disk.extensions.len(), 2);
    // The document was applied.
    let list = manager.list_extensions().unwrap();
    assert!(list[0].state.is_enabled);
    assert!(!list[1].state.is_enabled);
}

#[test]
fn switching_to_a_document_without_a_file_fails_and_changes_nothing() {
    let disk: Disk = RefCell::new(HashMap::new());
    let mut manager = registry(vec![extension("Perf", true, None)]);
    let mut data: ExtensionDataManager<OmniverlayProfile> = ExtensionDataManager::new();
    data.data = profile("home", vec![("Perf", false)]);
    let r = data.switch_data("work".to_string(), &mut manager, read_from(&disk), write_to(&disk));
    assert!(matches!(r, Err(OmniverlayError::DataNotFound(ref n)) if n == "work"));
    assert_eq!(data.get_current().unwrap().name, "home");
    assert!(disk.borrow().is_empty());
    assert!(manager.list_extensions().unwrap()[0].state.is_enabled);
}

#[test]
fn switching_hands_on_a_failure_of_the_reader() {
    let disk: Disk = RefCell::new(HashMap::new());
    let mut manager = registry(vec![]);
    let mut data: ExtensionDataManager<OmniverlayLayout> = ExtensionDataManager::new();
    let r = data.switch_data(
        "desk".to_string(),
        &mut manager,
        |_: &str| Err(OmniverlayError::IoError("unreadable".to_string())),
        write_to(&disk),
    );
    assert!(matches!(r, Err(OmniverlayError::IoError(ref m)) if m == "unreadable"));
    assert!(disk.borrow().is_empty());
}

#[test]
fn switching_to_a_file_that_holds_no_document_fails() {
    let disk: Disk = RefCell::new(HashMap::new());
    disk.borrow_mut().insert("work.json".to_string(), JsonValue::Bool(true));
    let mut manager = registry(vec![]);
    let mut data: ExtensionDataManager<OmniverlayProfile> = ExtensionDataManager::new();
    let r = data.switch_data("work".to_string(), &mut manager, read_from(&disk), write_to(&disk));
    assert!(matches!(r, Err(OmniverlayError::SerdeJson(_))));
    assert_eq!(data.get_current().unwrap().name, "default");
}

#[test]
fn a_save_that_cannot_write_does_not_apply() {
    let mut manager = registry(vec![extension("Perf", false, None)]);
    let mut data: ExtensionDataManager<OmniverlayProfile> = ExtensionDataManager::new();
    data.data = profile("work", vec![("Perf", true)]);
    let r = data.save_data(&mut manager, failing_write);
    assert!(matches!(r, Err(OmniverlayError::IoError(ref m)) if m == "disk full"));
    assert!(!manager.list_extensions().unwrap()[0].state.is_enabled);
}

#[test]
fn a_save_writes_first_and_then_applies() {
    let disk: Disk = RefCell::new(HashMap::new());
    let mut manager = registry(vec![extension("Perf", false, None)]);
    let mut data: ExtensionDataManager<OmniverlayProfile> = ExtensionDataManager::new();
    data.data = profile("work", vec![("Perf", true), ("Gone", true)]);
    let r = data.save_data(&mut manager, write_to(&disk));
    // The application fails on the unknown name, but the file is written.
    assert!(matches!(r, Err(OmniverlayError::ExtensionNotFound(ref n)) if n == "Gone"));
    assert!(disk.borrow().contains_key("work.json"));
    assert!(manager.list_extensions().unwrap()[0].state.is_enabled);
}

#[test]
fn load_data_reads_the_file_named_after_the_document() {
    let manager = registry(vec![extension("Perf", true, Some(rect(9, 8, 7, 6)))]);
    let asked: RefCell<Vec<String>> = RefCell::new(Vec::new());
    let stored = layout("desk", vec![]).to_json().unwrap();
    let loaded = <OmniverlayLayout as DataLoader<OmniverlayLayout>>::load_data(
        "desk".to_string(),
        &manager,
        |file: &str| {
            asked.borrow_mut().push(file.to_string());
            Ok(Some(stored))
        },
    )
    .unwrap()
    .unwrap();
    assert_eq!(*asked.borrow(), vec!["desk.json".to_string()]);
    assert_eq!(loaded.name, "desk");
    assert_eq!(*loaded.extensions.get("Perf").unwrap(), rect(9, 8, 7, 6));
}

#[test]
fn save_data_writes_under_the_name_of_the_document() {
    let written: RefCell<Vec<String>> = RefCell::new(Vec::new());
    let doc = profile("my profile", vec![]);
    let r = <OmniverlayProfile as DataLoader<OmniverlayProfile>>::save_data(
        &doc,
        |file: &str, json: &JsonValue| {
            written.borrow_mut().push(format!("{} {:?}", file, json));
            Ok(())
        },
    );
    assert!(r.is_ok());
    assert_eq!(
        *written.borrow(),
        vec![format!("my profile.json {:?}", doc.to_json().unwrap())]
    );
}

#[test]
fn list_datas_gives_the_stems_of_the_file_names() {
    let files = vec![
        "default.json".to_string(),
        "work.v2.json".to_string(),
        "notes".to_string(),
        ".hidden".to_string(),
        ".hidden.json".to_string(),
        "".to_string(),
    ];
    let names = <OmniverlayProfile as DataLoader<OmniverlayProfile>>::list_datas(&files).unwrap();
    assert_eq!(names, vec!["default", "work.v2", "notes", ".hidden", ".hidden", ""]);
    assert_eq!(file_stem("a.b"), "a");
    assert_eq!(file_stem("a."), "a");
    assert_eq!(file_stem("é.json"), "é");
}

#[test]
fn a_new_document_is_named_by_kind_and_number() {
    let disk: Disk = RefCell::new(HashMap::new());
    let mut manager = registry(vec![extension("Perf", true, Some(rect(1, 2, 3, 4)))]);
    let mut profiles: ExtensionDataManager<OmniverlayProfile> = ExtensionDataManager::new();
    assert!(profiles.new_data(None, 2, &mut manager, write_to(&disk)).is_ok());
    assert_eq!(profiles.get_current().unwrap().name, "Profile 3");
    assert!(profiles.get_current().unwrap().extensions.get("Perf").unwrap().is_enabled);
    assert!(disk.borrow().contains_key("Profile 3.json"));
    let mut layouts: ExtensionDataManager<OmniverlayLayout> = ExtensionDataManager::new();
    assert!(layouts.new_data(None, 9, &mut manager, write_to(&disk)).is_ok());
    assert_eq!(layouts.get_current().unwrap().name, "Layout 10");
    assert!(layouts
        .new_data(Some("desk".to_string()), 0, &mut manager, write_to(&disk))
        .is_ok());
    assert_eq!(layouts.get_current().unwrap().name, "desk");
    assert_eq!(*layouts.get_current().unwrap().extensions.get("Perf").unwrap(), rect(1, 2, 3, 4));
    assert!(disk.borrow().contains_key("desk.json"));
}
