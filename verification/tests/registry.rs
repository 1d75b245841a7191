use omniverlay_core::errors::{OmniverlayError, OmniverlayResult};
use omniverlay_core::extensions::{
    Extension, ExtensionInfo, ExtensionLayout, ExtensionManager, ExtensionState,
    RegisteredExtension,
};

/// An extension that counts how often its hooks run and can be told to fail.
struct Probe {
    info: ExtensionInfo,
    enables: u32,
    disables: u32,
    fail_hooks: bool,
}

impl Probe {
    fn new(name: &str) -> Self {
        Probe {
            info: ExtensionInfo {
                name: name.to_string(),
                state: ExtensionState::default(),
                layout: None,
            },
            enables: 0,
            disables: 0,
            fail_hooks: false,
        }
    }
}

impl Extension for Probe {
    fn enable(&mut self) -> OmniverlayResult<()> {
        self.enables += 1;
        if self.fail_hooks {
            Err(OmniverlayError::ExtensionLoadFailed(self.info.name.clone()))
        } else {
            Ok(())
        }
    }

    fn disable(&mut self) -> OmniverlayResult<()> {
        self.disables += 1;
        if self.fail_hooks {
            Err(OmniverlayError::ExtensionLoadFailed(self.info.name.clone()))
        } else {
            Ok(())
        }
    }

    fn get_extension_info(&self) -> OmniverlayResult<ExtensionInfo> {
        if self.info.name.is_empty() {
            Err(OmniverlayError::ExtensionLoadFailed("no record".to_string()))
        } else {
            Ok(self.info.clone())
        }
    }
}

fn registered(name: &str) -> RegisteredExtension<Probe> {
    let probe = Probe::new(name);
    RegisteredExtension::new(probe.get_extension_info().unwrap(), probe)
}

#[test]
fn set_enabled_twice_runs_the_hook_once() {
    let mut entry = registered("Perf");
    assert!(entry.set_enabled(true).is_ok());
    assert!(entry.set_enabled(true).is_ok());
    assert_eq!(entry.extension().enables, 1);
    assert_eq!(entry.extension().disables, 0);
    assert!(entry.get_extension_info().state.is_enabled);
    assert!(entry.set_enabled(false).is_ok());
    assert!(entry.set_enabled(false).is_ok());
    assert_eq!(entry.extension().disables, 1);
    assert_eq!(entry.extension().enables, 1);
    assert!(!entry.get_extension_info().state.is_enabled);
}

#[test]
fn set_enabled_on_a_fresh_extension_to_false_runs_no_hook() {
    let mut entry = registered("Perf");
    assert!(entry.set_enabled(false).is_ok());
    assert_eq!(entry.extension().enables, 0);
    assert_eq!(entry.extension().disables, 0);
}

#[test]
fn a_failing_hook_leaves_the_flag_and_returns_its_error() {
    let mut probe = Probe::new("Perf");
    probe.fail_hooks = true;
    let mut entry = RegisteredExtension::new(probe.get_extension_info().unwrap(), probe);
    let r = entry.set_enabled(true);
    assert!(matches!(r, Err(OmniverlayError::ExtensionLoadFailed(ref n)) if n == "Perf"));
    assert!(!entry.get_extension_info().state.is_enabled);
    assert_eq!(entry.extension().enables, 1);
    let r = entry.set_enabled(true);
    assert!(r.is_err());
    assert_eq!(entry.extension().enables, 2);
}

#[test]
fn record_outcome_for_each_outcome_of_a_hook() {
    let mut info = Probe::new("Perf").info;
    let r = RegisteredExtension::<Probe>::record_outcome(&mut info, true, Ok(()));
    assert!(r.is_ok());
    assert!(info.state.is_enabled);
    let failure = OmniverlayError::Other("hook".to_string());
    let r = RegisteredExtension::<Probe>::record_outcome(&mut info, false, Err(failure));
    assert!(matches!(r, Err(OmniverlayError::Other(ref m)) if m == "hook"));
    assert!(info.state.is_enabled);
}

#[test]
fn an_extension_without_a_record_is_not_registered() {
    let mut manager: ExtensionManager<Probe> = ExtensionManager::new();
    let r = manager.register_extension(Probe::new(""));
    assert!(matches!(r, Err(OmniverlayError::ExtensionLoadFailed(_))));
    assert_eq!(manager.list_extensions().unwrap().len(), 0);
}

#[test]
fn register_enable_and_list() {
    let mut manager: ExtensionManager<Probe> = ExtensionManager::new();
    assert!(manager.register_extension(Probe::new("Perf")).is_ok());
    assert!(manager.enable_extension("Perf").is_ok());
    let list = manager.list_extensions().unwrap();
    assert_eq!(list.len(), 1);
    assert_eq!(list[0].name, "Perf");
    assert!(list[0].state.is_enabled);
    assert!(list[0].layout.is_none());
}

#[test]
fn enable_then_disable_runs_each_hook_once_on_that_extension_only() {
    let mut manager: ExtensionManager<Probe> = ExtensionManager::new();
    manager.register_extension(Probe::new("Perf")).unwrap();
    manager.register_extension(Probe::new("Clock")).unwrap();
    assert!(manager.enable_extension("Perf").is_ok());
    {
        let perf = manager.get_extension_by_name("Perf").unwrap();
        assert_eq!((perf.extension().enables, perf.extension().disables), (1, 0));
        assert!(perf.get_extension_info().state.is_enabled);
    }
    assert!(manager.disable_extension("Perf").is_ok());
    assert!(manager.disable_extension("Perf").is_ok());
    let perf = manager.get_extension_by_name("Perf").unwrap();
    assert_eq!((perf.extension().enables, perf.extension().disables), (1, 1));
    assert!(!perf.get_extension_info().state.is_enabled);
    let clock = manager.get_extension_by_name("Clock").unwrap();
    assert_eq!((clock.extension().enables, clock.extension().disables), (0, 0));
}

#[test]
fn a_failing_hook_of_a_registered_extension_hands_on_its_failure() {
    let mut manager: ExtensionManager<Probe> = ExtensionManager::new();
    let mut probe = Probe::new("Perf");
    probe.fail_hooks = true;
    manager.register_extension(probe).unwrap();
    let r = manager.enable_extension("Perf");
    assert!(matches!(r, Err(OmniverlayError::ExtensionLoadFailed(ref n)) if n == "Perf"));
    let perf = manager.get_extension_by_name("Perf").unwrap();
    assert_eq!((perf.extension().enables, perf.extension().disables), (1, 0));
    assert!(!perf.get_extension_info().state.is_enabled);
}

#[test]
fn enable_and_disable_of_an_unknown_name_fail() {
    let mut manager: ExtensionManager<Probe> = ExtensionManager::new();
    manager.register_extension(Probe::new("Perf")).unwrap();
    let r = manager.enable_extension("Clock");
    assert!(matches!(r, Err(OmniverlayError::ExtensionNotFound(ref n)) if n == "Clock"));
    let r = manager.disable_extension("Clock");
    assert!(matches!(r, Err(OmniverlayError::ExtensionNotFound(ref n)) if n == "Clock"));
    let r = manager.get_extension_by_name("Clock");
    assert!(matches!(r, Err(OmniverlayError::ExtensionNotFound(ref n)) if n == "Clock"));
    let list = manager.list_extensions().unwrap();
    assert_eq!(list.len(), 1);
    assert!(!list[0].state.is_enabled);
}

#[test]
fn registering_a_name_again_replaces_the_extension() {
    let mut manager: ExtensionManager<Probe> = ExtensionManager::new();
    manager.register_extension(Probe::new("Perf")).unwrap();
    manager.register_extension(Probe::new("Clock")).unwrap();
    manager.enable_extension("Perf").unwrap();
    manager.register_extension(Probe::new("Perf")).unwrap();
    let list = manager.list_extensions().unwrap();
    assert_eq!(list.len(), 2);
    assert_eq!(list[0].name, "Perf");
    assert!(!list[0].state.is_enabled);
    assert_eq!(list[1].name, "Clock");
    assert_eq!(manager.get_extension_by_name("Perf").unwrap().extension().enables, 0);
}

#[test]
fn update_state_overwrites_without_a_hook() {
    let mut manager: ExtensionManager<Probe> = ExtensionManager::new();
    manager.register_extension(Probe::new("Perf")).unwrap();
    let state = ExtensionState { is_enabled: true, config: None };
    assert!(manager.update_extension_state("Perf", state).is_ok());
    let entry = manager.get_extension_by_name("Perf").unwrap();
    assert!(entry.get_extension_info().state.is_enabled);
    assert_eq!(entry.extension().enables, 0);
    let r = manager.update_extension_state("Clock", ExtensionState::default());
    assert!(matches!(r, Err(OmniverlayError::ExtensionNotFound(ref n)) if n == "Clock"));
}

#[test]
fn two_layout_updates_for_two_names_are_both_listed() {
    let mut manager: ExtensionManager<Probe> = ExtensionManager::new();
    manager.register_extension(Probe::new("Perf")).unwrap();
    manager.register_extension(Probe::new("Clock")).unwrap();
    let a = ExtensionLayout { width: 200, height: 100, x: 10, y: 20 };
    let b = ExtensionLayout { width: 50, height: 60, x: 70, y: 80 };
    assert!(manager.update_extension_layout("Perf", a).is_ok());
    assert!(manager.update_extension_layout("Clock", b).is_ok());
    let list = manager.list_extensions().unwrap();
    assert_eq!(list.len(), 2);
    assert_eq!(list[0].layout, Some(a));
    assert_eq!(list[1].layout, Some(b));
    let r = manager.update_extension_layout("Tray", a);
    assert!(matches!(r, Err(OmniverlayError::ExtensionNotFound(ref n)) if n == "Tray"));
}

#[test]
fn error_messages() {
    let cases = vec![
        (OmniverlayError::TauriError("t".to_string()), "Tauri error: t"),
        (
            OmniverlayError::BackendInitialization("b".to_string()),
            "Backend initialization error: b",
        ),
        (OmniverlayError::ExtensionNotFound("Perf".to_string()), "Extension not found: Perf"),
        (OmniverlayError::ExtensionLoadFailed("Perf".to_string()), "Extension load failed: Perf"),
        (OmniverlayError::SerdeJson("s".to_string()), "Serialization error: s"),
        (OmniverlayError::LockError("l".to_string()), "Lock error: l"),
        (OmniverlayError::SerializationError("s".to_string()), "Serialization error: s"),
        (OmniverlayError::ConfigNotFound("Perf".to_string()), "Config not found: Perf"),
        (OmniverlayError::IoError("i".to_string()), "IO error: i"),
        (OmniverlayError::AppDirectory, "Cannot find the app directory"),
        (OmniverlayError::ProfileNotFound("work".to_string()), "Profile not found: work"),
        (OmniverlayError::DataNotFound("work".to_string()), "No data found for: work"),
        (OmniverlayError::Other("plain".to_string()), "plain"),
    ];
    for (error, message) in cases {
        assert_eq!(error.to_string(), message);
        assert_eq!(error.clone().to_string(), message);
    }
}
