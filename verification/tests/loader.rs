use wasmcord::loader::{
    event_kind, plugin_dir, select_plugin_files, EventKind, PluginManager, MAX_CONSECUTIVE_FAILURES,
};
use wasmcord::paths::{file_extension, file_stem, plugin_name};

fn names(m: &PluginManager<u32, String>) -> Vec<String> {
    m.loaded_names()
}

#[test]
fn event_names_map_to_kinds() {
    assert_eq!(event_kind("ready"), Some(EventKind::Ready));
    assert_eq!(event_kind("message-create"), Some(EventKind::MessageCreate));
    assert_eq!(event_kind("interaction-create"), Some(EventKind::InteractionCreate));
    assert_eq!(event_kind("guild-member-add"), Some(EventKind::GuildMemberAdd));
    assert_eq!(event_kind("guild-member-remove"), Some(EventKind::GuildMemberRemove));
    assert_eq!(event_kind("reaction-add"), Some(EventKind::ReactionAdd));
    assert_eq!(event_kind("voice-state-update"), Some(EventKind::VoiceStateUpdate));
}

#[test]
fn unknown_event_names_map_to_nothing() {
    assert_eq!(event_kind("MESSAGE_CREATE"), None);
    assert_eq!(event_kind("READY"), None);
    assert_eq!(event_kind(""), None);
    assert_eq!(event_kind("ready "), None);
}

#[test]
fn plugin_dir_defaults_and_overrides() {
    assert_eq!(plugin_dir(None), "./plugins");
    assert_eq!(plugin_dir(Some("/srv/plugins".to_string())), "/srv/plugins");
}

#[test]
fn stems_and_extensions_of_file_names() {
    assert_eq!(file_stem("ping.wasm"), "ping");
    assert_eq!(file_stem("a.b.wasm"), "a.b");
    assert_eq!(file_stem("noext"), "noext");
    assert_eq!(file_stem(".hidden"), ".hidden");
    assert_eq!(file_stem(".."), "..");
    assert_eq!(file_stem("trailing."), "trailing");
    assert_eq!(file_extension("ping.wasm"), Some("wasm".to_string()));
    assert_eq!(file_extension("a.b.wasm"), Some("wasm".to_string()));
    assert_eq!(file_extension("noext"), None);
    assert_eq!(file_extension(".wasm"), None);
    assert_eq!(file_extension(".."), None);
    assert_eq!(file_extension("trailing."), Some(String::new()));
}

#[test]
fn plugin_names_from_paths() {
    assert_eq!(plugin_name("./plugins/ping.wasm"), "ping");
    assert_eq!(plugin_name("/srv/plugins/music.v2.wasm"), "music.v2");
    assert_eq!(plugin_name("ping"), "ping");
    assert_eq!(plugin_name("/"), "unknown");
    assert_eq!(plugin_name(""), "unknown");
    assert_eq!(PluginManager::<u32, String>::plugin_name("plugins/queue.wasm"), "queue");
}

#[test]
fn only_wasm_files_are_plugins() {
    let entries = vec![
        "ping.wasm".to_string(),
        "ping.toml".to_string(),
        ".wasm".to_string(),
        "music.wasm".to_string(),
        "readme".to_string(),
        "x.WASM".to_string(),
    ];
    assert_eq!(
        select_plugin_files(entries),
        vec!["ping.wasm".to_string(), "music.wasm".to_string()]
    );
}

#[test]
fn new_manager_has_no_plugins() {
    let m: PluginManager<u32, String> = PluginManager::new();
    assert_eq!(m.len(), 0);
    assert!(names(&m).is_empty());
    assert!(!m.is_loaded("ping"));
    assert!(m.list_commands().is_empty());
}

#[test]
fn register_then_unload() {
    let mut m: PluginManager<u32, String> = PluginManager::new();
    m.register("ping".to_string(), 1, vec!["ping".to_string()]);
    m.register("music".to_string(), 2, vec!["play".to_string(), "stop".to_string()]);
    assert!(m.is_loaded("ping"));
    assert!(m.is_loaded("music"));
    assert_eq!(names(&m), vec!["ping".to_string(), "music".to_string()]);
    assert_eq!(
        m.list_commands(),
        vec!["ping".to_string(), "play".to_string(), "stop".to_string()]
    );
    m.unload("ping");
    assert!(!m.is_loaded("ping"));
    assert!(m.is_loaded("music"));
    assert_eq!(names(&m), vec!["music".to_string()]);
    m.unload("absent");
    assert_eq!(m.len(), 1);
}

#[test]
fn reload_replaces_plugin_in_place() {
    let mut m: PluginManager<u32, String> = PluginManager::new();
    m.register("ping".to_string(), 1, vec!["old".to_string()]);
    m.register("music".to_string(), 2, vec![]);
    m.register("ping".to_string(), 3, vec!["new".to_string()]);
    assert_eq!(names(&m), vec!["ping".to_string(), "music".to_string()]);
    assert_eq!(m.list_commands(), vec!["new".to_string()]);
    assert_eq!(*m.plugin_at_mut(0), 3);
}

#[test]
fn register_all_keeps_the_last_of_a_name() {
    let mut m: PluginManager<u32, String> = PluginManager::new();
    m.register_all(vec![
        ("a".to_string(), 1, vec![]),
        ("b".to_string(), 2, vec!["cb".to_string()]),
        ("a".to_string(), 3, vec!["ca".to_string()]),
    ]);
    assert_eq!(names(&m), vec!["a".to_string(), "b".to_string()]);
    assert_eq!(*m.plugin_at_mut(0), 3);
    assert_eq!(*m.plugin_at_mut(1), 2);
}

#[test]
fn unload_by_path_uses_the_file_stem() {
    let mut m: PluginManager<u32, String> = PluginManager::new();
    m.register("ping".to_string(), 1, vec![]);
    let name = m.unload_by_path("./plugins/ping.wasm");
    assert_eq!(name, "ping");
    assert!(!m.is_loaded("ping"));
}

#[test]
fn plugins_can_be_changed_in_place() {
    let mut m: PluginManager<u32, String> = PluginManager::new();
    m.register("ping".to_string(), 1, vec![]);
    *m.plugin_at_mut(0) += 10;
    assert_eq!(*m.plugin_at_mut(0), 11);
    assert!(m.is_loaded("ping"));
}

#[test]
fn stems_and_extensions_agree_with_std_path() {
    for name in ["ping.wasm", "a.b.c", "noext", ".hidden", ".a.b", "x.", "é.wasm", "a..b"] {
        let p = std::path::Path::new(name);
        let stem = p.file_stem().map(|s| s.to_str().unwrap().to_string());
        let ext = p.extension().map(|s| s.to_str().unwrap().to_string());
        assert_eq!(Some(file_stem(name)), stem, "{name}");
        assert_eq!(file_extension(name), ext, "{name}");
    }
}

#[test]
fn plugin_names_of_nested_and_special_paths() {
    assert_eq!(plugin_name("a/b.c.wasm"), "b.c");
    assert_eq!(plugin_name("/srv/plugins/ping.wasm"), "ping");
    assert_eq!(plugin_name(".."), "unknown");
    assert_eq!(plugin_name("plugins/.."), "unknown");
    assert_eq!(plugin_name("plugins/.hidden"), ".hidden");
}

#[test]
fn five_failures_in_a_row_unload_a_plugin() {
    let mut m: PluginManager<u32, String> = PluginManager::new();
    m.register("flaky".to_string(), 1, Vec::new());
    m.register("steady".to_string(), 2, Vec::new());
    assert_eq!(MAX_CONSECUTIVE_FAILURES, 5);
    for _ in 0..4 {
        assert!(!m.record_outcome("flaky", false));
        assert!(m.is_loaded("flaky"));
    }
    assert!(m.record_outcome("flaky", false));
    assert!(!m.is_loaded("flaky"));
    assert!(m.is_loaded("steady"));
    assert_eq!(names(&m), vec!["steady".to_string()]);
}

#[test]
fn a_success_restarts_the_failure_count() {
    let mut m: PluginManager<u32, String> = PluginManager::new();
    m.register("flaky".to_string(), 1, Vec::new());
    for _ in 0..4 {
        assert!(!m.record_outcome("flaky", false));
    }
    assert!(!m.record_outcome("flaky", true));
    for _ in 0..4 {
        assert!(!m.record_outcome("flaky", false));
    }
    assert!(m.is_loaded("flaky"));
    assert!(m.record_outcome("flaky", false));
    assert!(!m.is_loaded("flaky"));
}

#[test]
fn reloading_restarts_the_failure_count() {
    let mut m: PluginManager<u32, String> = PluginManager::new();
    m.register("p".to_string(), 1, Vec::new());
    for _ in 0..4 {
        assert!(!m.record_outcome("p", false));
    }
    m.register("p".to_string(), 2, Vec::new());
    assert!(!m.record_outcome("p", false));
    assert!(m.is_loaded("p"));
}

#[test]
fn outcomes_of_unknown_plugins_change_nothing() {
    let mut m: PluginManager<u32, String> = PluginManager::new();
    m.register("p".to_string(), 1, Vec::new());
    for _ in 0..6 {
        assert!(!m.record_outcome("q", false));
    }
    assert_eq!(names(&m), vec!["p".to_string()]);
}
