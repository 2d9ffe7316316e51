use rote::plugins::{config_dir_from, is_plugin_file, join_path, plugin_dirs, plugin_module_name};

#[test]
fn plugin_dirs_in_load_order() {
    assert_eq!(
        plugin_dirs(Some("/home/u/.config".to_string())),
        vec!["/home/u/.config/rote/plugins".to_string(), "plugins".to_string()]
    );
    assert_eq!(plugin_dirs(None), vec!["plugins".to_string()]);
}

#[test]
fn config_dir_prefers_xdg_then_home() {
    assert_eq!(config_dir_from(Some("/x".to_string()), Some("/h".to_string())), Some("/x".to_string()));
    assert_eq!(config_dir_from(None, Some("/h".to_string())), Some("/h/.config".to_string()));
    assert_eq!(config_dir_from(None, Some("/h/".to_string())), Some("/h/.config".to_string()));
    assert_eq!(config_dir_from(None, None), None);
}

#[test]
fn joining_paths() {
    assert_eq!(join_path("a", "b"), "a/b");
    assert_eq!(join_path("a/", "b"), "a/b");
    assert_eq!(join_path("", "b"), "b");
}

#[test]
fn plugin_files_and_module_names() {
    assert!(is_plugin_file("file_picker.py"));
    assert!(is_plugin_file("a.py"));
    assert!(!is_plugin_file(".py"));
    assert!(!is_plugin_file("notes.txt"));
    assert!(!is_plugin_file("py"));
    assert!(!is_plugin_file("x.pyc"));
    assert_eq!(plugin_module_name("file_picker.py"), "file_picker");
    assert_eq!(plugin_module_name("a.py.py"), "a");
    assert_eq!(plugin_module_name("plain"), "plain");
    assert_eq!(plugin_module_name(".py"), "");
}

#[test]
fn module_names_match_std_trim() {
    for name in ["x.py", "x.py.py", "x.pyx", "", ".py", "y.p", "é.py"] {
        assert_eq!(plugin_module_name(name), name.trim_end_matches(".py"));
        let ext = std::path::Path::new(name).extension().and_then(|e| e.to_str());
        assert_eq!(is_plugin_file(name), ext == Some("py"), "name {:?}", name);
    }
}
