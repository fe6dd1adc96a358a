use background::scripts::{load_scripts, script_for, ScriptType};

#[test]
fn test_load_scripts() {
    let scripts = load_scripts();
    assert!(!scripts.is_empty());
}

#[test]
fn every_script_kind_is_listed_once() {
    let scripts = load_scripts();
    assert_eq!(scripts.len(), 9);
    assert_eq!(scripts[0].0, ScriptType::ForegroundApp);
    assert_eq!(scripts[1].0, ScriptType::ForegroundWindowTitle);
    assert_eq!(scripts[8].0, ScriptType::QuitDistractingApps);
    for (kind, source) in &scripts {
        assert!(!source.is_empty());
        assert_eq!(scripts.iter().filter(|(k, _)| k == kind).count(), 1);
    }
}

#[test]
fn script_lookup_finds_the_first_of_a_kind() {
    let scripts = load_scripts();
    let app = script_for(&scripts, ScriptType::ForegroundApp).unwrap();
    assert!(app.contains("frontmost"));
    let listed = vec![
        (ScriptType::IdleTime, String::from("first")),
        (ScriptType::IdleTime, String::from("second")),
    ];
    assert_eq!(script_for(&listed, ScriptType::IdleTime), Some(&String::from("first")));
    assert_eq!(script_for(&listed, ScriptType::LockScreen), None);
}
