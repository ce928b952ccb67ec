use yrice::config::Config;
use yrice::module::RawModule;

fn s(x: &str) -> String {
    x.to_string()
}

#[test]
fn new_config_is_empty() {
    let c = Config::new(s("cfg.yaml"));
    assert_eq!(c.filename, "cfg.yaml");
    assert_eq!(c.globals.install_command, "");
    assert_eq!(c.globals.dotfiles, "");
    assert!(c.variables.is_empty());
    assert!(c.modules.is_empty());
}

#[test]
fn load_globals_reads_known_keys_and_reports_others() {
    let mut c = Config::new(s("c"));
    let unknown = c.load_globals(&vec![
        (s("installCommand"), s("apt install")),
        (s("colour"), s("blue")),
        (s("dotfiles"), s("/dots")),
        (s("installCommand"), s("pacman -S")),
    ]);
    assert_eq!(c.globals.install_command, "pacman -S");
    assert_eq!(c.globals.dotfiles, "/dots");
    assert_eq!(unknown, vec![s("colour")]);
}

#[test]
fn load_modules_builds_in_resolved_order() {
    let mut c = Config::new(s("c"));
    c.load_globals(&vec![(s("dotfiles"), s("/dots"))]);
    let entries = vec![
        (s("a"), RawModule { requires: vec![s("b"), s("nope")], ..Default::default() }),
        (s("b"), RawModule { enabled: Some(false), ..Default::default() }),
        (s("c"), RawModule { ..Default::default() }),
    ];
    let missing = c.load_modules(&entries, &vec![], &s("/cfg")).unwrap();
    let names: Vec<&str> = c.modules.iter().map(|m| m.get_name().as_str()).collect();
    assert_eq!(names, vec!["b", "a", "c"]);
    assert_eq!(c.modules[0].source_dir, "/dots/b");
    assert_eq!(c.modules[0].target_dir, "/cfg/b");
    assert_eq!(missing.len(), 1);
    assert_eq!(missing[0].module, "a");
    assert_eq!(missing[0].required, "nope");
}

#[test]
fn load_modules_with_filter() {
    let mut c = Config::new(s("c"));
    c.load_globals(&vec![(s("dotfiles"), s("/dots"))]);
    let entries = vec![
        (s("a"), RawModule { requires: vec![s("b")], ..Default::default() }),
        (s("b"), RawModule::default()),
        (s("c"), RawModule::default()),
    ];
    c.load_modules(&entries, &vec![s("a")], &s("/cfg")).unwrap();
    let names: Vec<&str> = c.modules.iter().map(|m| m.get_name().as_str()).collect();
    assert_eq!(names, vec!["b", "a"]);
}
