use yrice::file::FileEntry;
use yrice::materialize::{Action, Outcome};
use yrice::module::{Module, RawModule, Task};

fn s(x: &str) -> String {
    x.to_string()
}

fn shell_raw() -> RawModule {
    RawModule {
        dependencies: vec![s("bash")],
        files: Some(vec![FileEntry::Path(s("bashrc"))]),
        ..Default::default()
    }
}

#[test]
fn module_from_dirs_keeps_lists() {
    let r = RawModule {
        package_name: Some(s("vim")),
        dependencies: vec![s("git"), s("curl")],
        pre_steps: vec![s("echo pre")],
        post_steps: vec![s("echo post")],
        requires: vec![s("base")],
        files: Some(vec![FileEntry::Path(s("a")), FileEntry::Path(s("b"))]),
        ..Default::default()
    };
    let m = Module::from_dirs(&s("vim"), &r, s("/d/vim"), s("/t/vim"));
    assert_eq!(m.get_name(), "vim");
    assert_eq!(m.get_requires(), &vec![s("base")]);
    assert_eq!(m.files.len(), 2);
    assert_eq!(m.files[1].source, "/d/vim/b");
    assert_eq!(m.files[1].target, "/t/vim/b");
    assert_eq!(m.steps(true), &vec![s("echo pre")]);
    assert_eq!(m.steps(false), &vec![s("echo post")]);
}

#[test]
fn module_without_files_is_whole_directory() {
    let m = Module::from_dirs(&s("x"), &RawModule::default(), s("/d/x"), s("/t/x"));
    assert_eq!(m.files.len(), 1);
    assert_eq!(m.files[0].source, "/d/x");
    assert_eq!(m.files[0].target, "/t/x");
    assert!(!m.files[0].to_parse);
}

#[test]
fn install_commands_package_then_dependencies() {
    let r = RawModule { package_name: Some(s("vim")), dependencies: vec![s("git"), s("curl")], ..Default::default() };
    let m = Module::from_dirs(&s("vim"), &r, s("/d"), s("/t"));
    assert_eq!(m.install_commands(&s("pacman -S")), vec![s("pacman -S vim"), s("pacman -S git"), s("pacman -S curl")]);
}

#[test]
fn new_uses_dirname_and_config_root() {
    let r = RawModule { dirname: Some(s("sh")), ..Default::default() };
    let m = Module::new(&s("shell"), &r, &s("/dots"), &s("/home/u/.config")).unwrap();
    assert_eq!(m.source_dir, "/dots/sh");
    assert_eq!(m.target_dir, "/home/u/.config/sh");
}

#[test]
fn new_keeps_absolute_target_dir() {
    let r = RawModule { target_dir: Some(s("/etc/thing")), ..Default::default() };
    let m = Module::new(&s("thing"), &r, &s("/dots"), &s("/cfg")).unwrap();
    assert_eq!(m.source_dir, "/dots/thing");
    assert_eq!(m.target_dir, "/etc/thing");
    assert_eq!(m.files[0].target, "/etc/thing");
}

#[test]
fn new_makes_relative_dots_dir_absolute() {
    let m = Module::new(&s("shell"), &RawModule::default(), &s("dots"), &s("/cfg")).unwrap();
    assert!(m.source_dir.starts_with('/'));
    assert!(m.source_dir.ends_with("/dots/shell"));
    assert_ne!(m.source_dir, "dots/shell");
}

#[test]
fn new_resolves_relative_default_target() {
    let m = Module::new(&s("shell"), &RawModule::default(), &s("/dots"), &s("cfg")).unwrap();
    assert!(m.target_dir.starts_with('/'));
    assert!(m.target_dir.ends_with("/cfg/shell"));
    assert!(m.files[0].target.starts_with('/'));
}

#[test]
fn tasks_run_installs_steps_files_in_order() {
    let r = RawModule {
        package_name: Some(s("p")),
        dependencies: vec![s("d")],
        pre_steps: vec![s("pre")],
        post_steps: vec![s("post")],
        files: Some(vec![FileEntry::Path(s("a")), FileEntry::Path(s("b"))]),
        ..Default::default()
    };
    let m = Module::from_dirs(&s("m"), &r, s("/d"), s("/t"));
    let t: Vec<String> = m
        .tasks(true, &s("inst"))
        .iter()
        .map(|t| match t {
            Task::Shell(c) => c.clone(),
            Task::Deploy(i) => format!("file {}", i),
        })
        .collect();
    assert_eq!(t, vec!["inst p", "inst d", "pre", "file 0", "file 1", "post"]);
    assert_eq!(m.tasks(false, &s("inst")).len(), 4);
}

#[test]
fn shell_module_end_to_end() {
    let m = Module::new(&s("shell"), &shell_raw(), &s("/dots"), &s("/home/u/.config")).unwrap();
    let tasks = m.tasks(true, &s("pkg install"));
    assert_eq!(tasks.len(), 2);
    match &tasks[0] {
        Task::Shell(c) => assert_eq!(c, "pkg install bash"),
        other => panic!("unexpected {:?}", other),
    }
    let f = match &tasks[1] {
        Task::Deploy(i) => &m.files[*i],
        other => panic!("unexpected {:?}", other),
    };
    let a0 = f.first_action();
    match &a0 {
        Action::CreateDirAll(p) => assert_eq!(p, "/home/u/.config/shell"),
        other => panic!("unexpected {:?}", other),
    }
    let a1 = f.next_action(&a0, &Outcome::Success, &vec![]);
    let a2 = f.next_action(&a1, &Outcome::Success, &vec![]);
    match &a2 {
        Action::RemoveFile(p) => assert_eq!(p, "/home/u/.config/shell/bashrc"),
        other => panic!("unexpected {:?}", other),
    }
    let a3 = f.next_action(&a2, &Outcome::Success, &vec![]);
    match &a3 {
        Action::Symlink { source, target } => {
            assert_eq!(source, "/dots/shell/bashrc");
            assert_eq!(target, "/home/u/.config/shell/bashrc");
        }
        other => panic!("unexpected {:?}", other),
    }
    let a4 = f.next_action(&a3, &Outcome::Success, &vec![]);
    assert!(matches!(a4, Action::Done(Ok(()))));
}
