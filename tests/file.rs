use yrice::file::{File, FileEntry};
use yrice::materialize::{Action, Outcome, Phase};
use yrice::variable::Variable;

fn s(x: &str) -> String {
    x.to_string()
}

fn linked(source: &str, target: &str) -> File {
    File { source: s(source), target: s(target), to_parse: false }
}

fn describe(a: &Action) -> String {
    match a {
        Action::CreateDirAll(p) => format!("mkdir {}", p),
        Action::Backup { from, to } => format!("copy {} {}", from, to),
        Action::RemoveFile(p) => format!("rm {}", p),
        Action::RemoveDirAll(p) => format!("rmdir {}", p),
        Action::ReadSource(p) => format!("read {}", p),
        Action::Write { path, content } => format!("write {} {}", path, content),
        Action::Symlink { source, target } => format!("ln {} {}", source, target),
        Action::Done(Ok(())) => s("done"),
        Action::Done(Err(e)) => format!("error {:?} {}", e.phase, e.message),
    }
}

fn run(f: &File, outcomes: Vec<Outcome>, vars: &Vec<Variable>) -> Vec<String> {
    let mut act = f.first_action();
    let mut seen = vec![describe(&act)];
    for o in outcomes {
        act = f.next_action(&act, &o, vars);
        seen.push(describe(&act));
    }
    seen
}

#[test]
fn file_from_bare_path() {
    let f = File::new(&FileEntry::Path(s("bashrc")), &s("/dots/shell"), &s("/home/u/.config/shell"));
    assert_eq!(f.source, "/dots/shell/bashrc");
    assert_eq!(f.target, "/home/u/.config/shell/bashrc");
    assert!(!f.to_parse);
    assert_eq!(f.get_source(), "/dots/shell/bashrc");
}

#[test]
fn file_from_spec_with_target_and_parse() {
    let e = FileEntry::Spec { source: s("rc.tmpl"), target: Some(s("rc")), parse: Some(true) };
    let f = File::new(&e, &s("/d"), &s("/t"));
    assert_eq!(f.source, "/d/rc.tmpl");
    assert_eq!(f.target, "/t/rc");
    assert!(f.to_parse);
}

#[test]
fn file_from_spec_defaults() {
    let e = FileEntry::Spec { source: s("a/b"), target: None, parse: None };
    let f = File::new(&e, &s("/d"), &s("/t"));
    assert_eq!(f.source, "/d/a/b");
    assert_eq!(f.target, "/t/a/b");
    assert!(!f.to_parse);
}

#[test]
fn file_with_empty_source_is_whole_directory() {
    let f = File::new(&FileEntry::Path(s("")), &s("/d"), &s("/t"));
    assert_eq!(f.source, "/d");
    assert_eq!(f.target, "/t");
    let e = FileEntry::Spec { source: s(""), target: Some(s("x")), parse: Some(true) };
    let g = File::new(&e, &s("/d"), &s("/t"));
    assert_eq!(g.source, "/d");
    assert_eq!(g.target, "/t");
    assert!(g.to_parse);
}

#[test]
fn link_first_time_creates_symlink() {
    let f = linked("/dots/shell/bashrc", "/home/u/.config/shell/bashrc");
    let out = run(&f, vec![Outcome::Success, Outcome::NotFound, Outcome::NotFound, Outcome::Success], &vec![]);
    assert_eq!(
        out,
        vec![
            "mkdir /home/u/.config/shell",
            "copy /home/u/.config/shell/bashrc /home/u/.config/shell/bashrc.bak",
            "rm /home/u/.config/shell/bashrc",
            "ln /dots/shell/bashrc /home/u/.config/shell/bashrc",
            "done",
        ]
    );
}

#[test]
fn link_second_time_removes_prior_target() {
    let f = linked("/dots/a", "/t/a");
    let out = run(&f, vec![Outcome::Success, Outcome::Success, Outcome::Success, Outcome::Success], &vec![]);
    assert_eq!(out, vec!["mkdir /t", "copy /t/a /t/a.bak", "rm /t/a", "ln /dots/a /t/a", "done"]);
}

#[test]
fn failed_file_removal_falls_back_to_directory_removal() {
    let f = linked("/dots/a", "/t/a");
    let out = run(
        &f,
        vec![Outcome::Success, Outcome::Failed(s("is a directory")), Outcome::Failed(s("is a directory")), Outcome::Success, Outcome::Success],
        &vec![],
    );
    assert_eq!(out, vec!["mkdir /t", "copy /t/a /t/a.bak", "rm /t/a", "rmdir /t/a", "ln /dots/a /t/a", "done"]);
}

#[test]
fn failed_directory_removal_reports_remove_error() {
    let f = linked("/dots/a", "/t/a");
    let out = run(
        &f,
        vec![Outcome::Success, Outcome::Success, Outcome::Failed(s("busy")), Outcome::Failed(s("denied"))],
        &vec![],
    );
    assert_eq!(out[4], "error Remove denied");
    let mut act = f.first_action();
    for o in vec![Outcome::Success, Outcome::Success, Outcome::Failed(s("busy")), Outcome::Failed(s("denied"))] {
        act = f.next_action(&act, &o, &vec![]);
    }
    match act {
        Action::Done(Err(e)) => {
            assert_eq!(e.phase, Phase::Remove);
            assert_eq!(e.message, "denied");
        }
        other => panic!("unexpected {:?}", other),
    }
}

#[test]
fn mkdir_failure_stops() {
    let f = linked("/dots/a", "/t/a");
    let out = run(&f, vec![Outcome::Failed(s("read-only")), Outcome::Success], &vec![]);
    assert_eq!(out, vec!["mkdir /t", "error Mkdir read-only", "error Mkdir read-only"]);
}

#[test]
fn rendered_file_is_written_with_variables() {
    let f = File { source: s("/d/cfg"), target: s("/t/cfg"), to_parse: true };
    let vars = vec![Variable::new(s("X"), s("Y"))];
    let out = run(
        &f,
        vec![Outcome::Success, Outcome::NotFound, Outcome::NotFound, Outcome::Read(s("hello %{{X}} world")), Outcome::Success],
        &vars,
    );
    assert_eq!(
        out,
        vec!["mkdir /t", "copy /t/cfg /t/cfg.bak", "rm /t/cfg", "read /d/cfg", "write /t/cfg hello Y world", "done"]
    );
}

#[test]
fn unreadable_source_and_failed_write_report_render() {
    let f = File { source: s("/d/cfg"), target: s("/t/cfg"), to_parse: true };
    let out = run(&f, vec![Outcome::Success, Outcome::Success, Outcome::Success, Outcome::NotFound], &vec![]);
    assert_eq!(out[4], "error Render ");
    let out = run(
        &f,
        vec![Outcome::Success, Outcome::Success, Outcome::Success, Outcome::Read(s("x")), Outcome::Failed(s("full"))],
        &vec![],
    );
    assert_eq!(out[5], "error Render full");
}

#[test]
fn failed_link_reports_link() {
    let f = linked("/dots/a", "/t/a");
    let out = run(&f, vec![Outcome::Success, Outcome::Success, Outcome::Success, Outcome::Failed(s("exists"))], &vec![]);
    assert_eq!(out[4], "error Link exists");
}

#[test]
fn link_not_found_is_a_link_error() {
    let f = linked("/dots/a", "/t/a");
    let out = run(&f, vec![Outcome::Success, Outcome::Success, Outcome::Success, Outcome::NotFound], &vec![]);
    assert_eq!(out[4], "error Link ");
}

#[test]
fn mkdir_and_write_not_found_are_errors() {
    let f = File { source: s("/d/cfg"), target: s("/t/cfg"), to_parse: true };
    let out = run(&f, vec![Outcome::NotFound], &vec![]);
    assert_eq!(out[1], "error Mkdir ");
    let out = run(
        &f,
        vec![Outcome::Success, Outcome::Success, Outcome::Success, Outcome::Read(s("x")), Outcome::NotFound],
        &vec![],
    );
    assert_eq!(out[5], "error Render ");
}
