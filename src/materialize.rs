//! Materializing one file, as a sequence of filesystem actions.
//!
//! The caller performs each action and hands back its outcome; the next
//! action follows from the last one and that outcome. The target's parent
//! directory is created first; an existing target is copied aside as a
//! backup (whatever comes of that) and removed, as a file or else as a
//! directory tree; then the source is linked at the target, or read,
//! rendered with the variables and written there.
use vstd::prelude::*;

use crate::file::File;
use crate::paths::{parent_dir, parent_of};
use crate::render::{render, render_text};
use crate::text::{chars_of, string_from_chars};
use crate::variable::Variable;

verus! {

/// The part of materialization that failed.
#[derive(Debug, Clone, Copy, PartialEq, Eq, Structural)]
pub enum Phase {
    Mkdir,
    Remove,
    Render,
    Link,
}

/// A failed materialization: where it failed and what the system said.
#[derive(Debug, Clone)]
pub struct FileError {
    pub phase: Phase,
    pub message: String,
}

/// A filesystem action, or the end of materialization with its result.
#[derive(Debug)]
pub enum Action {
    /// Create a directory and its missing parents.
    CreateDirAll(String),
    /// Copy a file.
    Backup { from: String, to: String },
    /// Remove a file or a link.
    RemoveFile(String),
    /// Remove a directory with everything in it.
    RemoveDirAll(String),
    /// Read a file as text.
    ReadSource(String),
    /// Write text to a file.
    Write { path: String, content: String },
    /// Create a symbolic link at `target` that points at `source`.
    Symlink { source: String, target: String },
    Done(Result<(), FileError>),
}

/// What came of an action.
#[derive(Debug)]
pub enum Outcome {
    /// It was done.
    Success,
    /// The path it acts on does not exist.
    NotFound,
    /// It failed, with the system's message.
    Failed(String),
    /// A file was read, with its text.
    Read(String),
}

/// An action, as text.
pub enum Step {
    CreateDirAll(Seq<char>),
    Backup(Seq<char>, Seq<char>),
    RemoveFile(Seq<char>),
    RemoveDirAll(Seq<char>),
    ReadSource(Seq<char>),
    Write(Seq<char>, Seq<char>),
    Symlink(Seq<char>, Seq<char>),
    /// The end: no failure, or the failed phase and its message.
    Done(Option<(Phase, Seq<char>)>),
}

impl View for Action {
    type V = Step;

    open spec fn view(&self) -> Step {
        match self {
            Action::CreateDirAll(p) => Step::CreateDirAll(p@),
            Action::Backup { from, to } => Step::Backup(from@, to@),
            Action::RemoveFile(p) => Step::RemoveFile(p@),
            Action::RemoveDirAll(p) => Step::RemoveDirAll(p@),
            Action::ReadSource(p) => Step::ReadSource(p@),
            Action::Write { path, content } => Step::Write(path@, content@),
            Action::Symlink { source, target } => Step::Symlink(source@, target@),
            Action::Done(r) => Step::Done(
                match r {
                    Ok(()) => None,
                    Err(e) => Some((e.phase, e.message@)),
                },
            ),
        }
    }
}

/// Where the backup of `target` goes.
pub open spec fn backup_path(target: Seq<char>) -> Seq<char> {
    target + seq!['.', 'b', 'a', 'k']
}

/// The system's message for a failed outcome; empty for any other outcome.
pub open spec fn failure_message(o: Outcome) -> Seq<char> {
    match o {
        Outcome::Failed(m) => m@,
        _ => Seq::<char>::empty(),
    }
}

/// The first action for a file.
pub open spec fn first_step(f: File) -> Step {
    Step::CreateDirAll(parent_dir(f.target@))
}

/// What follows once the target is out of the way.
pub open spec fn place_step(f: File) -> Step {
    if f.to_parse {
        Step::ReadSource(f.source@)
    } else {
        Step::Symlink(f.source@, f.target@)
    }
}

/// The action after `last`, given its outcome.
pub open spec fn next_step(f: File, last: Step, o: Outcome, vars: Seq<Variable>) -> Step {
    match last {
        Step::CreateDirAll(_) => match o {
            Outcome::Success => Step::Backup(f.target@, backup_path(f.target@)),
            _ => Step::Done(Some((Phase::Mkdir, failure_message(o)))),
        },
        Step::Backup(_, _) => Step::RemoveFile(f.target@),
        Step::RemoveFile(_) => match o {
            Outcome::Failed(_) => Step::RemoveDirAll(f.target@),
            _ => place_step(f),
        },
        Step::RemoveDirAll(_) => match o {
            Outcome::Failed(m) => Step::Done(Some((Phase::Remove, m@))),
            _ => place_step(f),
        },
        Step::ReadSource(_) => match o {
            Outcome::Read(c) => Step::Write(f.target@, render_text(c@, vars)),
            _ => Step::Done(Some((Phase::Render, failure_message(o)))),
        },
        Step::Write(_, _) => match o {
            Outcome::Success => Step::Done(None),
            _ => Step::Done(Some((Phase::Render, failure_message(o)))),
        },
        Step::Symlink(_, _) => match o {
            Outcome::Success => Step::Done(None),
            _ => Step::Done(Some((Phase::Link, failure_message(o)))),
        },
        Step::Done(r) => Step::Done(r),
    }
}

fn fail(phase: Phase, o: &Outcome) -> (r: Action)
    ensures
        r@ == Step::Done(Some((phase, failure_message(*o)))),
{
    let message = match o {
        Outcome::Failed(m) => m.clone(),
        _ => String::new(),
    };
    Action::Done(Err(FileError { phase, message }))
}

impl File {
    fn place(&self) -> (r: Action)
        ensures
            r@ == place_step(*self),
    {
        if self.to_parse {
            Action::ReadSource(self.source.clone())
        } else {
            Action::Symlink { source: self.source.clone(), target: self.target.clone() }
        }
    }

    /// The first action of materializing this file: creating the target's
    /// parent directory.
    pub fn first_action(&self) -> (r: Action)
        ensures
            r@ == first_step(*self),
    {
        Action::CreateDirAll(parent_of(self.target.as_str()))
    }

    /// The action after `last`, whose outcome was `outcome`.
    pub fn next_action(&self, last: &Action, outcome: &Outcome, variables: &Vec<Variable>) -> (r: Action)
        ensures
            r@ == next_step(*self, last@, *outcome, variables@),
    {
        match last {
            Action::CreateDirAll(_) => match outcome {
                Outcome::Success => {
                    let mut b = chars_of(self.target.as_str());
                    b.push('.');
                    b.push('b');
                    b.push('a');
                    b.push('k');
                    assert(b@ =~= backup_path(self.target@));
                    Action::Backup { from: self.target.clone(), to: string_from_chars(&b) }
                },
                _ => fail(Phase::Mkdir, outcome),
            },
            Action::Backup { .. } => Action::RemoveFile(self.target.clone()),
            Action::RemoveFile(_) => match outcome {
                Outcome::Failed(_) => Action::RemoveDirAll(self.target.clone()),
                _ => self.place(),
            },
            Action::RemoveDirAll(_) => match outcome {
                Outcome::Failed(_) => fail(Phase::Remove, outcome),
                _ => self.place(),
            },
            Action::ReadSource(_) => match outcome {
                Outcome::Read(c) => Action::Write {
                    path: self.target.clone(),
                    content: render(c.as_str(), variables),
                },
                _ => fail(Phase::Render, outcome),
            },
            Action::Write { .. } => match outcome {
                Outcome::Success => Action::Done(Ok(())),
                _ => fail(Phase::Render, outcome),
            },
            Action::Symlink { .. } => match outcome {
                Outcome::Success => Action::Done(Ok(())),
                _ => fail(Phase::Link, outcome),
            },
            Action::Done(r) => Action::Done(
                match r {
                    Ok(()) => Ok(()),
                    Err(e) => Err(FileError { phase: e.phase, message: e.message.clone() }),
                },
            ),
        }
    }
}

/// The actions taken for a file, one more than the outcomes `os` of the
/// actions before the last.
pub open spec fn trace(f: File, os: Seq<Outcome>, vars: Seq<Variable>) -> Seq<Step>
    decreases os.len(),
{
    if os.len() == 0 {
        seq![first_step(f)]
    } else {
        let t = trace(f, os.drop_last(), vars);
        t.push(next_step(f, t.last(), os.last(), vars))
    }
}

proof fn lemma_trace_prefix(f: File, os: Seq<Outcome>, vars: Seq<Variable>)
    requires
        os.len() == 4,
    ensures
        trace(f, os, vars) == seq![
            first_step(f),
            next_step(f, first_step(f), os[0], vars),
            next_step(f, next_step(f, first_step(f), os[0], vars), os[1], vars),
            next_step(
                f,
                next_step(f, next_step(f, first_step(f), os[0], vars), os[1], vars),
                os[2],
                vars,
            ),
            next_step(
                f,
                next_step(
                    f,
                    next_step(f, next_step(f, first_step(f), os[0], vars), os[1], vars),
                    os[2],
                    vars,
                ),
                os[3],
                vars,
            ),
        ],
{
    let o1 = os.subrange(0, 1);
    let o2 = os.subrange(0, 2);
    let o3 = os.subrange(0, 3);
    assert(os.drop_last() =~= o3);
    assert(o3.drop_last() =~= o2);
    assert(o2.drop_last() =~= o1);
    assert(o1.drop_last() =~= Seq::<Outcome>::empty());
    let s0 = first_step(f);
    let s1 = next_step(f, s0, os[0], vars);
    let s2 = next_step(f, s1, os[1], vars);
    let s3 = next_step(f, s2, os[2], vars);
    let s4 = next_step(f, s3, os[3], vars);
    let t0 = trace(f, Seq::<Outcome>::empty(), vars);
    assert(t0 == seq![s0]);
    let t1 = trace(f, o1, vars);
    assert(t1 == t0.push(s1));
    let t2 = trace(f, o2, vars);
    assert(t2 == t1.push(s2));
    let t3 = trace(f, o3, vars);
    assert(t3 == t2.push(s3));
    assert(trace(f, os, vars) == t3.push(s4));
    assert(trace(f, os, vars) =~= seq![s0, s1, s2, s3, s4]);
}

/// A linked file whose parent directory and link succeed, and whose removal does not fail, is
/// linked at its target after whatever stood there is backed up and removed;
/// doing it again therefore succeeds the same way.
pub proof fn lemma_link_replaces_target(f: File, os: Seq<Outcome>, vars: Seq<Variable>)
    requires
        !f.to_parse,
        os.len() == 4,
        os[0] is Success,
        !(os[2] is Failed),
        os[3] is Success,
    ensures
        trace(f, os, vars) == seq![
            Step::CreateDirAll(parent_dir(f.target@)),
            Step::Backup(f.target@, backup_path(f.target@)),
            Step::RemoveFile(f.target@),
            Step::Symlink(f.source@, f.target@),
            Step::Done(None),
        ],
{
    lemma_trace_prefix(f, os, vars);
}

/// A rendered file whose parent directory succeeds, whose removal does not
/// fail and whose source is read is written at its target with
/// the source's text rendered with the variables.
pub proof fn lemma_render_writes_target(f: File, os: Seq<Outcome>, vars: Seq<Variable>, text: String)
    requires
        f.to_parse,
        os.len() == 4,
        os[0] is Success,
        !(os[2] is Failed),
        os[3] == Outcome::Read(text),
    ensures
        trace(f, os, vars) == seq![
            Step::CreateDirAll(parent_dir(f.target@)),
            Step::Backup(f.target@, backup_path(f.target@)),
            Step::RemoveFile(f.target@),
            Step::ReadSource(f.source@),
            Step::Write(f.target@, render_text(text@, vars)),
        ],
{
    lemma_trace_prefix(f, os, vars);
}

/// A step that creates, writes or links ends materialization with an error
/// of its phase on any outcome but success.
pub proof fn lemma_only_success_goes_on(f: File, last: Step, o: Outcome, vars: Seq<Variable>)
    requires
        !(o is Success),
        last is CreateDirAll || last is Write || last is Symlink,
    ensures
        next_step(f, last, o, vars) == Step::Done(
            Some(
                (
                    if last is CreateDirAll {
                        Phase::Mkdir
                    } else if last is Write {
                        Phase::Render
                    } else {
                        Phase::Link
                    },
                    failure_message(o),
                ),
            ),
        ),
{
}

/// When the target cannot be removed as a file, it is removed as a
/// directory tree; when that fails too, materialization ends with a removal
/// error carrying the system's message.
pub proof fn lemma_removal_falls_back(f: File, os: Seq<Outcome>, vars: Seq<Variable>)
    requires
        os.len() == 4,
        os[0] is Success,
        os[2] is Failed,
    ensures
        trace(f, os, vars)[3] == Step::RemoveDirAll(f.target@),
        os[3] is Failed ==> trace(f, os, vars)[4] == Step::Done(
            Some((Phase::Remove, os[3]->Failed_0@)),
        ),
        !(os[3] is Failed) ==> trace(f, os, vars)[4] == place_step(f),
{
    lemma_trace_prefix(f, os, vars);
}

} // verus!
