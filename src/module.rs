//! Modules: a named bundle of packages, setup steps, files and required
//! modules.
use vstd::prelude::*;

use crate::file::{built_from, File, FileEntry};
use crate::paths::{child, child_path, is_absolute, join, join_path, resolve};
use crate::text::{chars_of, push_all, string_from_chars};

verus! {

/// A module as written in the configuration. Absent lists are empty.
#[derive(Debug, Clone, Default)]
pub struct RawModule {
    /// Directory name under the dotfiles root and the config directory
    /// (the module's name when absent).
    pub dirname: Option<String>,
    /// Whether the module is deployed when no modules are named (on when absent).
    pub enabled: Option<bool>,
    /// Where the files go (the config directory's `dirname` when absent).
    pub target_dir: Option<String>,
    pub package_name: Option<String>,
    pub dependencies: Vec<String>,
    /// The files (the whole source directory when absent).
    pub files: Option<Vec<FileEntry>>,
    pub pre_steps: Vec<String>,
    pub post_steps: Vec<String>,
    pub requires: Vec<String>,
}

/// Why a module could not be built.
#[derive(Debug, Clone)]
pub enum LoadError {
    /// The path could not be made absolute.
    Unresolved(String),
}

/// A module ready to deploy, with its directories resolved and its files
/// placed under them.
#[derive(Debug, Clone)]
pub struct Module {
    pub name: String,
    pub package_name: Option<String>,
    pub dependencies: Vec<String>,
    pub files: Vec<File>,
    pub pre_steps: Vec<String>,
    pub post_steps: Vec<String>,
    pub requires: Vec<String>,
    pub source_dir: String,
    pub target_dir: String,
}

/// One piece of a module's deployment.
#[derive(Debug)]
pub enum Task {
    /// Run a shell command.
    Shell(String),
    /// Materialize the module's file with this index.
    Deploy(usize),
}

/// A task, as text.
pub enum Job {
    Shell(Seq<char>),
    Deploy(int),
}

impl View for Task {
    type V = Job;

    open spec fn view(&self) -> Job {
        match self {
            Task::Shell(c) => Job::Shell(c@),
            Task::Deploy(i) => Job::Deploy(*i as int),
        }
    }
}

pub open spec fn shell_jobs(cmds: Seq<String>) -> Seq<Job> {
    cmds.map_values(|c: String| Job::Shell(c@))
}

/// A module's deployment, in order: the installs when asked for, the steps
/// before the files, every file, and the steps after them.
pub open spec fn plan(m: Module, install: bool, install_command: Seq<char>) -> Seq<Job> {
    let installs = if install {
        install_targets(m).map_values(|p: String| Job::Shell(install_line(install_command, p@)))
    } else {
        seq![]
    };
    installs + shell_jobs(m.pre_steps@) + Seq::new(m.files.len() as nat, |i: int| Job::Deploy(i))
        + shell_jobs(m.post_steps@)
}

/// The directory name of a module.
pub open spec fn dir_name(name: Seq<char>, raw: RawModule) -> Seq<char> {
    match raw.dirname {
        Some(d) => d@,
        None => name,
    }
}

/// Whether a module takes part when no modules are named.
pub open spec fn is_enabled(raw: RawModule) -> bool {
    match raw.enabled {
        Some(b) => b,
        None => true,
    }
}

/// `m` is the module `name` described by `raw`, with its files under the two
/// directories.
pub open spec fn module_built(m: Module, name: Seq<char>, raw: RawModule, source_dir: Seq<char>, target_dir: Seq<char>) -> bool {
    &&& m.name@ == name
    &&& m.package_name == raw.package_name
    &&& m.dependencies@ == raw.dependencies@
    &&& m.pre_steps@ == raw.pre_steps@
    &&& m.post_steps@ == raw.post_steps@
    &&& m.requires@ == raw.requires@
    &&& m.source_dir@ == source_dir
    &&& m.target_dir@ == target_dir
    &&& match raw.files {
        Some(es) => m.files.len() == es.len() && forall|i: int|
            0 <= i < es.len() ==> built_from(#[trigger] m.files@[i], es@[i], source_dir, target_dir),
        None => m.files.len() == 1 && m.files@[0].source@ == source_dir && m.files@[0].target@
            == target_dir && !m.files@[0].to_parse,
    }
}

/// The target directory of a module as written: the explicit one, or
/// `dirname` under `config_root`.
pub open spec fn target_written(name: Seq<char>, raw: RawModule, config_root: Seq<char>) -> Seq<char> {
    match raw.target_dir {
        Some(t) => t@,
        None => child(config_root, dir_name(name, raw)),
    }
}

/// `m` is module `name` built from `raw` with `dots_dir` as the dotfiles
/// root and `config_root` as the config directory. Both directories are
/// absolute; a directory already absolute as written is kept as it is.
pub open spec fn placed_module(m: Module, name: Seq<char>, raw: RawModule, dots_dir: Seq<char>, config_root: Seq<char>) -> bool {
    &&& module_built(m, name, raw, m.source_dir@, m.target_dir@)
    &&& is_absolute(m.source_dir@)
    &&& is_absolute(m.target_dir@)
    &&& is_absolute(join(dots_dir, dir_name(name, raw))) ==> m.source_dir@ == join(
        dots_dir,
        dir_name(name, raw),
    )
    &&& is_absolute(target_written(name, raw, config_root)) ==> m.target_dir@ == target_written(
        name,
        raw,
        config_root,
    )
}

/// The directories of a module are absolute as written, so building it
/// cannot fail.
pub open spec fn resolvable(name: Seq<char>, raw: RawModule, dots_dir: Seq<char>, config_root: Seq<char>) -> bool {
    &&& is_absolute(join(dots_dir, dir_name(name, raw)))
    &&& is_absolute(target_written(name, raw, config_root))
}

/// `p` is one of the two directories of a module as written.
pub open spec fn written_dir(p: Seq<char>, name: Seq<char>, raw: RawModule, dots_dir: Seq<char>, config_root: Seq<char>) -> bool {
    p == join(dots_dir, dir_name(name, raw)) || p == target_written(name, raw, config_root)
}

/// `p` made absolute: kept when it already is, resolved otherwise.
fn absolute(p: String) -> (r: Result<String, LoadError>)
    ensures
        match r {
            Ok(s) => is_absolute(s@) && (is_absolute(p@) ==> s@ == p@),
            Err(LoadError::Unresolved(q)) => q@ == p@ && !is_absolute(p@),
        },
{
    let c = chars_of(p.as_str());
    if c.len() > 0 && c[0] == '/' {
        return Ok(p);
    }
    match resolve(p.as_str()) {
        Some(s) => {
            let d = chars_of(s.as_str());
            if d.len() > 0 && d[0] == '/' {
                Ok(s)
            } else {
                Err(LoadError::Unresolved(p))
            }
        },
        None => Err(LoadError::Unresolved(p)),
    }
}

/// The packages to install for a module: its package, then its dependencies.
pub open spec fn install_targets(m: Module) -> Seq<String> {
    match m.package_name {
        Some(p) => seq![p] + m.dependencies@,
        None => m.dependencies@,
    }
}

/// The shell command that installs `package`.
pub open spec fn install_line(command: Seq<char>, package: Seq<char>) -> Seq<char> {
    command + seq![' '] + package
}

pub(crate) fn clone_strings(v: &Vec<String>) -> (r: Vec<String>)
    ensures
        r@ == v@,
{
    let mut r: Vec<String> = Vec::new();
    let mut k: usize = 0;
    while k < v.len()
        invariant
            k <= v.len(),
            r@ == v@.subrange(0, k as int),
        decreases v.len() - k,
    {
        r.push(v[k].clone());
        k = k + 1;
        assert(r@ =~= v@.subrange(0, k as int));
    }
    assert(v@.subrange(0, v.len() as int) =~= v@);
    r
}

impl Module {
    /// The module `name` described by `raw`, with its files under the given
    /// directories.
    pub fn from_dirs(name: &String, raw: &RawModule, source_dir: String, target_dir: String) -> (r: Module)
        ensures
            module_built(r, name@, *raw, source_dir@, target_dir@),
    {
        let files = match &raw.files {
            Some(es) => {
                let mut fs: Vec<File> = Vec::new();
                let mut k: usize = 0;
                while k < es.len()
                    invariant
                        k <= es.len(),
                        fs.len() == k,
                        forall|i: int|
                            0 <= i < k ==> built_from(
                                #[trigger] fs@[i],
                                es@[i],
                                source_dir@,
                                target_dir@,
                            ),
                    decreases es.len() - k,
                {
                    fs.push(File::new(&es[k], &source_dir, &target_dir));
                    k = k + 1;
                }
                fs
            },
            None => {
                let mut fs: Vec<File> = Vec::new();
                fs.push(File { source: source_dir.clone(), target: target_dir.clone(), to_parse: false });
                fs
            },
        };
        Module {
            name: name.clone(),
            package_name: raw.package_name.clone(),
            dependencies: clone_strings(&raw.dependencies),
            files,
            pre_steps: clone_strings(&raw.pre_steps),
            post_steps: clone_strings(&raw.post_steps),
            requires: clone_strings(&raw.requires),
            source_dir,
            target_dir,
        }
    }

    /// Builds the module `name`: its source directory is `dirname` under
    /// `dots_dir`, its target directory the explicit one or `dirname` under
    /// `config_root`. Both are made absolute, which depends on the home and
    /// current directories; an absolute path is kept as it is.
    pub fn new(name: &String, raw: &RawModule, dots_dir: &String, config_root: &String) -> (r: Result<Module, LoadError>)
        ensures
            match r {
                Ok(m) => placed_module(m, name@, *raw, dots_dir@, config_root@),
                Err(LoadError::Unresolved(p)) => written_dir(p@, name@, *raw, dots_dir@, config_root@)
                    && !is_absolute(p@),
            },
            resolvable(name@, *raw, dots_dir@, config_root@) ==> r is Ok,
    {
        let dirname = match &raw.dirname {
            Some(d) => d,
            None => name,
        };
        let source_dir = match absolute(join_path(dots_dir.as_str(), dirname.as_str())) {
            Ok(d) => d,
            Err(e) => {
                return Err(e);
            },
        };
        let written = match &raw.target_dir {
            Some(t) => t.clone(),
            None => child_path(config_root.as_str(), dirname.as_str()),
        };
        let target_dir = match absolute(written) {
            Ok(d) => d,
            Err(e) => {
                return Err(e);
            },
        };
        Ok(Module::from_dirs(name, raw, source_dir, target_dir))
    }

    pub fn get_name(&self) -> (r: &String)
        ensures
            r == &self.name,
    {
        &self.name
    }

    pub fn get_requires(&self) -> (r: &Vec<String>)
        ensures
            r == &self.requires,
    {
        &self.requires
    }

    /// The shell commands that install the module's package and then each
    /// dependency, in order: `"<install_command> <package>"`.
    pub fn install_commands(&self, install_command: &String) -> (r: Vec<String>)
        ensures
            r.len() == install_targets(*self).len(),
            forall|i: int|
                0 <= i < r.len() ==> (#[trigger] r@[i])@ == install_line(
                    install_command@,
                    install_targets(*self)[i]@,
                ),
    {
        let mut cmd = chars_of(install_command.as_str());
        cmd.push(' ');
        let mut r: Vec<String> = Vec::new();
        if let Some(p) = &self.package_name {
            let mut line = cmd.clone();
            push_all(&mut line, &chars_of(p.as_str()));
            r.push(string_from_chars(&line));
        }
        let ghost start = r.len();
        let mut k: usize = 0;
        while k < self.dependencies.len()
            invariant
                k <= self.dependencies.len(),
                cmd@ == install_command@ + seq![' '],
                start == install_targets(*self).len() - self.dependencies.len(),
                r.len() == start + k,
                forall|i: int|
                    0 <= i < r.len() ==> (#[trigger] r@[i])@ == install_line(
                        install_command@,
                        install_targets(*self)[i]@,
                    ),
            decreases self.dependencies.len() - k,
        {
            let mut line = cmd.clone();
            push_all(&mut line, &chars_of(self.dependencies[k].as_str()));
            r.push(string_from_chars(&line));
            k = k + 1;
        }
        r
    }

    /// The tasks that deploy this module, in the order they run.
    pub fn tasks(&self, install: bool, install_command: &String) -> (r: Vec<Task>)
        ensures
            r@.map_values(|t: Task| t@) == plan(*self, install, install_command@),
    {
        let mut r: Vec<Task> = Vec::new();
        let ghost installs = if install {
            install_targets(*self).map_values(|p: String| Job::Shell(install_line(install_command@, p@)))
        } else {
            seq![]
        };
        if install {
            let cmds = self.install_commands(install_command);
            let mut k: usize = 0;
            while k < cmds.len()
                invariant
                    k <= cmds.len(),
                    cmds.len() == install_targets(*self).len(),
                    forall|i: int|
                        0 <= i < cmds.len() ==> (#[trigger] cmds@[i])@ == install_line(
                            install_command@,
                            install_targets(*self)[i]@,
                        ),
                    installs == install_targets(*self).map_values(|p: String| Job::Shell(install_line(install_command@, p@))),
                    r@.map_values(|t: Task| t@) == installs.subrange(0, k as int),
                decreases cmds.len() - k,
            {
                let ghost before = r@.map_values(|t: Task| t@);
                r.push(Task::Shell(cmds[k].clone()));
                assert(r@.map_values(|t: Task| t@) =~= before.push(Job::Shell(cmds@[k as int]@)));
                k = k + 1;
                assert(installs.subrange(0, k as int) =~= installs.subrange(0, k - 1).push(installs[k - 1]));
            }
            assert(installs.subrange(0, cmds.len() as int) =~= installs);
        } else {
            assert(r@.map_values(|t: Task| t@) =~= installs);
        }
        let ghost base = r@.map_values(|t: Task| t@);
        let mut k: usize = 0;
        while k < self.pre_steps.len()
            invariant
                k <= self.pre_steps.len(),
                r@.map_values(|t: Task| t@) == base + shell_jobs(self.pre_steps@).subrange(0, k as int),
            decreases self.pre_steps.len() - k,
        {
            let ghost before = r@.map_values(|t: Task| t@);
            r.push(Task::Shell(self.pre_steps[k].clone()));
            assert(r@.map_values(|t: Task| t@) =~= before.push(Job::Shell(self.pre_steps@[k as int]@)));
            k = k + 1;
            assert(base + shell_jobs(self.pre_steps@).subrange(0, k as int) =~= (base + shell_jobs(self.pre_steps@).subrange(0, k - 1)).push(Job::Shell(self.pre_steps@[k - 1]@)));
        }
        assert(shell_jobs(self.pre_steps@).subrange(0, self.pre_steps.len() as int) =~= shell_jobs(self.pre_steps@));
        let ghost base2 = r@.map_values(|t: Task| t@);
        let ghost deploys = Seq::new(self.files.len() as nat, |i: int| Job::Deploy(i));
        let mut k: usize = 0;
        while k < self.files.len()
            invariant
                k <= self.files.len(),
                deploys == Seq::new(self.files.len() as nat, |i: int| Job::Deploy(i)),
                r@.map_values(|t: Task| t@) == base2 + deploys.subrange(0, k as int),
            decreases self.files.len() - k,
        {
            let ghost before = r@.map_values(|t: Task| t@);
            r.push(Task::Deploy(k));
            assert(r@.map_values(|t: Task| t@) =~= before.push(Job::Deploy(k as int)));
            k = k + 1;
            assert(base2 + deploys.subrange(0, k as int) =~= (base2 + deploys.subrange(0, k - 1)).push(Job::Deploy(k - 1)));
        }
        assert(deploys.subrange(0, self.files.len() as int) =~= deploys);
        let ghost base3 = r@.map_values(|t: Task| t@);
        let mut k: usize = 0;
        while k < self.post_steps.len()
            invariant
                k <= self.post_steps.len(),
                r@.map_values(|t: Task| t@) == base3 + shell_jobs(self.post_steps@).subrange(0, k as int),
            decreases self.post_steps.len() - k,
        {
            let ghost before = r@.map_values(|t: Task| t@);
            r.push(Task::Shell(self.post_steps[k].clone()));
            assert(r@.map_values(|t: Task| t@) =~= before.push(Job::Shell(self.post_steps@[k as int]@)));
            k = k + 1;
            assert(base3 + shell_jobs(self.post_steps@).subrange(0, k as int) =~= (base3 + shell_jobs(self.post_steps@).subrange(0, k - 1)).push(Job::Shell(self.post_steps@[k - 1]@)));
        }
        assert(shell_jobs(self.post_steps@).subrange(0, self.post_steps.len() as int) =~= shell_jobs(self.post_steps@));
        r
    }

    /// The setup steps of one phase: before the files when `pre`, after them
    /// otherwise.
    pub fn steps(&self, pre: bool) -> (r: &Vec<String>)
        ensures
            r == if pre {
                &self.pre_steps
            } else {
                &self.post_steps
            },
    {
        if pre {
            &self.pre_steps
        } else {
            &self.post_steps
        }
    }
}

} // verus!
