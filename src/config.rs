//! The loaded configuration: global settings, variables and the modules to
//! deploy.
use vstd::prelude::*;

use crate::loader::{missing_view, names_of, no_requirements, resolution, resolve_modules, resolved, resolved_order, selected_names, strs, MissingRequire};
use crate::module::{placed_module, resolvable, written_dir, LoadError, Module, RawModule};
use crate::paths::is_absolute;
use crate::text::chars_of;
use crate::variable::Variable;

verus! {

/// Process-wide settings.
#[derive(Debug, Clone)]
pub struct Globals {
    /// The command that installs one package, given as its last word.
    pub install_command: String,
    /// The root of the dotfiles tree.
    pub dotfiles: String,
}

#[derive(Debug)]
pub struct Config {
    pub filename: String,
    pub globals: Globals,
    pub variables: Vec<Variable>,
    pub modules: Vec<Module>,
}

/// The value of the last entry named `key`, or `default` when none is.
pub open spec fn last_value(entries: Seq<(String, String)>, key: Seq<char>, default: Seq<char>) -> Seq<char>
    decreases entries.len(),
{
    if entries.len() == 0 {
        default
    } else if entries.last().0@ == key {
        entries.last().1@
    } else {
        last_value(entries.drop_last(), key, default)
    }
}

pub open spec fn install_key() -> Seq<char> {
    seq!['i', 'n', 's', 't', 'a', 'l', 'l', 'C', 'o', 'm', 'm', 'a', 'n', 'd']
}

pub open spec fn dotfiles_key() -> Seq<char> {
    seq!['d', 'o', 't', 'f', 'i', 'l', 'e', 's']
}

/// The keys of `entries` that name no global setting, in order.
pub open spec fn unknown_keys(entries: Seq<(String, String)>) -> Seq<Seq<char>>
    decreases entries.len(),
{
    if entries.len() == 0 {
        seq![]
    } else {
        let prev = unknown_keys(entries.drop_last());
        let k = entries.last().0@;
        if k == install_key() || k == dotfiles_key() {
            prev
        } else {
            prev.push(k)
        }
    }
}

/// `m` is built from one of the configured modules.
pub open spec fn from_entry(m: Module, entries: Seq<(String, RawModule)>, dots_dir: Seq<char>, config_root: Seq<char>) -> bool {
    exists|i: int|
        0 <= i < entries.len() && entries[i].0@ == m.name@ && placed_module(
            m,
            entries[i].0@,
            entries[i].1,
            dots_dir,
            config_root,
        )
}

/// `e` names a directory of one of the configured modules that could not be
/// made absolute.
pub open spec fn unresolved_in(e: LoadError, entries: Seq<(String, RawModule)>, dots_dir: Seq<char>, config_root: Seq<char>) -> bool {
    match e {
        LoadError::Unresolved(p) => exists|i: int|
            0 <= i < entries.len() && !is_absolute(p@) && #[trigger] written_dir(
                p@,
                entries[i].0@,
                entries[i].1,
                dots_dir,
                config_root,
            ),
    }
}

/// The names of a sequence of modules.
pub open spec fn module_names(ms: Seq<Module>) -> Seq<Seq<char>> {
    ms.map_values(|m: Module| m.name@)
}

fn text_is(s: &String, lit: &Vec<char>) -> (r: bool)
    ensures
        r == (s@ == lit@),
{
    let c = chars_of(s.as_str());
    if c.len() != lit.len() {
        assert(c@.len() != lit@.len());
        return false;
    }
    let mut k: usize = 0;
    while k < c.len()
        invariant
            k <= c.len(),
            c@ == s@,
            c.len() == lit.len(),
            forall|i: int| 0 <= i < k ==> c@[i] == lit@[i],
        decreases c.len() - k,
    {
        if c[k] != lit[k] {
            assert(c@[k as int] != lit@[k as int]);
            assert(c@ != lit@);
            return false;
        }
        k = k + 1;
    }
    assert(c@ =~= lit@);
    true
}

fn key_chars(install: bool) -> (r: Vec<char>)
    ensures
        r@ == if install {
            install_key()
        } else {
            dotfiles_key()
        },
{
    let r: Vec<char> = if install {
        vec!['i', 'n', 's', 't', 'a', 'l', 'l', 'C', 'o', 'm', 'm', 'a', 'n', 'd']
    } else {
        vec!['d', 'o', 't', 'f', 'i', 'l', 'e', 's']
    };
    assert(r@ =~= if install {
        install_key()
    } else {
        dotfiles_key()
    });
    r
}

fn find_entry(entries: &Vec<(String, RawModule)>, name: &String) -> (r: Option<usize>)
    ensures
        match r {
            Some(i) => i < entries.len() && entries@[i as int].0@ == name@,
            None => !names_of(entries@).contains(name@),
        },
{
    let mut k: usize = 0;
    while k < entries.len()
        invariant
            k <= entries.len(),
            forall|i: int| 0 <= i < k ==> names_of(entries@)[i] != name@,
        decreases entries.len() - k,
    {
        if entries[k].0 == *name {
            return Some(k);
        }
        k = k + 1;
    }
    None
}

impl Config {
    /// An empty configuration read from `filename`.
    pub fn new(filename: String) -> (r: Config)
        ensures
            r.filename == filename,
            r.globals.install_command@.len() == 0,
            r.globals.dotfiles@.len() == 0,
            r.variables.len() == 0,
            r.modules.len() == 0,
    {
        Config {
            filename,
            globals: Globals { install_command: String::new(), dotfiles: String::new() },
            variables: Vec::new(),
            modules: Vec::new(),
        }
    }

    /// Takes in the `global` settings: `installCommand` and `dotfiles`,
    /// the last entry of each winning. Returns the keys it does not know.
    pub fn load_globals(&mut self, entries: &Vec<(String, String)>) -> (unknown: Vec<String>)
        ensures
            final(self).filename == old(self).filename,
            final(self).variables == old(self).variables,
            final(self).modules == old(self).modules,
            final(self).globals.install_command@ == last_value(
                entries@,
                install_key(),
                old(self).globals.install_command@,
            ),
            final(self).globals.dotfiles@ == last_value(
                entries@,
                dotfiles_key(),
                old(self).globals.dotfiles@,
            ),
            strs(unknown@) == unknown_keys(entries@),
    {
        let ghost first = *self;
        let ik = key_chars(true);
        let dk = key_chars(false);
        let mut unknown: Vec<String> = Vec::new();
        let mut k: usize = 0;
        while k < entries.len()
            invariant
                k <= entries.len(),
                ik@ == install_key(),
                dk@ == dotfiles_key(),
                self.filename == first.filename,
                self.variables == first.variables,
                self.modules == first.modules,
                self.globals.install_command@ == last_value(
                    entries@.subrange(0, k as int),
                    install_key(),
                    first.globals.install_command@,
                ),
                self.globals.dotfiles@ == last_value(
                    entries@.subrange(0, k as int),
                    dotfiles_key(),
                    first.globals.dotfiles@,
                ),
                strs(unknown@) == unknown_keys(entries@.subrange(0, k as int)),
            decreases entries.len() - k,
        {
            let ghost u = strs(unknown@);
            let (key, value) = &entries[k];
            assert(entries@.subrange(0, k + 1).drop_last() =~= entries@.subrange(0, k as int));
            assert(entries@.subrange(0, k + 1).last() == entries@[k as int]);
            if text_is(key, &ik) {
                self.globals.install_command = value.clone();
            } else if text_is(key, &dk) {
                self.globals.dotfiles = value.clone();
            } else {
                unknown.push(key.clone());
                assert(strs(unknown@) =~= u.push(key@));
            }
            k = k + 1;
        }
        assert(entries@.subrange(0, entries.len() as int) =~= entries@);
        unknown
    }

    /// Builds the modules to deploy, in resolved order, and appends them.
    /// Returns the requirements that name no module. Building a module makes
    /// its directories absolute, which can fail; then the modules built so
    /// far (a prefix of the order) stay and the error names the directory.
    pub fn load_modules(&mut self, entries: &Vec<(String, RawModule)>, enabled: &Vec<String>, config_root: &String) -> (r: Result<Vec<MissingRequire>, LoadError>)
        requires
            names_of(entries@).no_duplicates(),
        ensures
            final(self).filename == old(self).filename,
            final(self).globals == old(self).globals,
            final(self).variables == old(self).variables,
            final(self).modules.len() >= old(self).modules.len(),
            final(self).modules@.subrange(0, old(self).modules.len() as int) == old(self).modules@,
            module_names(final(self).modules@.subrange(
                old(self).modules.len() as int,
                final(self).modules.len() as int,
            )).no_duplicates(),
            forall|q: int|
                old(self).modules.len() <= q < final(self).modules.len() ==> from_entry(
                    #[trigger] final(self).modules@[q],
                    entries@,
                    old(self).globals.dotfiles@,
                    config_root@,
                ),
            match r {
                Ok(missing) => {
                    &&& resolved(
                        entries@,
                        strs(enabled@),
                        module_names(final(self).modules@.subrange(
                            old(self).modules.len() as int,
                            final(self).modules.len() as int,
                        )),
                        missing_view(missing@),
                    )
                    &&& module_names(
                        final(self).modules@.subrange(
                            old(self).modules.len() as int,
                            final(self).modules.len() as int,
                        ),
                    ) == resolved_order(entries@, strs(enabled@))
                    &&& missing_view(missing@) == resolution(entries@, strs(enabled@)).missing
                    &&& no_requirements(entries@, strs(enabled@)) ==> module_names(
                        final(self).modules@.subrange(
                            old(self).modules.len() as int,
                            final(self).modules.len() as int,
                        ),
                    ) == selected_names(entries@, strs(enabled@), entries.len() as int)
                },
                Err(e) => unresolved_in(e, entries@, old(self).globals.dotfiles@, config_root@),
            },
            (forall|i: int|
                0 <= i < entries.len() ==> resolvable(
                    (#[trigger] entries@[i]).0@,
                    entries@[i].1,
                    old(self).globals.dotfiles@,
                    config_root@,
                )) ==> r is Ok,
    {
        let res = resolve_modules(entries, enabled);
        let ghost full = strs(res.order@);
        let dots = self.globals.dotfiles.clone();
        let mut built: Vec<Module> = Vec::new();
        let mut q: usize = 0;
        assert(module_names(built@) =~= full.subrange(0, 0));
        let mut failure: Option<LoadError> = None;
        let ghost mut bad: int = 0;
        while q < res.order.len()
            invariant_except_break
                failure is None,
            invariant
                q <= res.order.len(),
                built.len() == q,
                full == strs(res.order@),
                resolved(entries@, strs(enabled@), full, missing_view(res.missing@)),
                full == resolved_order(entries@, strs(enabled@)),
                missing_view(res.missing@) == resolution(entries@, strs(enabled@)).missing,
                no_requirements(entries@, strs(enabled@)) ==> full == selected_names(
                    entries@,
                    strs(enabled@),
                    entries.len() as int,
                ),
                module_names(built@) == full.subrange(0, q as int),
                forall|p: int| 0 <= p < built.len() ==> from_entry(#[trigger] built@[p], entries@, dots@, config_root@),
                failure is Some ==> 0 <= bad < entries.len() && !resolvable(
                    entries@[bad].0@,
                    entries@[bad].1,
                    dots@,
                    config_root@,
                ) && match failure->0 {
                    LoadError::Unresolved(p) => !is_absolute(p@) && written_dir(
                        p@,
                        entries@[bad].0@,
                        entries@[bad].1,
                        dots@,
                        config_root@,
                    ),
                },
            ensures
                failure is None ==> q == res.order.len(),
            decreases res.order.len() - q,
        {
            let name = &res.order[q];
            assert(full[q as int] == name@);
            assert(full.contains(name@));
            match find_entry(entries, name) {
                Some(i) => {
                    match Module::new(name, &entries[i].1, &dots, config_root) {
                        Ok(m) => {
                            let ghost before = built@;
                            built.push(m);
                            assert(module_names(built@) =~= module_names(before).push(name@));
                            assert(full.subrange(0, q + 1) =~= full.subrange(0, q as int).push(name@));
                            assert(built@[q as int].name@ == name@);
                            assert(from_entry(built@[q as int], entries@, dots@, config_root@));
                        },
                        Err(e) => {
                            proof {
                                bad = i as int;
                            }
                            failure = Some(e);
                            break;
                        },
                    }
                },
                None => {
                    assert(false);
                },
            }
            q = q + 1;
        }
        proof {
            assert(full.no_duplicates());
            assert(module_names(built@).no_duplicates()) by {
                assert forall|a: int, b: int|
                    0 <= a < module_names(built@).len() && 0 <= b < module_names(built@).len() && a != b
                    implies module_names(built@)[a] != module_names(built@)[b] by {
                    assert(module_names(built@)[a] == full[a]);
                    assert(module_names(built@)[b] == full[b]);
                }
            }
        }
        let ghost n0 = self.modules.len();
        let ghost prior = self.modules@;
        let ghost built_view = built@;
        self.modules.append(&mut built);
        assert(self.modules@.subrange(0, n0 as int) =~= prior);
        assert(self.modules@.subrange(n0 as int, self.modules.len() as int) =~= built_view);
        assert forall|q: int| n0 <= q < self.modules.len() implies from_entry(
            #[trigger] self.modules@[q],
            entries@,
            old(self).globals.dotfiles@,
            config_root@,
        ) by {
            assert(self.modules@[q] == self.modules@.subrange(n0 as int, self.modules.len() as int)[q - n0]);
            assert(built_view[q - n0] == self.modules@[q]);
        }
        if let Some(e) = failure {
            assert(unresolved_in(e, entries@, old(self).globals.dotfiles@, config_root@));
            return Err(e);
        }
        assert(full.subrange(0, res.order.len() as int) =~= full);
        Ok(res.missing)
    }
}

} // verus!
