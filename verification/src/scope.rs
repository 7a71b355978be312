//! Execution scopes and the command manifest registry.
//!
//! Every command that clank classifies has exactly one execution scope and a
//! (possibly empty) list of flag arguments whose values must be scrubbed from
//! the transcript.

use vstd::prelude::*;
use crate::text::{chars_eq, str_views, to_chars};

verus! {

/// The execution scope of a command.
///
/// Scope determines routing, state-mutation rights, and AI tool-surface
/// eligibility.
#[derive(Debug, Clone, Copy, PartialEq, Eq, Structural)]
pub enum ExecutionScope {
    /// Runs in the parent shell context and may mutate shell state (cwd, env,
    /// function table). POSIX special builtins fall here.
    ParentShell,
    /// Implemented within the shell; operates on internal tables (alias
    /// table, job table, transcript, history).
    ShellInternal,
    /// Runs isolated from parent shell state. The only scope exposed to `ask`
    /// as AI tools.
    Subprocess,
}

/// A manifest entry: the command name, its execution scope, and the flags
/// whose values must never appear in the transcript.
pub struct CommandManifest {
    pub name: &'static str,
    pub scope: ExecutionScope,
    /// Named flag arguments whose values are scrubbed before recording,
    /// e.g. `["--key", "--token"]`. Empty means no argument-level redaction.
    pub redaction_rules: &'static [&'static str],
}

/// The mathematical content of a manifest entry.
pub struct ManifestView {
    pub name: Seq<char>,
    pub scope: ExecutionScope,
    pub redaction_rules: Seq<Seq<char>>,
}

impl View for CommandManifest {
    type V = ManifestView;

    open spec fn view(&self) -> ManifestView {
        ManifestView {
            name: self.name@,
            scope: self.scope,
            redaction_rules: str_views(self.redaction_rules@),
        }
    }
}

/// The views of a sequence of manifest entries.
pub open spec fn manifest_views(s: Seq<CommandManifest>) -> Seq<ManifestView> {
    s.map_values(|m: CommandManifest| m@)
}

/// The registry as (name, scope) pairs, in registry order. No entry carries
/// redaction rules.
pub open spec fn registry_pairs() -> Seq<(Seq<char>, ExecutionScope)> {
    seq![
        ("."@, ExecutionScope::ParentShell),
        ("cd"@, ExecutionScope::ParentShell),
        ("exec"@, ExecutionScope::ParentShell),
        ("exit"@, ExecutionScope::ParentShell),
        ("export"@, ExecutionScope::ParentShell),
        ("source"@, ExecutionScope::ParentShell),
        ("unset"@, ExecutionScope::ParentShell),
        ("alias"@, ExecutionScope::ShellInternal),
        ("bg"@, ExecutionScope::ShellInternal),
        ("context"@, ExecutionScope::ShellInternal),
        ("fg"@, ExecutionScope::ShellInternal),
        ("jobs"@, ExecutionScope::ShellInternal),
        ("read"@, ExecutionScope::ShellInternal),
        ("type"@, ExecutionScope::ShellInternal),
        ("unalias"@, ExecutionScope::ShellInternal),
        ("wait"@, ExecutionScope::ShellInternal),
        ("ask"@, ExecutionScope::Subprocess),
        ("cat"@, ExecutionScope::Subprocess),
        ("curl"@, ExecutionScope::Subprocess),
        ("find"@, ExecutionScope::Subprocess),
        ("grep"@, ExecutionScope::Subprocess),
        ("ls"@, ExecutionScope::Subprocess),
    ]
}

/// The registry as manifest views.
pub open spec fn registry() -> Seq<ManifestView> {
    registry_pairs().map_values(
        |p: (Seq<char>, ExecutionScope)|
            ManifestView { name: p.0, scope: p.1, redaction_rules: Seq::empty() },
    )
}

/// The first registry entry (from index `from` on) named `name`, if any.
pub open spec fn find_from(reg: Seq<ManifestView>, name: Seq<char>, from: int) -> Option<int>
    decreases reg.len() - from,
{
    if from < 0 || from >= reg.len() {
        None
    } else if reg[from].name == name {
        Some(from)
    } else {
        find_from(reg, name, from + 1)
    }
}

pub proof fn lemma_find_from(reg: Seq<ManifestView>, name: Seq<char>, from: int)
    ensures
        find_from(reg, name, from) matches Some(i) ==> {
            &&& from <= i < reg.len()
            &&& reg[i].name == name
            &&& forall|k: int| from <= k < i ==> reg[k].name != name
        },
        find_from(reg, name, from) is None ==> forall|k: int|
            0 <= from <= k < reg.len() ==> reg[k].name != name,
    decreases reg.len() - from,
{
    if 0 <= from < reg.len() && reg[from].name != name {
        lemma_find_from(reg, name, from + 1);
    }
}

/// The index of the registry entry named `name`, if any.
pub open spec fn find_entry(name: Seq<char>) -> Option<int> {
    find_from(registry(), name, 0)
}

/// The scope the registry gives `name`, if it lists it.
pub open spec fn spec_scope_of(name: Seq<char>) -> Option<ExecutionScope> {
    match find_entry(name) {
        Some(i) => Some(registry()[i].scope),
        None => None,
    }
}

/// The redaction rules the registry gives `name`; empty when it is unknown.
pub open spec fn spec_redaction_rules_of(name: Seq<char>) -> Seq<Seq<char>> {
    match find_entry(name) {
        Some(i) => registry()[i].redaction_rules,
        None => Seq::empty(),
    }
}

fn entry(name: &'static str, scope: ExecutionScope) -> (m: CommandManifest)
    ensures
        m@ == (ManifestView { name: name@, scope, redaction_rules: Seq::empty() }),
{
    let m = CommandManifest { name, scope, redaction_rules: &[] };
    assert(m@.redaction_rules =~= Seq::<Seq<char>>::empty());
    m
}

/// The static registry of all commands clank classifies by execution scope.
///
/// Commands not present here fall through to the interpreter's default
/// dispatch.
pub fn manifest_registry() -> (r: Vec<CommandManifest>)
    ensures
        r@.len() == registry().len(),
        forall|i: int| 0 <= i < r@.len() ==> (#[trigger] r@[i])@ == registry()[i],
{
    let mut r: Vec<CommandManifest> = Vec::new();
    r.push(entry(".", ExecutionScope::ParentShell));
    r.push(entry("cd", ExecutionScope::ParentShell));
    r.push(entry("exec", ExecutionScope::ParentShell));
    r.push(entry("exit", ExecutionScope::ParentShell));
    r.push(entry("export", ExecutionScope::ParentShell));
    r.push(entry("source", ExecutionScope::ParentShell));
    r.push(entry("unset", ExecutionScope::ParentShell));
    r.push(entry("alias", ExecutionScope::ShellInternal));
    r.push(entry("bg", ExecutionScope::ShellInternal));
    r.push(entry("context", ExecutionScope::ShellInternal));
    r.push(entry("fg", ExecutionScope::ShellInternal));
    r.push(entry("jobs", ExecutionScope::ShellInternal));
    r.push(entry("read", ExecutionScope::ShellInternal));
    r.push(entry("type", ExecutionScope::ShellInternal));
    r.push(entry("unalias", ExecutionScope::ShellInternal));
    r.push(entry("wait", ExecutionScope::ShellInternal));
    r.push(entry("ask", ExecutionScope::Subprocess));
    r.push(entry("cat", ExecutionScope::Subprocess));
    r.push(entry("curl", ExecutionScope::Subprocess));
    r.push(entry("find", ExecutionScope::Subprocess));
    r.push(entry("grep", ExecutionScope::Subprocess));
    r.push(entry("ls", ExecutionScope::Subprocess));
    r
}

/// The index of the first entry of `reg` named `name`.
fn find_in(reg: &Vec<CommandManifest>, name: &str) -> (r: Option<usize>)
    ensures
        match r {
            Some(i) => find_from(manifest_views(reg@), name@, 0) == Some(i as int),
            None => find_from(manifest_views(reg@), name@, 0) is None,
        },
        r matches Some(i) ==> i < reg@.len(),
{
    let ghost rv = manifest_views(reg@);
    let target = to_chars(name);
    proof {
        lemma_find_from(rv, name@, 0);
    }
    let mut i: usize = 0;
    while i < reg.len()
        invariant
            i <= reg@.len(),
            rv == manifest_views(reg@),
            target@ == name@,
            find_from(rv, name@, 0) == find_from(rv, name@, i as int),
        decreases reg@.len() - i,
    {
        let candidate = to_chars(reg[i].name);
        assert(rv[i as int].name == reg@[i as int].name@);
        if chars_eq(&candidate, &target) {
            proof {
                lemma_find_from(rv, name@, 0);
            }
            return Some(i);
        }
        i = i + 1;
    }
    None
}

/// Returns the execution scope of `name` if it is present in the manifest
/// registry, or `None` if the command is not yet classified.
pub fn scope_of(name: &str) -> (r: Option<ExecutionScope>)
    ensures
        r == spec_scope_of(name@),
{
    let reg = manifest_registry();
    assert(manifest_views(reg@) =~= registry());
    assert(find_entry(name@) == find_from(manifest_views(reg@), name@, 0));
    match find_in(&reg, name) {
        Some(i) => {
            assert(find_entry(name@) == Some(i as int));
            assert(reg@[i as int]@ == registry()[i as int]);
            Some(reg[i].scope)
        },
        None => None,
    }
}

/// Returns the redaction rules for `name` if it is present in the manifest
/// registry, or an empty list if the command is unknown or has no rules.
pub fn redaction_rules_of(name: &str) -> (r: &'static [&'static str])
    ensures
        str_views(r@) == spec_redaction_rules_of(name@),
{
    let reg = manifest_registry();
    assert(manifest_views(reg@) =~= registry());
    assert(find_entry(name@) == find_from(manifest_views(reg@), name@, 0));
    match find_in(&reg, name) {
        Some(i) => {
            assert(find_entry(name@) == Some(i as int));
            assert(reg@[i as int]@ == registry()[i as int]);
            reg[i].redaction_rules
        },
        None => {
            let r: &'static [&'static str] = &[];
            assert(str_views(r@) =~= Seq::<Seq<char>>::empty());
            r
        },
    }
}

/// The registry names are pairwise distinct: no command is classified twice.
pub proof fn lemma_registry_names_distinct()
    ensures
        forall|i: int, j: int|
            0 <= i < registry().len() && 0 <= j < registry().len() && i != j
                ==> #[trigger] registry()[i].name != #[trigger] registry()[j].name,
{
    reveal_strlit(".");
    reveal_strlit("cd");
    reveal_strlit("exec");
    reveal_strlit("exit");
    reveal_strlit("export");
    reveal_strlit("source");
    reveal_strlit("unset");
    reveal_strlit("alias");
    reveal_strlit("bg");
    reveal_strlit("context");
    reveal_strlit("fg");
    reveal_strlit("jobs");
    reveal_strlit("read");
    reveal_strlit("type");
    reveal_strlit("unalias");
    reveal_strlit("wait");
    reveal_strlit("ask");
    reveal_strlit("cat");
    reveal_strlit("curl");
    reveal_strlit("find");
    reveal_strlit("grep");
    reveal_strlit("ls");
    assert forall|i: int, j: int|
        0 <= i < registry().len() && 0 <= j < registry().len() && i != j implies #[trigger] registry()[i].name
        != #[trigger] registry()[j].name by {
        let a = registry()[i].name;
        let b = registry()[j].name;
        if a == b {
            assert(a.len() == b.len());
            assert(a[0] == b[0]);
            assert(a[a.len() - 1] == b[b.len() - 1]);
        }
    }
}

/// Every registered command has exactly one scope: looking a registered name
/// up gives the scope of its own entry.
pub proof fn lemma_scope_of_registered(i: int)
    requires
        0 <= i < registry().len(),
    ensures
        spec_scope_of(registry()[i].name) == Some(registry()[i].scope),
        spec_redaction_rules_of(registry()[i].name) == registry()[i].redaction_rules,
{
    lemma_registry_names_distinct();
    lemma_find_from(registry(), registry()[i].name, 0);
}

/// A name the registry does not list has no scope and no redaction rules.
pub proof fn lemma_scope_of_unregistered(name: Seq<char>)
    requires
        forall|i: int| 0 <= i < registry().len() ==> registry()[i].name != name,
    ensures
        spec_scope_of(name) is None,
        spec_redaction_rules_of(name) == Seq::<Seq<char>>::empty(),
{
    lemma_find_from(registry(), name, 0);
}

} // verus!
