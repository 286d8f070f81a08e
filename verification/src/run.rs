//! The registry of per-language runners, and how a snippet is turned into a command.

use crate::text::{decimal, decimal_digits, replace, replaced};
use std::collections::hash_map::DefaultHasher;
use std::hash::{Hash, Hasher};
use vstd::hash_map::StringHashMap;
use vstd::prelude::*;
use vstd::std_specs::hash::DefaultHasherAdditionalSpecFns;
use vstd::string::StringExecFns;

verus! {

/// What a command template holds in place of the path of the staged file.
pub const FILE_PLACEHOLDER: &'static str = "__FILE__";

/// The name of the scratch directory, below the system's directory for temporary files.
pub const SCRATCH_FOLDER: &'static str = "spellbook";

/// How code in one language is run.
#[derive(Debug, Clone, PartialEq, Eq)]
pub struct Runner {
    /// The language's name, by which the runner is looked up.
    pub language: String,
    /// The program and its arguments; `FILE_PLACEHOLDER` in them stands for the staged file.
    pub command: Vec<String>,
    /// The extension of the staged file's name.
    pub extension: String,
}

/// What a runner says, as plain text.
pub struct Recipe {
    pub language: Seq<char>,
    pub command: Seq<Seq<char>>,
    pub extension: Seq<char>,
}

/// The text of each of `strings`.
pub open spec fn texts(strings: Seq<String>) -> Seq<Seq<char>> {
    Seq::new(strings.len(), |i: int| strings[i]@)
}

impl View for Runner {
    type V = Recipe;

    open spec fn view(&self) -> Recipe {
        Recipe {
            language: self.language@,
            command: texts(self.command@),
            extension: self.extension@,
        }
    }
}

/// The recipe of each of `runners`.
pub open spec fn recipes(runners: Seq<Runner>) -> Seq<Recipe> {
    Seq::new(runners.len(), |i: int| runners[i]@)
}

/// The registry `m` after `runners` were installed in order: a later runner replaces an
/// earlier one for the same language.
pub open spec fn installed(m: Map<Seq<char>, Recipe>, runners: Seq<Recipe>) -> Map<
    Seq<char>,
    Recipe,
>
    decreases runners.len(),
{
    if runners.len() == 0 {
        m
    } else {
        installed(m, runners.drop_last()).insert(runners.last().language, runners.last())
    }
}

/// The runners that are installed, by language.
pub struct RunnerRegistry {
    runners: StringHashMap<Runner>,
}

impl View for RunnerRegistry {
    type V = Map<Seq<char>, Recipe>;

    closed spec fn view(&self) -> Map<Seq<char>, Recipe> {
        Map::new(
            |language: Seq<char>| self.runners@.contains_key(language),
            |language: Seq<char>| self.runners@[language]@,
        )
    }
}

impl RunnerRegistry {
    /// A registry without runners.
    pub fn new() -> (registry: RunnerRegistry)
        ensures
            registry@ == Map::<Seq<char>, Recipe>::empty(),
    {
        let registry = RunnerRegistry { runners: StringHashMap::new() };
        assert(registry@ =~= Map::<Seq<char>, Recipe>::empty());
        registry
    }

    /// The runner for `language`, if one is installed.
    pub fn resolve(&self, language: &str) -> (found: Option<&Runner>)
        ensures
            match found {
                Some(runner) => self@.contains_key(language@) && runner@ == self@[language@],
                None => !self@.contains_key(language@),
            },
    {
        self.runners.get(language)
    }
}

/// Installs `runners` in order, each under its language.
pub fn install_runners(registry: &mut RunnerRegistry, runners: Vec<Runner>)
    ensures
        final(registry)@ == installed(old(registry)@, recipes(runners@)),
{
    let ghost all = runners@;
    let ghost base = registry@;
    let iter = runners.into_iter();
    assert(recipes(all.take(0)) =~= Seq::<Recipe>::empty());
    for runner in it: iter
        invariant
            it.seq() == all,
            registry@ == installed(base, recipes(all.take(it.index()))),
    {
        let ghost n = it.index();
        let ghost held = registry@;
        let key = runner.language.clone();
        registry.runners.insert(key, runner);
        proof {
            let before = recipes(all.take(n));
            let after = recipes(all.take(n + 1));
            assert(after.drop_last() =~= before);
            assert(after.last() == runner@);
            assert(registry@ =~= held.insert(runner@.language, runner@));
        }
    }
    assert(all.take(all.len() as int) == all);
}

/// Of the runners installed together, the last one for a language is the one that is
/// found under it.
pub proof fn lemma_last_runner_wins(m: Map<Seq<char>, Recipe>, runners: Seq<Recipe>, i: int)
    requires
        0 <= i < runners.len(),
        forall|j: int| i < j < runners.len() ==> (#[trigger] runners[j]).language != runners[i].language,
    ensures
        installed(m, runners).contains_key(runners[i].language),
        installed(m, runners)[runners[i].language] == runners[i],
    decreases runners.len(),
{
    if i < runners.len() - 1 {
        let earlier = runners.drop_last();
        assert(earlier[i] == runners[i]);
        assert forall|j: int| i < j < earlier.len() implies (#[trigger] earlier[j]).language
            != earlier[i].language by {
            assert(earlier[j] == runners[j]);
        }
        lemma_last_runner_wins(m, earlier, i);
        assert(runners.last() == runners[runners.len() - 1]);
    }
}

/// Installing runners leaves every language that none of them is for as it was.
pub proof fn lemma_other_languages_stay(
    m: Map<Seq<char>, Recipe>,
    runners: Seq<Recipe>,
    language: Seq<char>,
)
    requires
        forall|j: int| 0 <= j < runners.len() ==> (#[trigger] runners[j]).language != language,
    ensures
        installed(m, runners).contains_key(language) == m.contains_key(language),
        m.contains_key(language) ==> installed(m, runners)[language] == m[language],
    decreases runners.len(),
{
    if runners.len() > 0 {
        let earlier = runners.drop_last();
        assert forall|j: int| 0 <= j < earlier.len() implies (#[trigger] earlier[j]).language
            != language by {
            assert(earlier[j] == runners[j]);
        }
        lemma_other_languages_stay(m, earlier, language);
        assert(runners.last() == runners[runners.len() - 1]);
    }
}

/// The state of the standard library's default hasher after `text` was hashed into it,
/// given the state before.
pub uninterp spec fn fed(state: Seq<Seq<u8>>, text: Seq<char>) -> Seq<Seq<u8>>;

/// `str::hash` of the standard library, on its default hasher: what the hasher has been
/// given afterwards depends on what it had been given before and on the text alone.
#[verifier::external_body]
fn feed(state: &mut DefaultHasher, text: &str)
    ensures
        final(state)@ == fed(old(state)@, text@),
{
    text.hash(state);
}

/// The identifier under which a snippet is staged: the default hasher's digest of the
/// language followed by the code.
pub open spec fn snippet_id(language: Seq<char>, code: Seq<char>) -> u64 {
    DefaultHasher::spec_finish(fed(fed(Seq::<Seq<u8>>::empty(), language), code))
}

/// The identifier of the snippet `code` in `language`.
pub fn snippet_hash(language: &str, code: &str) -> (id: u64)
    ensures
        id == snippet_id(language@, code@),
{
    let mut state = DefaultHasher::new();
    feed(&mut state, language);
    feed(&mut state, code);
    state.finish()
}

/// The scratch directory below `temp_dir`.
pub open spec fn scratch_dir(temp_dir: Seq<char>) -> Seq<char> {
    temp_dir + seq!['/'] + SCRATCH_FOLDER@
}

/// The file in which the snippet `id` is staged for a runner with `extension`.
pub open spec fn staged_file(temp_dir: Seq<char>, id: u64, extension: Seq<char>) -> Seq<char> {
    scratch_dir(temp_dir) + seq!['/'] + decimal_digits(id as nat) + seq!['.'] + extension
}

/// The command `template` with the path `file` in place of every `FILE_PLACEHOLDER`.
pub open spec fn command_line(template: Seq<Seq<char>>, file: Seq<char>) -> Seq<Seq<char>> {
    Seq::new(template.len(), |i: int| replaced(template[i], FILE_PLACEHOLDER@, file))
}

/// What has to be done to run a snippet.
#[derive(Debug, Clone, PartialEq, Eq)]
pub struct Invocation {
    /// The directory that must exist before the snippet is staged.
    pub scratch_dir: String,
    /// The file the code is written to, verbatim.
    pub staged_file: String,
    /// The program, then its arguments.
    pub command: Vec<String>,
    /// The directory the program runs in.
    pub working_dir: String,
}

/// An invocation, as plain text.
pub struct Plan {
    pub scratch_dir: Seq<char>,
    pub staged_file: Seq<char>,
    pub command: Seq<Seq<char>>,
    pub working_dir: Seq<char>,
}

impl View for Invocation {
    type V = Plan;

    open spec fn view(&self) -> Plan {
        Plan {
            scratch_dir: self.scratch_dir@,
            staged_file: self.staged_file@,
            command: texts(self.command@),
            working_dir: self.working_dir@,
        }
    }
}

/// How the snippet `id` is run with `recipe` in `working_dir`, staged below `temp_dir`.
pub open spec fn planned(recipe: Recipe, working_dir: Seq<char>, id: u64, temp_dir: Seq<char>) -> Plan {
    Plan {
        scratch_dir: scratch_dir(temp_dir),
        staged_file: staged_file(temp_dir, id, recipe.extension),
        command: command_line(recipe.command, staged_file(temp_dir, id, recipe.extension)),
        working_dir,
    }
}

/// Plans the run of `code` with `runner`: where the code is staged, and the command with
/// that file in place of the placeholder. `None` if the runner names no program.
pub fn plan_with(runner: &Runner, working_dir: &str, language: &str, code: &str, temp_dir: &str) -> (plan:
    Option<Invocation>)
    ensures
        plan is Some <==> runner@.command.len() > 0,
        plan matches Some(invocation) ==> invocation@ == planned(
            runner@,
            working_dir@,
            snippet_id(language@, code@),
            temp_dir@,
        ),
{
    plan_for(runner, working_dir, snippet_hash(language, code), temp_dir)
}

/// Plans the run of the snippet with the identifier `id` with `runner`. `None` if the
/// runner names no program.
pub fn plan_for(runner: &Runner, working_dir: &str, id: u64, temp_dir: &str) -> (plan: Option<
    Invocation,
>)
    ensures
        plan is Some <==> runner@.command.len() > 0,
        plan matches Some(invocation) ==> invocation@ == planned(
            runner@,
            working_dir@,
            id,
            temp_dir@,
        ),
{
    if runner.command.len() == 0 {
        return None;
    }
    let mut dir = temp_dir.to_owned();
    dir.push('/');
    dir.append(SCRATCH_FOLDER);
    let mut file = dir.clone();
    file.push('/');
    file.append(decimal(id).as_str());
    file.push('.');
    file.append(runner.extension.as_str());
    assert(dir@ =~= scratch_dir(temp_dir@));
    assert(file@ =~= staged_file(temp_dir@, id, runner@.extension));
    let mut command: Vec<String> = Vec::new();
    let mut i: usize = 0;
    while i < runner.command.len()
        invariant
            i <= runner.command.len(),
            texts(command@) == command_line(runner@.command, file@).take(i as int),
        decreases runner.command.len() - i,
    {
        let ghost built = texts(command@);
        let argument = replace(runner.command[i].as_str(), FILE_PLACEHOLDER, file.as_str());
        command.push(argument);
        assert(texts(command@) =~= built.push(argument@));
        i += 1;
    }
    assert(command_line(runner@.command, file@).take(i as int) == command_line(
        runner@.command,
        file@,
    ));
    Some(Invocation { scratch_dir: dir, staged_file: file, command, working_dir: working_dir.to_owned() })
}

/// Plans the run of `code` in `language`: looks up the runner, then plans with it. `None`
/// if no runner is installed for the language, or if the runner names no program.
pub fn prepare(
    registry: &RunnerRegistry,
    working_dir: &str,
    language: &str,
    code: &str,
    temp_dir: &str,
) -> (plan: Option<Invocation>)
    ensures
        plan is Some <==> registry@.contains_key(language@) && registry@[language@].command.len()
            > 0,
        plan matches Some(invocation) ==> invocation@ == planned(
            registry@[language@],
            working_dir@,
            snippet_id(language@, code@),
            temp_dir@,
        ),
{
    match registry.resolve(language) {
        Some(runner) => plan_with(runner, working_dir, language, code, temp_dir),
        None => None,
    }
}

} // verus!
