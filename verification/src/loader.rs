//! The variable source loader: the records of a local key/value file merged
//! with the process environment, the file taking precedence.

use crate::table::VariableTable;
use crate::text::{skip_first, split_before};
use vstd::prelude::*;
use vstd::string::*;

verus! {

/// The character that parts a record's name from its value.
pub const SEPARATOR: char = '=';

/// One line of the source file, as reading it went.
#[derive(Debug, PartialEq, Eq)]
pub enum Line {
    /// The line's text, without its line ending.
    Text(String),
    /// Reading failed at this line, for the reason given.
    Failed(String),
}

/// The source file, as opening and reading it went.
#[derive(Debug, PartialEq, Eq)]
pub enum Source {
    /// There is no source file.
    Missing,
    /// The file is there and could not be opened, for the reason given.
    Unopened(String),
    /// The file's lines, in order.
    Lines(Vec<Line>),
}

/// Why no table could be loaded.
#[derive(Debug, PartialEq, Eq)]
pub enum LoadError {
    /// The source file could not be read: the step that failed, and why.
    SourceReadFailure(String),
    /// A line of the source file holds this name and no value.
    SourceMalformedLine(String),
    /// The source file defines this name twice.
    SourceDuplicateKey(String),
}

/// A [`Line`] as a value.
pub enum SpecLine {
    Text(Seq<char>),
    Failed(Seq<char>),
}

/// A [`Source`] as a value.
pub enum SpecSource {
    Missing,
    Unopened(Seq<char>),
    Lines(Seq<SpecLine>),
}

/// A [`LoadError`] as a value.
pub enum SpecLoadError {
    SourceReadFailure(Seq<char>),
    SourceMalformedLine(Seq<char>),
    SourceDuplicateKey(Seq<char>),
}

impl View for Line {
    type V = SpecLine;

    open spec fn view(&self) -> SpecLine {
        match self {
            Line::Text(text) => SpecLine::Text(text@),
            Line::Failed(reason) => SpecLine::Failed(reason@),
        }
    }
}

impl View for Source {
    type V = SpecSource;

    open spec fn view(&self) -> SpecSource {
        match self {
            Source::Missing => SpecSource::Missing,
            Source::Unopened(reason) => SpecSource::Unopened(reason@),
            Source::Lines(lines) => SpecSource::Lines(lines@.map_values(|line: Line| line@)),
        }
    }
}

impl View for LoadError {
    type V = SpecLoadError;

    open spec fn view(&self) -> SpecLoadError {
        match self {
            LoadError::SourceReadFailure(reason) => SpecLoadError::SourceReadFailure(reason@),
            LoadError::SourceMalformedLine(name) => SpecLoadError::SourceMalformedLine(name@),
            LoadError::SourceDuplicateKey(name) => SpecLoadError::SourceDuplicateKey(name@),
        }
    }
}

impl SpecLoadError {
    /// The diagnostic that the error is reported with.
    pub open spec fn message(self) -> Seq<char> {
        match self {
            SpecLoadError::SourceReadFailure(reason) => ".env: "@ + reason,
            SpecLoadError::SourceMalformedLine(name) => ".env file has '"@ + name
                + "' without value"@,
            SpecLoadError::SourceDuplicateKey(name) => ".env file has multiple instances of '"@
                + name + "'"@,
        }
    }
}

impl LoadError {
    /// The diagnostic that the error is reported with.
    pub fn message(&self) -> (text: String)
        ensures
            text@ == self@.message(),
    {
        match self {
            LoadError::SourceReadFailure(reason) => {
                let mut text = ".env: ".to_owned();
                text.append(reason.as_str());
                text
            },
            LoadError::SourceMalformedLine(name) => {
                let mut text = ".env file has '".to_owned();
                text.append(name.as_str());
                text.append("' without value");
                text
            },
            LoadError::SourceDuplicateKey(name) => {
                let mut text = ".env file has multiple instances of '".to_owned();
                text.append(name.as_str());
                text.append("'");
                text
            },
        }
    }
}

/// The environment as values: its name/value pairs, in the order given.
pub open spec fn env_view(env: Seq<(String, String)>) -> Seq<(Seq<char>, Seq<char>)> {
    env.map_values(|pair: (String, String)| (pair.0@, pair.1@))
}

/// The name and the value of a record: what stands before its first
/// separator and what stands behind it. `None` for a line without one.
pub open spec fn record(line: Seq<char>) -> Option<(Seq<char>, Seq<char>)> {
    match line.index_of_first(SEPARATOR) {
        Some(at) => Some((line.subrange(0, at), line.subrange(at + 1, line.len() as int))),
        None => None,
    }
}

/// The table `table` extended by the records of `lines`, in order; the
/// first failure among them if there is one: a line that could not be read,
/// a line without a value, a name that is already defined. A line of no
/// characters is no record and is passed over.
pub open spec fn load_lines(lines: Seq<SpecLine>, table: Map<Seq<char>, Seq<char>>) -> Result<
    Map<Seq<char>, Seq<char>>,
    SpecLoadError,
>
    decreases lines.len(),
{
    if lines.len() == 0 {
        Ok(table)
    } else {
        match lines[0] {
            SpecLine::Failed(reason) => Err(
                SpecLoadError::SourceReadFailure("Read fail: "@ + reason),
            ),
            SpecLine::Text(line) => if line.len() == 0 {
                load_lines(lines.drop_first(), table)
            } else {
                match record(line) {
                    None => Err(SpecLoadError::SourceMalformedLine(line)),
                    Some((name, value)) => if table.contains_key(name) {
                        Err(SpecLoadError::SourceDuplicateKey(name))
                    } else {
                        load_lines(lines.drop_first(), table.insert(name, value))
                    },
                }
            },
        }
    }
}

/// The table `table` extended by the pairs of `env`, in order, each under
/// its name unless that name is already defined.
pub open spec fn merge_env(table: Map<Seq<char>, Seq<char>>, env: Seq<(Seq<char>, Seq<char>)>) -> Map<
    Seq<char>,
    Seq<char>,
>
    decreases env.len(),
{
    if env.len() == 0 {
        table
    } else {
        let (name, value) = env[0];
        let next = if table.contains_key(name) {
            table
        } else {
            table.insert(name, value)
        };
        merge_env(next, env.drop_first())
    }
}

/// The table that the source file alone defines: none of a file that is
/// not there, and no table of one that cannot be opened or read.
pub open spec fn read_file_spec(source: SpecSource) -> Result<
    Map<Seq<char>, Seq<char>>,
    SpecLoadError,
> {
    match source {
        SpecSource::Missing => Ok(Map::empty()),
        SpecSource::Unopened(reason) => Err(
            SpecLoadError::SourceReadFailure("Cannot open: "@ + reason),
        ),
        SpecSource::Lines(lines) => load_lines(lines, Map::empty()),
    }
}

/// The merged table of a source file and an environment.
pub open spec fn read_envs_spec(source: SpecSource, env: Seq<(Seq<char>, Seq<char>)>) -> Result<
    Map<Seq<char>, Seq<char>>,
    SpecLoadError,
> {
    match read_file_spec(source) {
        Ok(table) => Ok(merge_env(table, env)),
        Err(error) => Err(error),
    }
}

/// Adds the records of `lines` to `table`, up to the first failure.
fn read_lines(lines: &Vec<Line>, table: &mut VariableTable) -> (r: Result<(), LoadError>)
    ensures
        match load_lines(lines@.map_values(|line: Line| line@), old(table)@) {
            Ok(loaded) => r is Ok && final(table)@ == loaded,
            Err(error) => r matches Err(failed) && failed@ == error,
        },
{
    let ghost all = lines@.map_values(|line: Line| line@);
    let mut i: usize = 0;
    proof {
        assert(all.skip(0) =~= all);
    }
    while i < lines.len()
        invariant
            i <= lines.len(),
            all == lines@.map_values(|line: Line| line@),
            load_lines(all, old(table)@) == load_lines(all.skip(i as int), table@),
        decreases lines.len() - i,
    {
        proof {
            assert(all.skip(i as int)[0] == lines@[i as int]@);
            assert(all.skip(i as int).drop_first() =~= all.skip(i + 1));
        }
        match &lines[i] {
            Line::Failed(reason) => {
                let mut text = "Read fail: ".to_owned();
                text.append(reason.as_str());
                return Err(LoadError::SourceReadFailure(text));
            },
            Line::Text(line) => if !line.as_str().is_empty() {
                match split_before(line.as_str(), SEPARATOR) {
                    None => {
                        return Err(LoadError::SourceMalformedLine(line.clone()));
                    },
                    Some((name, tail)) => {
                        let value = skip_first(tail);
                        proof {
                            let at = name@.len() as int;
                            line@.index_of_first_ensures(SEPARATOR);
                            assert(value@ =~= line@.subrange(at + 1, line@.len() as int));
                        }
                        if table.contains_key(name) {
                            return Err(LoadError::SourceDuplicateKey(name.to_owned()));
                        }
                        table.insert(name.to_owned(), value.to_owned());
                    },
                }
            },
        }
        i += 1;
    }
    proof {
        assert(all.skip(i as int).len() == 0);
    }
    Ok(())
}

/// Merges the environment into `table`: each pair of `env` is added, in
/// order, unless its name is already defined.
pub fn merge(table: &mut VariableTable, env: &Vec<(String, String)>)
    ensures
        final(table)@ == merge_env(old(table)@, env_view(env@)),
{
    let ghost all = env_view(env@);
    let mut i: usize = 0;
    proof {
        assert(all.skip(0) =~= all);
    }
    while i < env.len()
        invariant
            i <= env.len(),
            all == env_view(env@),
            merge_env(old(table)@, all) == merge_env(table@, all.skip(i as int)),
        decreases env.len() - i,
    {
        proof {
            assert(all.skip(i as int)[0] == (env@[i as int].0@, env@[i as int].1@));
            assert(all.skip(i as int).drop_first() =~= all.skip(i + 1));
        }
        let pair = &env[i];
        if !table.contains_key(pair.0.as_str()) {
            table.insert(pair.0.clone(), pair.1.clone());
        }
        i += 1;
    }
    proof {
        assert(all.skip(i as int).len() == 0);
    }
}

/// Builds the table that the source file alone defines.
pub fn read_file(source: &Source) -> (r: Result<VariableTable, LoadError>)
    ensures
        match read_file_spec(source@) {
            Ok(table) => r matches Ok(loaded) && loaded@ == table,
            Err(error) => r matches Err(failed) && failed@ == error,
        },
{
    let mut table = VariableTable::new();
    match source {
        Source::Missing => Ok(table),
        Source::Unopened(reason) => {
            let mut text = "Cannot open: ".to_owned();
            text.append(reason.as_str());
            Err(LoadError::SourceReadFailure(text))
        },
        Source::Lines(lines) => match read_lines(lines, &mut table) {
            Ok(()) => Ok(table),
            Err(error) => Err(error),
        },
    }
}

/// Builds the merged table from the source file and the environment.
pub fn read_envs(source: &Source, env: &Vec<(String, String)>) -> (r: Result<
    VariableTable,
    LoadError,
>)
    ensures
        match read_envs_spec(source@, env_view(env@)) {
            Ok(table) => r matches Ok(loaded) && loaded@ == table,
            Err(error) => r matches Err(failed) && failed@ == error,
        },
{
    match read_file(source) {
        Ok(mut envs) => {
            merge(&mut envs, env);
            Ok(envs)
        },
        Err(error) => Err(error),
    }
}

/// Merging keeps what the table defines: a name that the table defines has
/// the table's value afterwards, whatever the environment holds for it.
pub proof fn lemma_merge_keeps(
    table: Map<Seq<char>, Seq<char>>,
    env: Seq<(Seq<char>, Seq<char>)>,
    name: Seq<char>,
)
    requires
        table.contains_key(name),
    ensures
        merge_env(table, env).contains_key(name),
        merge_env(table, env)[name] == table[name],
    decreases env.len(),
{
    if env.len() > 0 {
        let next = if table.contains_key(env[0].0) {
            table
        } else {
            table.insert(env[0].0, env[0].1)
        };
        lemma_merge_keeps(next, env.drop_first(), name);
    }
}

/// Merging supplies what the table lacks: a name that the table does not
/// define gets the value of the first pair of the environment that has it.
pub proof fn lemma_merge_supplies(
    table: Map<Seq<char>, Seq<char>>,
    env: Seq<(Seq<char>, Seq<char>)>,
    at: int,
)
    requires
        0 <= at < env.len(),
        !table.contains_key(env[at].0),
        forall|j: int| 0 <= j < at ==> (#[trigger] env[j]).0 != env[at].0,
    ensures
        merge_env(table, env).contains_key(env[at].0),
        merge_env(table, env)[env[at].0] == env[at].1,
    decreases env.len(),
{
    let next = if table.contains_key(env[0].0) {
        table
    } else {
        table.insert(env[0].0, env[0].1)
    };
    if at == 0 {
        lemma_merge_keeps(next, env.drop_first(), env[0].0);
    } else {
        let rest = env.drop_first();
        assert(rest[at - 1] == env[at]);
        assert forall|j: int| 0 <= j < at - 1 implies (#[trigger] rest[j]).0 != rest[at - 1].0 by {
            assert(rest[j] == env[j + 1]);
        }
        lemma_merge_supplies(next, rest, at - 1);
    }
}

/// Merging defines nothing else: a name that neither the table nor the
/// environment holds is not defined afterwards.
pub proof fn lemma_merge_adds_nothing(
    table: Map<Seq<char>, Seq<char>>,
    env: Seq<(Seq<char>, Seq<char>)>,
    name: Seq<char>,
)
    requires
        !table.contains_key(name),
        forall|j: int| 0 <= j < env.len() ==> (#[trigger] env[j]).0 != name,
    ensures
        !merge_env(table, env).contains_key(name),
    decreases env.len(),
{
    if env.len() > 0 {
        let next = if table.contains_key(env[0].0) {
            table
        } else {
            table.insert(env[0].0, env[0].1)
        };
        let rest = env.drop_first();
        assert forall|j: int| 0 <= j < rest.len() implies (#[trigger] rest[j]).0 != name by {
            assert(rest[j] == env[j + 1]);
        }
        lemma_merge_adds_nothing(next, rest, name);
    }
}

/// The file wins: a name that the source file defines has the file's value
/// in the merged table, whatever the environment holds for it.
pub proof fn lemma_file_wins(
    lines: Seq<SpecLine>,
    env: Seq<(Seq<char>, Seq<char>)>,
    name: Seq<char>,
)
    requires
        load_lines(lines, Map::empty()) matches Ok(file) && file.contains_key(name),
    ensures
        read_envs_spec(SpecSource::Lines(lines), env) matches Ok(merged) && merged.contains_key(
            name,
        ) && merged[name] == load_lines(lines, Map::empty())->Ok_0[name],
{
    lemma_merge_keeps(load_lines(lines, Map::empty())->Ok_0, env, name);
}

} // verus!
