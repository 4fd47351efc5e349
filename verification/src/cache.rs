//! The variable cache: the loader's result, computed at most once and the
//! same for every later caller, a failure as much as a table.

use crate::loader::{env_view, read_envs, read_envs_spec, LoadError, Source, SpecLoadError, SpecSource};
use crate::table::VariableTable;
use vstd::prelude::*;

verus! {

/// What loading gave, as a value.
pub open spec fn loaded_view(loaded: Result<VariableTable, LoadError>) -> Result<
    Map<Seq<char>, Seq<char>>,
    SpecLoadError,
> {
    match loaded {
        Ok(table) => Ok(table@),
        Err(error) => Err(error@),
    }
}

/// A cache after a demand for loading from `source` and `env`: a cache that
/// holds a result keeps it, an empty one holds what loading gives.
pub open spec fn load_spec(
    cache: Option<Result<Map<Seq<char>, Seq<char>>, SpecLoadError>>,
    source: SpecSource,
    env: Seq<(Seq<char>, Seq<char>)>,
) -> Option<Result<Map<Seq<char>, Seq<char>>, SpecLoadError>> {
    match cache {
        Some(_) => cache,
        None => store_spec(cache, read_envs_spec(source, env)),
    }
}

/// A cache after a result is handed to it: a cache that holds a result keeps
/// it, an empty one holds the result handed over.
pub open spec fn store_spec(
    cache: Option<Result<Map<Seq<char>, Seq<char>>, SpecLoadError>>,
    loaded: Result<Map<Seq<char>, Seq<char>>, SpecLoadError>,
) -> Option<Result<Map<Seq<char>, Seq<char>>, SpecLoadError>> {
    match cache {
        Some(_) => cache,
        None => Some(loaded),
    }
}

/// A write-once holder of the loader's result.
///
/// The view is `None` before the first load and the result of that load
/// ever after.
pub struct Cache {
    loaded: Option<Result<VariableTable, LoadError>>,
}

impl View for Cache {
    type V = Option<Result<Map<Seq<char>, Seq<char>>, SpecLoadError>>;

    closed spec fn view(&self) -> Self::V {
        match self.loaded {
            Some(loaded) => Some(loaded_view(loaded)),
            None => None,
        }
    }
}

impl Cache {
    /// The cache before any load.
    pub fn new() -> (cache: Self)
        ensures
            cache@ is None,
    {
        Cache { loaded: None }
    }

    /// The result that the cache holds, if it was loaded.
    pub fn get(&self) -> (held: Option<&Result<VariableTable, LoadError>>)
        ensures
            match held {
                Some(loaded) => self@ == Some(loaded_view(*loaded)),
                None => self@ is None,
            },
    {
        self.loaded.as_ref()
    }

    /// Hands the cache what loading gave; a cache that holds a result, a
    /// failure too, keeps the one it holds.
    pub fn store(&mut self, loaded: Result<VariableTable, LoadError>)
        ensures
            final(self)@ == store_spec(old(self)@, loaded_view(loaded)),
    {
        if self.loaded.is_none() {
            self.loaded = Some(loaded);
        }
    }

    /// Loads the cache from `source` and `env` if it is empty; a cache that
    /// holds a result, a failure too, is left as it is.
    pub fn load(&mut self, source: &Source, env: &Vec<(String, String)>)
        ensures
            final(self)@ == load_spec(old(self)@, source@, env_view(env@)),
    {
        if self.loaded.is_none() {
            self.loaded = Some(read_envs(source, env));
        }
    }
}

/// The cache is frozen by the first result it is handed: a second one
/// leaves the first.
pub proof fn lemma_stored_once(
    cache: Option<Result<Map<Seq<char>, Seq<char>>, SpecLoadError>>,
    loaded: Result<Map<Seq<char>, Seq<char>>, SpecLoadError>,
    later: Result<Map<Seq<char>, Seq<char>>, SpecLoadError>,
)
    ensures
        store_spec(cache, loaded) is Some,
        store_spec(store_spec(cache, loaded), later) == store_spec(cache, loaded),
{
}

/// The cache is frozen by its first load: a second one, from whatever source
/// and environment, leaves the result of the first.
pub proof fn lemma_loaded_once(
    cache: Option<Result<Map<Seq<char>, Seq<char>>, SpecLoadError>>,
    source: SpecSource,
    env: Seq<(Seq<char>, Seq<char>)>,
    later_source: SpecSource,
    later_env: Seq<(Seq<char>, Seq<char>)>,
)
    ensures
        load_spec(cache, source, env) is Some,
        load_spec(load_spec(cache, source, env), later_source, later_env) == load_spec(
            cache,
            source,
            env,
        ),
{
}

} // verus!
