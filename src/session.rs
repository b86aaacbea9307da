//! The state that a seeding session keeps: the registry of stored
//! identifiers, and containers that hold the records of one file.
use vstd::prelude::*;
use vstd::hash_map::StringHashMap;
use crate::registry::{Environment, NameRegistry};
use crate::resolver::{outcome, resolve_tags, substitute, ResolveError};

verus! {

/// Why a file's records could not be loaded or looked up.
#[derive(Debug, PartialEq, Eq)]
pub enum SeedError {
    /// The file could not be read: its path and the reason.
    NotFound(String, String),
    /// A tag of the file could not be replaced: the file and the cause.
    Tag(String, ResolveError),
    /// The text of the file could not be decoded: the file and the reason.
    Decode(String, String),
    /// The container already holds records: the file.
    AlreadyLoaded(String),
    /// The container holds no records yet: the file.
    NotLoaded(String),
    /// The container holds no record of that label: the file and the label.
    RecordNotFound(String, String),
}

/// The records of one file, by label.
pub type Dict<T> = StringHashMap<T>;

/// Persists the records of fixture files one file at a time, and keeps the
/// identifier that each record was stored under, by the record's label, so
/// that `REF` tags of later records and files can name it.
pub struct DatabaseSeeder {
    pub filenames: Vec<String>,
    pub base_dir: String,
    name_resolver: NameRegistry,
}

impl DatabaseSeeder {
    /// The label → identifier map that `REF` tags read.
    pub closed spec fn registry(&self) -> Map<Seq<char>, Seq<char>> {
        self.name_resolver@
    }

    /// The files whose records are being stored, in order.
    pub closed spec fn files(&self) -> Seq<Seq<char>> {
        self.filenames.deep_view()
    }

    /// The directory that file names are read relative to.
    pub closed spec fn dir(&self) -> Seq<char> {
        self.base_dir@
    }

    /// A seeder with no files, no base directory and an empty registry.
    pub fn new() -> (r: Self)
        ensures
            r.files() == Seq::<Seq<char>>::empty(),
            r.dir() == Seq::<char>::empty(),
            r.registry() == Map::<Seq<char>, Seq<char>>::empty(),
    {
        DatabaseSeeder {
            filenames: Vec::new(),
            base_dir: String::new(),
            name_resolver: NameRegistry::new(),
        }
    }

    /// Sets the directory that file names are read relative to.
    pub fn set_dir(&mut self, base_dir: &str)
        ensures
            final(self).dir() == base_dir@,
            final(self).files() == old(self).files(),
            final(self).registry() == old(self).registry(),
    {
        self.base_dir = base_dir.to_owned();
    }

    /// Notes that the records of `filename` are being stored.
    pub fn add_filename(&mut self, filename: &str)
        ensures
            final(self).files() == old(self).files().push(filename@),
            final(self).dir() == old(self).dir(),
            final(self).registry() == old(self).registry(),
    {
        self.filenames.push(filename.to_owned());
        assert(self.files() =~= old(self).files().push(filename@));
    }

    /// The raw text of a file with every tag replaced, `REF` tags against
    /// the identifiers registered so far.
    pub fn resolve(&self, raw_text: &str, env: &Environment) -> (r: Result<String, ResolveError>)
        ensures
            outcome(r) == substitute(raw_text@, self.registry(), env@),
    {
        resolve_tags(raw_text, &self.name_resolver, env)
    }

    /// Registers `id` as the identifier of the record labelled `label`,
    /// replacing any identifier registered under that label before.
    pub fn register(&mut self, label: String, id: String)
        ensures
            final(self).registry() == old(self).registry().insert(label@, id@),
            final(self).files() == old(self).files(),
            final(self).dir() == old(self).dir(),
    {
        self.name_resolver.insert(label, id);
    }

    /// The identifiers registered so far, by label.
    pub fn name_resolver(&self) -> (r: &NameRegistry)
        ensures
            r@ == self.registry(),
    {
        &self.name_resolver
    }
}

impl Default for DatabaseSeeder {
    fn default() -> (r: Self)
        ensures
            r.files() == Seq::<Seq<char>>::empty(),
            r.dir() == Seq::<char>::empty(),
            r.registry() == Map::<Seq<char>, Seq<char>>::empty(),
    {
        Self::new()
    }
}

/// The state of a container after an attempt to load `records` into a
/// container in state `state` (`None`: nothing loaded yet), and whether the
/// attempt was refused.
pub open spec fn load_step<T>(state: Option<Map<Seq<char>, T>>, records: Map<Seq<char>, T>) -> (
    Option<Map<Seq<char>, T>>,
    bool,
) {
    match state {
        Some(m) => (Some(m), true),
        None => (Some(records), false),
    }
}

/// What a query for a label finds in a container.
pub enum Lookup<T> {
    NotLoaded,
    Missing,
    Found(T),
}

/// What a query for `label` finds in a container in state `state`.
pub open spec fn lookup_step<T>(state: Option<Map<Seq<char>, T>>, label: Seq<char>) -> Lookup<T> {
    match state {
        None => Lookup::NotLoaded,
        Some(m) => if m.contains_key(label) {
            Lookup::Found(m[label])
        } else {
            Lookup::Missing
        },
    }
}

/// An empty container accepts a load; once a load has been attempted,
/// every further load is refused and leaves the records as they were.
pub proof fn lemma_second_load_refused<T>(
    state: Option<Map<Seq<char>, T>>,
    first: Map<Seq<char>, T>,
    second: Map<Seq<char>, T>,
)
    ensures
        load_step(None, first) == (Some(first), false),
        load_step(load_step(state, first).0, second) == (load_step(state, first).0, true),
{
}

/// Before any load, a query for any label finds that nothing is loaded.
pub proof fn lemma_query_before_load<T>(label: Seq<char>)
    ensures
        lookup_step::<T>(None, label) is NotLoaded,
{
}

/// A container for the records of one file, by label. Records are loaded
/// into it once; a second load is refused.
#[verifier::reject_recursive_types(T)]
pub struct StructLoader<T> {
    pub filename: String,
    pub base_dir: Option<String>,
    named_records: Option<Dict<T>>,
}

impl<T> StructLoader<T> {
    /// The file whose records the container is for.
    pub closed spec fn file(&self) -> Seq<char> {
        self.filename@
    }

    /// The directory of the file, if one was given.
    pub closed spec fn dir(&self) -> Option<Seq<char>> {
        self.base_dir.deep_view()
    }

    /// The records loaded so far, or `None` before any load.
    pub closed spec fn records(&self) -> Option<Map<Seq<char>, T>> {
        match self.named_records {
            Some(d) => Some(d@),
            None => None,
        }
    }

    /// An empty container for the records of `filename`.
    pub fn new(filename: &str, base_dir: Option<&str>) -> (r: Self)
        ensures
            r.file() == filename@,
            r.dir() == match base_dir {
                Some(d) => Some(d@),
                None => None::<Seq<char>>,
            },
            r.records() is None,
    {
        let base_dir = match base_dir {
            Some(d) => Some(d.to_owned()),
            None => None,
        };
        StructLoader { filename: filename.to_owned(), base_dir, named_records: None }
    }

    /// Whether records have been loaded.
    pub fn is_loaded(&self) -> (r: bool)
        ensures
            r == self.records() is Some,
    {
        self.named_records.is_some()
    }

    /// The raw text of the file with every tag replaced, ready to be decoded
    /// into records; refused where records have been loaded already.
    pub fn resolve(&self, raw_text: &str, dependencies: &NameRegistry, env: &Environment) -> (r:
        Result<String, SeedError>)
        ensures
            self.records() is Some ==> (r matches Err(SeedError::AlreadyLoaded(f)) && f@
                == self.file()),
            self.records() is None ==> match substitute(raw_text@, dependencies@, env@) {
                Ok(s) => r matches Ok(x) && x@ == s,
                Err(e) => r matches Err(SeedError::Tag(f, x)) && f@ == self.file() && x@ == e,
            },
    {
        if self.named_records.is_some() {
            return Err(SeedError::AlreadyLoaded(self.filename.clone()));
        }
        match resolve_tags(raw_text, dependencies, env) {
            Ok(s) => Ok(s),
            Err(e) => Err(SeedError::Tag(self.filename.clone(), e)),
        }
    }

    /// Loads `records`, unless records have been loaded already.
    pub fn set_records(&mut self, records: Dict<T>) -> (r: Result<(), SeedError>)
        ensures
            (final(self).records(), r is Err) == load_step(old(self).records(), records@),
            r is Err ==> (r matches Err(SeedError::AlreadyLoaded(f)) && f@ == old(self).file()),
            final(self).file() == old(self).file(),
            final(self).dir() == old(self).dir(),
    {
        if self.named_records.is_some() {
            return Err(SeedError::AlreadyLoaded(self.filename.clone()));
        }
        self.named_records = Some(records);
        Ok(())
    }

    /// The record labelled `key`.
    pub fn get(&self, key: &str) -> (r: Result<&T, SeedError>)
        ensures
            match lookup_step(self.records(), key@) {
                Lookup::NotLoaded => r matches Err(SeedError::NotLoaded(f)) && f@ == self.file(),
                Lookup::Missing => r matches Err(SeedError::RecordNotFound(f, k)) && f@
                    == self.file() && k@ == key@,
                Lookup::Found(v) => r matches Ok(x) && *x == v,
            },
    {
        let records = match self.get_all_records() {
            Ok(records) => records,
            Err(e) => return Err(e),
        };
        match records.get(key) {
            Some(v) => Ok(v),
            None => Err(SeedError::RecordNotFound(self.filename.clone(), key.to_owned())),
        }
    }

    /// All loaded records, by label.
    pub fn get_all_records(&self) -> (r: Result<&Dict<T>, SeedError>)
        ensures
            match self.records() {
                None => r matches Err(SeedError::NotLoaded(f)) && f@ == self.file(),
                Some(m) => r matches Ok(d) && d@ == m,
            },
    {
        match &self.named_records {
            Some(d) => Ok(d),
            None => Err(SeedError::NotLoaded(self.filename.clone())),
        }
    }
}

} // verus!
