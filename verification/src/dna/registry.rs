//! The DNA registry: the catalogue of all known [`DnaSchema`]s, looked up
//! by name.
//!
//! Schemas are registered once at startup (typically from static
//! initialisers or a plugin load hook) and can be looked up by name at any
//! point afterwards. A registered schema replaces any earlier one of the
//! same name, which serves hot-reload and plugin updates.

use ahash::AHashMap;
use vstd::prelude::*;

use super::schema::{DnaSchema, SchemaModel};

verus! {

/// The schemas held by the table, by name, each taken by its model.
pub uninterp spec fn schema_table(m: AHashMap<String, DnaSchema>) -> Map<Seq<char>, SchemaModel>;

/// The table without schemas.
pub open spec fn no_schemas() -> Map<Seq<char>, SchemaModel> {
    Map::empty()
}

/// `AHashMap::new`: an empty table.
#[verifier::external_body]
fn table_new() -> (m: AHashMap<String, DnaSchema>)
    ensures
        schema_table(m) == no_schemas(),
{
    AHashMap::new()
}

/// `AHashMap::insert`: the key now maps to the value; other keys keep
/// theirs.
#[verifier::external_body]
fn table_insert(m: &mut AHashMap<String, DnaSchema>, key: String, value: DnaSchema)
    ensures
        schema_table(*final(m)) == schema_table(*old(m)).insert(key@, value.model()),
{
    m.insert(key, value);
}

/// `AHashMap::get`: the value stored under the key.
#[verifier::external_body]
fn table_get<'a>(m: &'a AHashMap<String, DnaSchema>, key: &str) -> (r: Option<&'a DnaSchema>)
    ensures
        match r {
            Some(s) => schema_table(*m).contains_key(key@) && schema_table(*m)[key@] == s.model(),
            None => !schema_table(*m).contains_key(key@),
        },
{
    m.get(key)
}

/// `HashMap::contains_key`: whether a value is stored under the key.
#[verifier::external_body]
fn table_contains(m: &AHashMap<String, DnaSchema>, key: &str) -> (b: bool)
    ensures
        b == schema_table(*m).contains_key(key@),
{
    m.contains_key(key)
}

/// `HashMap::len`: the number of keys.
#[verifier::external_body]
fn table_len(m: &AHashMap<String, DnaSchema>) -> (n: usize)
    ensures
        n == schema_table(*m).len(),
{
    m.len()
}

/// `HashMap::clear`: removes every entry.
#[verifier::external_body]
fn table_clear(m: &mut AHashMap<String, DnaSchema>)
    ensures
        schema_table(*final(m)) == no_schemas(),
{
    m.clear();
}

/// `HashMap::keys`, each key copied: every key once, in the order in which
/// the table is walked, which is left open.
#[verifier::external_body]
fn table_keys(m: &AHashMap<String, DnaSchema>) -> (r: Vec<String>)
    ensures
        r@.map_values(|k: String| k@).no_duplicates(),
        r@.map_values(|k: String| k@).to_set() == schema_table(*m).dom(),
{
    m.keys().cloned().collect()
}

/// The DNA registry: a catalogue of [`DnaSchema`]s by name.
#[derive(Debug)]
pub struct DnaRegistry {
    /// Schema name to schema.
    schemas: AHashMap<String, DnaSchema>,
}

/// The table after registering `schemas` in order: a later schema replaces
/// an earlier one of the same name.
pub open spec fn register_all(m: Map<Seq<char>, SchemaModel>, schemas: Seq<SchemaModel>) -> Map<Seq<char>, SchemaModel>
    decreases schemas.len(),
{
    if schemas.len() == 0 {
        m
    } else {
        register_all(m, schemas.drop_last()).insert(schemas.last().name, schemas.last())
    }
}

impl DnaRegistry {
    /// The registered schemas, by name.
    pub closed spec fn view(&self) -> Map<Seq<char>, SchemaModel> {
        schema_table(self.schemas)
    }

    /// An empty registry.
    pub fn new() -> (r: DnaRegistry)
        ensures
            r@ == no_schemas(),
    {
        DnaRegistry { schemas: table_new() }
    }

    /// Registers a schema under its name. A schema with the same name that
    /// was registered before is replaced.
    pub fn register(&mut self, schema: DnaSchema)
        ensures
            final(self)@ == old(self)@.insert(schema.model().name, schema.model()),
    {
        let name = schema.name.clone();
        table_insert(&mut self.schemas, name, schema);
    }

    /// Registers several schemas, in order.
    pub fn register_many(&mut self, schemas: Vec<DnaSchema>)
        ensures
            final(self)@ == register_all(old(self)@, schemas@.map_values(|s: DnaSchema| s.model())),
    {
        let ghost models = schemas@.map_values(|s: DnaSchema| s.model());
        let mut rest = schemas;
        let mut i: usize = 0;
        let n = rest.len();
        assert(models.take(0) =~= Seq::<SchemaModel>::empty());
        while i < n
            invariant
                i <= n == models.len(),
                rest@.len() == n - i,
                forall|j: int| 0 <= j < rest@.len() ==> (#[trigger] rest@[j]).model() == models[i + j],
                self@ == register_all(old(self)@, models.take(i as int)),
            decreases n - i,
        {
            let ghost before = rest@;
            let schema = rest.remove(0);
            assert(schema.model() == models[i as int]);
            assert(models.take(i + 1).drop_last() =~= models.take(i as int));
            self.register(schema);
            i = i + 1;
            assert forall|j: int| 0 <= j < rest@.len() implies (#[trigger] rest@[j]).model() == models[i + j] by {
                assert(rest@[j] == before[j + 1]);
            }
        }
        assert(models.take(n as int) =~= models);
    }

    /// A copy of the schema registered under `name`.
    pub fn get(&self, name: &str) -> (r: Option<DnaSchema>)
        ensures
            match r {
                Some(s) => self@.contains_key(name@) && self@[name@] == s.model(),
                None => !self@.contains_key(name@),
            },
    {
        match table_get(&self.schemas, name) {
            Some(s) => Some(s.clone()),
            None => None,
        }
    }

    /// Whether a schema is registered under `name`.
    pub fn contains(&self, name: &str) -> (b: bool)
        ensures
            b == self@.contains_key(name@),
    {
        table_contains(&self.schemas, name)
    }

    /// The names of all registered schemas, each once, in no particular
    /// order.
    pub fn names(&self) -> (r: Vec<String>)
        ensures
            r@.map_values(|k: String| k@).no_duplicates(),
            r@.map_values(|k: String| k@).to_set() == self@.dom(),
    {
        table_keys(&self.schemas)
    }

    /// The number of registered schemas.
    pub fn len(&self) -> (n: usize)
        ensures
            n == self@.len(),
    {
        table_len(&self.schemas)
    }

    /// Whether no schema is registered.
    pub fn is_empty(&self) -> (b: bool)
        ensures
            b == (self@.len() == 0),
    {
        self.len() == 0
    }

    /// Removes all registered schemas.
    pub fn clear(&mut self)
        ensures
            final(self)@ == no_schemas(),
    {
        table_clear(&mut self.schemas);
    }

    /// Calls `f` on the schema registered under `name`, without copying it;
    /// `None` where no schema has that name.
    pub fn with_schema<R, F: FnOnce(&DnaSchema) -> R>(&self, name: &str, f: F) -> (r: Option<R>)
        requires
            forall|s: &DnaSchema| call_requires(f, (s,)),
        ensures
            r is Some <==> self@.contains_key(name@),
            r matches Some(x) ==> exists|s: &DnaSchema| s.model() == self@[name@] && call_ensures(f, (s,), x),
    {
        match table_get(&self.schemas, name) {
            Some(s) => Some(f(s)),
            None => None,
        }
    }
}

/// Registering a schema makes it the one found under its name, whatever
/// was registered there before.
pub proof fn lemma_register_then_get(m: Map<Seq<char>, SchemaModel>, s: SchemaModel)
    ensures
        m.insert(s.name, s).contains_key(s.name),
        m.insert(s.name, s)[s.name] == s,
        forall|k: Seq<char>| k != s.name ==> m.insert(s.name, s).contains_key(k) == m.contains_key(k),
{
}

} // verus!
