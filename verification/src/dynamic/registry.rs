//! The registry of schemas.

use crate::dynamic::schema::MessageSchema;
use crate::names::NameMap;
use crate::text;
use std::sync::Arc;
use vstd::prelude::*;

verus! {

/// What a map holds for a key.
pub open spec fn held<V>(m: Map<Seq<char>, V>, key: Seq<char>) -> Option<V> {
    if m.contains_key(key) {
        Some(m[key])
    } else {
        None
    }
}

/// Schemas by their full names, each under its own.
pub struct SchemaRegistry {
    schemas: NameMap<Arc<MessageSchema>>,
}

impl View for SchemaRegistry {
    type V = Map<Seq<char>, Arc<MessageSchema>>;

    closed spec fn view(&self) -> Map<Seq<char>, Arc<MessageSchema>> {
        self.schemas@
    }
}

/// Every schema is held under its own full name.
pub open spec fn keyed_by_name(m: Map<Seq<char>, Arc<MessageSchema>>) -> bool {
    forall|k: Seq<char>| m.contains_key(k) ==> (#[trigger] m[k]).full_name@ == k
}

impl SchemaRegistry {
    #[verifier::type_invariant]
    pub closed spec fn valid(&self) -> bool {
        keyed_by_name(self@)
    }

    /// An empty registry.
    pub fn new() -> (r: Self)
        ensures
            r@ == Map::<Seq<char>, Arc<MessageSchema>>::empty(),
    {
        SchemaRegistry { schemas: NameMap::new() }
    }

    /// The schema of a full name, such as `geometry_msgs/msg/Twist`.
    pub fn get(&self, name: &str) -> (r: Option<Arc<MessageSchema>>)
        ensures
            r == held(self@, name@),
            r matches Some(s) ==> s.full_name@ == name@,
    {
        proof {
            use_type_invariant(self);
        }
        match self.schemas.get(name) {
            Some(s) => Some(s.clone()),
            None => None,
        }
    }

    /// Registers a schema under its full name, in place of any that is there,
    /// and gives it back.
    pub fn register(&mut self, schema: Arc<MessageSchema>) -> (r: Arc<MessageSchema>)
        ensures
            r == schema,
            final(self)@ == old(self)@.insert(schema.full_name@, schema),
    {
        proof {
            use_type_invariant(&*self);
        }
        let mut schemas: NameMap<Arc<MessageSchema>> = NameMap::new();
        std::mem::swap(&mut schemas, &mut self.schemas);
        schemas.insert(schema.full_name.clone(), schema.clone());
        self.schemas = schemas;
        schema
    }

    /// Whether a full name is registered.
    pub fn contains(&self, name: &str) -> (r: bool)
        ensures
            r == self@.contains_key(name@),
    {
        self.schemas.contains(name)
    }

    /// The registered full names, in ascending order, each once.
    pub fn type_names(&self) -> (v: Vec<String>)
        ensures
            crate::names::ascending(text::texts(v@)),
            text::texts(v@).to_set() == self@.dom(),
    {
        self.schemas.key_list()
    }

    /// How many schemas are registered.
    pub fn len(&self) -> (n: usize)
        ensures
            n == self@.dom().len(),
    {
        self.schemas.len()
    }

    /// Whether no schema is registered.
    pub fn is_empty(&self) -> (r: bool)
        ensures
            r == (self@ == Map::<Seq<char>, Arc<MessageSchema>>::empty()),
    {
        let n: usize = self.schemas.len();
        proof {
            self.schemas.layout();
            if n == 0 {
                assert(self@.dom() =~= Set::empty());
                assert(self@ =~= Map::empty());
            }
        }
        n == 0
    }

    /// Takes out every schema.
    pub fn clear(&mut self)
        ensures
            final(self)@ == Map::<Seq<char>, Arc<MessageSchema>>::empty(),
    {
        self.schemas = NameMap::new();
    }
}

impl Default for SchemaRegistry {
    fn default() -> (r: Self)
        ensures
            r@ == Map::<Seq<char>, Arc<MessageSchema>>::empty(),
    {
        SchemaRegistry::new()
    }
}

/// What the shared registry holds, where it can be read.
pub open spec fn shared(registry: Option<&SchemaRegistry>) -> Option<
    Map<Seq<char>, Arc<MessageSchema>>,
> {
    match registry {
        Some(m) => Some(m@),
        None => None,
    }
}

/// The schema of a full name in the shared registry.
pub open spec fn shared_schema(
    known: Option<Map<Seq<char>, Arc<MessageSchema>>>,
    name: Seq<char>,
) -> Option<Arc<MessageSchema>> {
    match known {
        Some(m) => held(m, name),
        None => None,
    }
}

/// A full name is in the shared registry.
pub open spec fn is_shared(
    known: Option<Map<Seq<char>, Arc<MessageSchema>>>,
    name: Seq<char>,
) -> bool {
    known matches Some(m) && m.contains_key(name)
}

/// The schema of a full name in the shared registry: none where the registry
/// cannot be read.
pub fn get_schema(registry: Option<&SchemaRegistry>, name: &str) -> (r: Option<Arc<MessageSchema>>)
    ensures
        r == shared_schema(shared(registry), name@),
{
    match registry {
        Some(m) => m.get(name),
        None => None,
    }
}

/// Registers a schema in the shared registry.
pub fn register_schema(registry: &mut SchemaRegistry, schema: Arc<MessageSchema>) -> (r: Arc<
    MessageSchema,
>)
    ensures
        r == schema,
        final(registry)@ == old(registry)@.insert(schema.full_name@, schema),
{
    registry.register(schema)
}

/// Whether a full name is in the shared registry: not where the registry cannot
/// be read.
pub fn has_schema(registry: Option<&SchemaRegistry>, name: &str) -> (r: bool)
    ensures
        r == is_shared(shared(registry), name@),
{
    match registry {
        Some(m) => m.contains(name),
        None => false,
    }
}

} // verus!
