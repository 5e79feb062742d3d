//! Lexical environments: the mapping from names to types that scope
//! resolution walks.
//!
//! An [`Environment`] is a table of bindings plus an optional parent scope.
//! Lookup scans the own table from the most recent binding backwards, then
//! walks outward through the parent links; [`Environment::lookup`] states
//! this, and [`Environment::as_map`] flattens the whole chain into one map,
//! which is the model the type checker's contracts use.
//!
//! The type checker keeps one environment and grows it in place: entering a
//! scope pushes bindings, leaving it truncates the table back, which restores
//! the bindings exactly.

use vstd::prelude::*;

use crate::ast::Type;

verus! {

/// Compares two byte strings.
pub fn bytes_eq(a: &Vec<u8>, b: &Vec<u8>) -> (r: bool)
    ensures
        r == (a@ == b@),
{
    if a.len() != b.len() {
        proof {
            assert(a@ != b@);
        }
        return false;
    }
    let mut i: usize = 0;
    #[verifier::loop_isolation(false)]
    while i < a.len()
        invariant
            0 <= i <= a@.len(),
            a@.len() == b@.len(),
            forall|j: int| 0 <= j < i ==> a@[j] == b@[j],
        decreases a@.len() - i,
    {
        if a[i] != b[i] {
            proof {
                assert(a@ != b@);
            }
            return false;
        }
        i = i + 1;
    }
    proof {
        assert(a@ =~= b@);
    }
    true
}

/// A scope: name-to-type bindings, and the enclosing scope when there is
/// one. A later binding for the same name shadows an earlier one.
#[derive(Debug)]
pub struct Environment {
    pub table: Vec<(Vec<u8>, Type)>,
    pub father: Option<Box<Environment>>,
}

/// The binding a table holds for `name`: the most recently inserted one.
pub open spec fn lookup_table(entries: Seq<(Vec<u8>, Type)>, name: Seq<u8>) -> Option<Type>
    decreases entries.len(),
{
    if entries.len() == 0 {
        Option::None
    } else if entries.last().0@ == name {
        Some(entries.last().1)
    } else {
        lookup_table(entries.drop_last(), name)
    }
}

/// The table as a map from names to types, later entries overriding earlier
/// ones.
pub open spec fn table_map(entries: Seq<(Vec<u8>, Type)>) -> Map<Seq<u8>, Type>
    decreases entries.len(),
{
    if entries.len() == 0 {
        Map::empty()
    } else {
        table_map(entries.drop_last()).insert(entries.last().0@, entries.last().1)
    }
}

/// A table's lookup agrees with its map.
pub proof fn lemma_lookup_table_map(entries: Seq<(Vec<u8>, Type)>, name: Seq<u8>)
    ensures
        lookup_table(entries, name) == if table_map(entries).contains_key(name) {
            Some(table_map(entries)[name])
        } else {
            Option::<Type>::None
        },
    decreases entries.len(),
{
    if entries.len() > 0 {
        lemma_lookup_table_map(entries.drop_last(), name);
    }
}

impl Environment {
    /// What `name` resolves to here: the own table first, then the enclosing
    /// scopes, outward until found or exhausted.
    pub open spec fn lookup(self, name: Seq<u8>) -> Option<Type>
        decreases self,
    {
        match lookup_table(self.table@, name) {
            Some(t) => Some(t),
            Option::None => match self.father {
                Some(f) => f.lookup(name),
                Option::None => Option::None,
            },
        }
    }

    /// The whole scope chain flattened into one map: the own table's
    /// bindings override the enclosing scopes'.
    pub open spec fn as_map(self) -> Map<Seq<u8>, Type>
        decreases self,
    {
        match self.father {
            Some(f) => f.as_map().union_prefer_right(table_map(self.table@)),
            Option::None => table_map(self.table@),
        }
    }

    /// Chain lookup agrees with the flattened map.
    pub proof fn lemma_lookup_as_map(self, name: Seq<u8>)
        ensures
            self.lookup(name) == if self.as_map().contains_key(name) {
                Some(self.as_map()[name])
            } else {
                Option::<Type>::None
            },
        decreases self,
    {
        lemma_lookup_table_map(self.table@, name);
        match self.father {
            Some(f) => f.lemma_lookup_as_map(name),
            Option::None => {},
        }
    }

    /// The empty root scope.
    pub fn new() -> (r: Self)
        ensures
            r.table@.len() == 0,
            r.father is None,
            r.as_map() == Map::<Seq<u8>, Type>::empty(),
    {
        Environment { table: Vec::new(), father: Option::None }
    }

    /// A fresh scope enclosed by `father`: empty own table, every binding of
    /// `father` visible.
    pub fn put(father: Box<Environment>) -> (r: Self)
        ensures
            r.table@.len() == 0,
            r.father == Some(father),
            r.as_map() == father.as_map(),
    {
        let r = Environment { table: Vec::new(), father: Some(father) };
        proof {
            assert(r.as_map() =~= r.father->0.as_map());
        }
        r
    }

    /// Binds `id` to `type_` in this scope, shadowing any earlier binding.
    pub fn insert(&mut self, id: Vec<u8>, type_: Type)
        ensures
            final(self).as_map() == old(self).as_map().insert(id@, type_),
            final(self).father == old(self).father,
            final(self).table@ == old(self).table@.push((id, type_)),
    {
        let ghost entries = self.table@;
        let ghost name = id@;
        let ghost ty = type_;
        self.table.push((id, type_));
        proof {
            assert(self.table@.drop_last() =~= entries);
            assert(table_map(self.table@) =~= table_map(entries).insert(name, ty));
            assert(self.as_map() =~= old(self).as_map().insert(name, ty));
        }
    }

    /// Binds `id` to `ty` in this scope; the name the checking pass uses
    /// for [`Environment::insert`].
    pub fn bind(&mut self, id: Vec<u8>, ty: Type)
        ensures
            final(self).as_map() == old(self).as_map().insert(id@, ty),
            final(self).father == old(self).father,
            final(self).table@ == old(self).table@.push((id, ty)),
    {
        self.insert(id, ty);
    }

    /// A fresh child scope of `father`: no own bindings, and every lookup
    /// that misses here falls through to `father`'s chain.
    pub fn make_scope(father: Box<Environment>) -> (r: Environment)
        ensures
            r.table@.len() == 0,
            r.father == Some(father),
            r.as_map() == father.as_map(),
            forall|name: Seq<u8>| r.lookup(name) == father.lookup(name),
    {
        let r = Environment::put(father);
        proof {
            assert forall|name: Seq<u8>| r.lookup(name) == r.father->0.lookup(name) by {
                r.lemma_lookup_as_map(name);
                r.father->0.lemma_lookup_as_map(name);
            }
        }
        r
    }

    /// Resolves `id` in this scope chain, per [`Environment::lookup`] and
    /// the flattened map.
    pub fn get(&self, id: &Vec<u8>) -> (r: Option<&Type>)
        ensures
            match r {
                Some(t) => self.lookup(id@) == Some(*t) && self.as_map().contains_key(id@)
                    && *t == self.as_map()[id@],
                Option::None => self.lookup(id@) is None && !self.as_map().contains_key(id@),
            },
        decreases *self,
    {
        proof {
            self.lemma_lookup_as_map(id@);
            assert(self.table@.subrange(0, self.table@.len() as int) =~= self.table@);
        }
        let mut j: usize = self.table.len();
        #[verifier::loop_isolation(false)]
        while j > 0
            invariant
                0 <= j <= self.table@.len(),
                lookup_table(self.table@, id@) == lookup_table(
                    self.table@.subrange(0, j as int),
                    id@,
                ),
        decreases j,
    {
        proof {
            assert(self.table@.subrange(0, j as int).drop_last() =~= self.table@.subrange(
                0,
                j as int - 1,
            ));
        }
        if bytes_eq(&self.table[j - 1].0, id) {
            return Some(&self.table[j - 1].1);
        }
        j = j - 1;
    }
        match &self.father {
            Some(f) => f.get(id),
            Option::None => Option::None,
        }
    }
}

/// The pass that builds environments and drives type checking: it owns the
/// source buffer (through its type builder) and resolves every name and
/// declared type against it.
pub struct EnvironmentBuilder {
    pub type_builder: crate::typecheck::TypeBuilder,
}

} // verus!
