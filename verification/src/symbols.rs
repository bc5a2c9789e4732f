//! The symbol table: a stack of scopes, each a mapping from names to types.
//!
//! The language has one scope, so analysis only ever works in the scope that a
//! new table starts with. The stack is there for scopes of blocks to be added
//! without a change to what a table means: the names of all its scopes, where
//! an inner scope hides a name of an outer one.

use vstd::prelude::*;
use vstd::hash_map::StringHashMap;
use crate::ast::Type;

verus! {

/// The names that a stack of scopes makes visible, with their types: those of
/// the last scope, then those of the scopes before it that it does not hide.
pub open spec fn visible(scopes: Seq<Map<Seq<char>, Type>>) -> Map<Seq<char>, Type>
    decreases scopes.len(),
{
    if scopes.len() == 0 {
        Map::empty()
    } else {
        visible(scopes.drop_last()).union_prefer_right(scopes.last())
    }
}

/// The mappings of a sequence of scopes, in order.
pub open spec fn scope_maps(scopes: Seq<StringHashMap<Type>>) -> Seq<Map<Seq<char>, Type>> {
    Seq::new(scopes.len(), |i: int| scopes[i]@)
}

/// One scope alone makes its own names visible.
pub proof fn lemma_visible_alone(scopes: Seq<Map<Seq<char>, Type>>)
    requires
        scopes.len() == 1,
    ensures
        visible(scopes) == scopes[0],
{
    assert(scopes.drop_last() =~= Seq::empty());
    assert(visible(scopes.drop_last()) =~= Map::empty());
    assert(visible(scopes) =~= scopes[0]);
}

/// The symbol table.
pub struct SymbolTable {
    pub scopes: Vec<StringHashMap<Type>>,
}

impl View for SymbolTable {
    type V = Map<Seq<char>, Type>;

    open spec fn view(&self) -> Map<Seq<char>, Type> {
        visible(scope_maps(self.scopes@))
    }
}

impl SymbolTable {
    /// A table has at least one scope.
    pub open spec fn wf(&self) -> bool {
        self.scopes.len() >= 1
    }

    /// A table with one scope and no name.
    pub fn new() -> (table: SymbolTable)
        ensures
            table.wf(),
            table.scopes.len() == 1,
            table@ == Map::<Seq<char>, Type>::empty(),
    {
        let mut scopes: Vec<StringHashMap<Type>> = Vec::new();
        scopes.push(StringHashMap::new());
        let table = SymbolTable { scopes };
        proof {
            lemma_visible_alone(scope_maps(table.scopes@));
        }
        table
    }

    /// Opens a scope inside the scopes that there are. No name changes.
    pub fn push_scope(&mut self)
        ensures
            final(self).wf(),
            final(self).scopes.len() == old(self).scopes.len() + 1,
            final(self)@ == old(self)@,
    {
        self.scopes.push(StringHashMap::new());
        proof {
            let maps = scope_maps(self.scopes@);
            assert(maps.drop_last() =~= scope_maps(old(self).scopes@));
            assert(visible(maps) =~= visible(scope_maps(old(self).scopes@)));
        }
    }

    /// Closes the innermost scope: its names are gone, and the names that it
    /// hid are visible again.
    pub fn pop_scope(&mut self)
        requires
            old(self).scopes.len() > 1,
        ensures
            final(self).wf(),
            final(self).scopes@ == old(self).scopes@.drop_last(),
            final(self)@ == visible(scope_maps(old(self).scopes@).drop_last()),
    {
        self.scopes.pop();
        assert(scope_maps(self.scopes@) =~= scope_maps(old(self).scopes@).drop_last());
    }

    /// The type of a visible name; `None` for a name that is not visible.
    pub fn lookup(&self, name: &str) -> (found: Option<Type>)
        ensures
            found == if self@.contains_key(name@) {
                Some(self@[name@])
            } else {
                None
            },
    {
        let ghost maps = scope_maps(self.scopes@);
        let mut i: usize = self.scopes.len();
        proof {
            assert(maps.take(i as int) =~= maps);
        }
        while i > 0
            invariant
                i <= self.scopes.len(),
                maps == scope_maps(self.scopes@),
                self@ == visible(maps),
                visible(maps).contains_key(name@) <==> visible(maps.take(i as int)).contains_key(
                    name@,
                ),
                visible(maps).contains_key(name@) ==> visible(maps)[name@] == visible(
                    maps.take(i as int),
                )[name@],
            decreases i,
        {
            proof {
                let upto = maps.take(i as int);
                assert(upto.drop_last() =~= maps.take(i - 1));
                assert(upto.last() == maps[i - 1]);
            }
            i -= 1;
            match self.scopes[i].get(name) {
                Some(declared) => {
                    return Some(*declared);
                },
                None => {},
            }
        }
        None
    }

    /// Whether a name is visible.
    pub fn contains(&self, name: &str) -> (found: bool)
        ensures
            found == self@.contains_key(name@),
    {
        self.lookup(name).is_some()
    }

    /// Declares a name in the innermost scope.
    pub fn declare(&mut self, name: String, declared: Type)
        requires
            old(self).wf(),
        ensures
            final(self).wf(),
            final(self).scopes.len() == old(self).scopes.len(),
            final(self)@ == old(self)@.insert(name@, declared),
    {
        let last: usize = self.scopes.len() - 1;
        self.scopes[last].insert(name, declared);
        proof {
            let before = scope_maps(old(self).scopes@);
            let after = scope_maps(self.scopes@);
            assert(after.drop_last() =~= before.drop_last());
            assert(after.last() == before.last().insert(name@, declared));
            assert(visible(after) =~= visible(before).insert(name@, declared));
        }
    }
}

} // verus!
