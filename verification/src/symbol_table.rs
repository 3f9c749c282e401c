use vstd::prelude::*;

use crate::ast::{ASTNode, NodeView};
use crate::utils::str_eq;

verus! {

/// The map held by a list of bindings; a later binding shadows an earlier one.
pub open spec fn nt_map(entries: Seq<(String, ASTNode)>) -> Map<Seq<char>, NodeView>
    decreases entries.len(),
{
    if entries.len() == 0 {
        Map::empty()
    } else {
        nt_map(entries.drop_last()).insert(entries.last().0@, entries.last().1@)
    }
}

proof fn lemma_nt_map_found(entries: Seq<(String, ASTNode)>, key: Seq<char>, j: int)
    requires
        0 <= j < entries.len(),
        entries[j].0@ == key,
        forall|k: int| j < k < entries.len() ==> entries[k].0@ != key,
    ensures
        nt_map(entries).contains_key(key),
        nt_map(entries)[key] == entries[j].1@,
    decreases entries.len(),
{
    if j < entries.len() - 1 {
        lemma_nt_map_found(entries.drop_last(), key, j);
    }
}

proof fn lemma_nt_map_absent(entries: Seq<(String, ASTNode)>, key: Seq<char>)
    requires
        forall|k: int| 0 <= k < entries.len() ==> entries[k].0@ != key,
    ensures
        !nt_map(entries).contains_key(key),
    decreases entries.len(),
{
    if entries.len() > 0 {
        lemma_nt_map_absent(entries.drop_last(), key);
    }
}

/// The node bound to `key`, searching the innermost scope first.
pub open spec fn scoped_lookup(scopes: Seq<Map<Seq<char>, NodeView>>, key: Seq<char>) -> Option<
    NodeView,
>
    decreases scopes.len(),
{
    if scopes.len() == 0 {
        None
    } else if scopes.last().contains_key(key) {
        Some(scopes.last()[key])
    } else {
        scoped_lookup(scopes.drop_last(), key)
    }
}

/// A stack of scopes, each mapping names to syntax tree nodes.
pub struct SymbolTable {
    scoped_table: Vec<Vec<(String, ASTNode)>>,
}

impl View for SymbolTable {
    type V = Seq<Map<Seq<char>, NodeView>>;

    closed spec fn view(&self) -> Seq<Map<Seq<char>, NodeView>> {
        Seq::new(self.scoped_table@.len(), |i: int| nt_map(self.scoped_table@[i]@))
    }
}

impl SymbolTable {
    /// A fresh table holds one empty scope.
    pub fn new() -> (r: SymbolTable)
        ensures
            r@ == (seq![Map::<Seq<char>, NodeView>::empty()]),
    {
        let r = SymbolTable { scoped_table: vec![Vec::new()] };
        proof {
            assert(r@ =~~= seq![Map::<Seq<char>, NodeView>::empty()]);
        }
        r
    }

    /// The node bound to `key`, searching the innermost scope first.
    pub fn get(&self, key: &str) -> (r: Option<&ASTNode>)
        ensures
            match r {
                Some(n) => scoped_lookup(self@, key@) == Some(n@),
                None => scoped_lookup(self@, key@) is None,
            },
    {
        let ghost m = self@;
        proof {
            assert(m.take(self.scoped_table@.len() as int) =~= m);
        }
        let mut k: usize = self.scoped_table.len();
        #[verifier::loop_isolation(false)]
        while k > 0
            invariant
                k <= self.scoped_table@.len(),
                scoped_lookup(m, key@) == scoped_lookup(m.take(k as int), key@),
            decreases k,
        {
            k -= 1;
            proof {
                assert(m.take(k as int + 1).drop_last() =~= m.take(k as int));
                assert(m.take(k as int + 1).last() == m[k as int]);
            }
            let table = &self.scoped_table[k];
            let ghost es = table@;
            let mut j: usize = table.len();
            #[verifier::loop_isolation(false)]
            while j > 0
                invariant
                    j <= es.len(),
                    es == self.scoped_table@[k as int]@,
                    forall|idx: int| j <= idx < es.len() ==> es[idx].0@ != key@,
                decreases j,
            {
                j -= 1;
                if str_eq(table[j].0.as_str(), key) {
                    proof {
                        lemma_nt_map_found(es, key@, j as int);
                    }
                    return Some(&table[j].1);
                }
            }
            proof {
                lemma_nt_map_absent(es, key@);
            }
        }
        proof {
            assert(m.take(0) =~= Seq::<Map<Seq<char>, NodeView>>::empty());
        }
        None
    }

    /// Bind `key` in the innermost scope; with no scope this does nothing.
    pub fn set(&mut self, key: &str, symbol: ASTNode)
        ensures
            old(self)@.len() == 0 ==> final(self)@ == old(self)@,
            old(self)@.len() > 0 ==> final(self)@ == old(self)@.update(
                old(self)@.len() - 1,
                old(self)@.last().insert(key@, symbol@),
            ),
    {
        let ghost symv = symbol@;
        if self.scoped_table.len() == 0 {
            proof {
                assert(final(self)@ =~~= old(self)@);
            }
            return ;
        }
        let mut table = self.scoped_table.pop().unwrap();
        let ghost es = table@;
        table.push((key.to_owned(), symbol));
        proof {
            assert(table@.drop_last() =~= es);
        }
        self.scoped_table.push(table);
        proof {
            assert(final(self)@ =~~= old(self)@.update(
                old(self)@.len() - 1,
                old(self)@.last().insert(key@, symv),
            ));
        }
    }

    /// Open a new innermost scope.
    pub fn push_scope(&mut self)
        ensures
            final(self)@ == old(self)@.push(Map::<Seq<char>, NodeView>::empty()),
    {
        self.scoped_table.push(Vec::new());
        proof {
            assert(final(self)@ =~~= old(self)@.push(Map::<Seq<char>, NodeView>::empty()));
        }
    }

    /// Close the innermost scope; with no scope this does nothing.
    pub fn pop_scope(&mut self)
        ensures
            old(self)@.len() == 0 ==> final(self)@ == old(self)@,
            old(self)@.len() > 0 ==> final(self)@ == old(self)@.drop_last(),
    {
        let popped = self.scoped_table.pop();
        proof {
            match popped {
                Some(_) => {
                    assert(final(self)@ =~~= old(self)@.drop_last());
                },
                None => {
                    assert(final(self)@ =~~= old(self)@);
                },
            }
        }
    }
}

} // verus!
