//! Query planning: resolving, from the parsed query and the tables' key
//! metadata, the join column each side is keyed by. The right side joins
//! on its foreign key, so normalization of the right table's feed must
//! extract the join predicate's column; the right side's own primary key
//! column names the second identity column of the output.

use vstd::prelude::*;

use crate::keys::{Key, KeyType};
use crate::parser::Query;

verus! {

/// The key metadata of the named table, taking the first entry.
pub open spec fn spec_assoc(ts: Seq<(String, Vec<Key>)>, name: Seq<char>) -> Option<Vec<Key>>
    decreases ts.len(),
{
    if ts.len() == 0 {
        None
    } else if ts[0].0@ == name {
        Some(ts[0].1)
    } else {
        spec_assoc(ts.drop_first(), name)
    }
}

/// The first column marked as the table's primary key, if any.
pub open spec fn spec_primary_col(ks: Seq<Key>) -> Option<Seq<char>>
    decreases ks.len(),
{
    if ks.len() == 0 {
        None
    } else if ks[0].key_type is PrimaryKey {
        Some(ks[0].column_name@)
    } else {
        spec_primary_col(ks.drop_first())
    }
}

/// Association lookup is unaffected by skipping a prefix without the name.
proof fn lemma_assoc_skip(ts: Seq<(String, Vec<Key>)>, name: Seq<char>, i: int)
    requires
        0 <= i <= ts.len(),
        forall|j: int| 0 <= j < i ==> (#[trigger] ts[j]).0@ != name,
    ensures
        spec_assoc(ts, name) == spec_assoc(ts.skip(i), name),
    decreases i,
{
    if i == 0 {
        assert(ts.skip(0) =~= ts);
    } else {
        lemma_assoc_skip(ts, name, i - 1);
        assert(ts.skip(i - 1)[0] == ts[i - 1]);
        assert(ts.skip(i - 1).drop_first() =~= ts.skip(i));
    }
}

/// The primary-key search is unaffected by skipping non-primary columns.
proof fn lemma_primary_skip(ks: Seq<Key>, i: int)
    requires
        0 <= i <= ks.len(),
        forall|j: int| 0 <= j < i ==> !((#[trigger] ks[j]).key_type is PrimaryKey),
    ensures
        spec_primary_col(ks) == spec_primary_col(ks.skip(i)),
    decreases i,
{
    if i == 0 {
        assert(ks.skip(0) =~= ks);
    } else {
        lemma_primary_skip(ks, i - 1);
        assert(ks.skip(i - 1)[0] == ks[i - 1]);
        assert(ks.skip(i - 1).drop_first() =~= ks.skip(i));
    }
}

/// The resolved right-side join identity: the qualified primary-key column
/// of the query's second table, when the metadata provides one.
pub open spec fn spec_right_key(ts: Seq<(String, Vec<Key>)>, query: Query) -> Option<Seq<char>> {
    if query.tables@.len() < 2 {
        None
    } else {
        match spec_assoc(ts, query.tables@[1]@) {
            None => None,
            Some(ks) => match spec_primary_col(ks@) {
                None => None,
                Some(col) => Some(query.tables@[1]@ + seq!['.'] + col),
            },
        }
    }
}

/// The planner: the per-table key metadata that schema introspection
/// supplied, from which the join columns are resolved.
#[derive(Debug)]
pub struct QueryPlaner {
    table_identities: Vec<(String, Vec<Key>)>,
}

impl QueryPlaner {
    /// The key metadata, one entry per table.
    pub closed spec fn identities(&self) -> Seq<(String, Vec<Key>)> {
        self.table_identities@
    }

    /// A planner over the given per-table key metadata.
    pub fn new(table_identities: Vec<(String, Vec<Key>)>) -> (r: Self)
        ensures
            r.identities() == table_identities@,
    {
        QueryPlaner { table_identities }
    }

    /// Resolves the qualified primary-key column of the query's right
    /// table, used as the second identity column of emitted deletions.
    pub fn resolve_right_key(&self, query: &Query) -> (r: Option<String>)
        ensures
            match r {
                Some(s) => spec_right_key(self.identities(), *query) == Some(s@),
                None => spec_right_key(self.identities(), *query) is None,
            },
    {
        if query.tables.len() < 2 {
            return None;
        }
        let name = &query.tables[1];
        let mut i: usize = 0;
        while i < self.table_identities.len()
            invariant
                0 <= i <= self.table_identities@.len(),
                query.tables@.len() >= 2,
                name@ == query.tables@[1]@,
                forall|j: int| 0 <= j < i ==> (#[trigger] self.table_identities@[j]).0@ != name@,
            decreases self.table_identities@.len() - i,
        {
            if crate::text::str_eq(self.table_identities[i].0.as_str(), name.as_str()) {
                proof {
                    lemma_assoc_skip(self.identities(), name@, i as int);
                    assert(self.identities().skip(i as int)[0] == self.identities()[i as int]);
                }
                let keys = &self.table_identities[i].1;
                let mut j: usize = 0;
                while j < keys.len()
                    invariant
                        0 <= j <= keys@.len(),
                        query.tables@.len() >= 2,
                        name@ == query.tables@[1]@,
                        spec_right_key(self.identities(), *query) == (
                        match spec_primary_col(keys@) {
                            None => None::<Seq<char>>,
                            Some(col) => Some(query.tables@[1]@ + seq!['.'] + col),
                        }),
                        forall|w: int|
                            0 <= w < j ==> !((#[trigger] keys@[w]).key_type is PrimaryKey),
                    decreases keys@.len() - j,
                {
                    let hit = match &keys[j].key_type {
                        KeyType::PrimaryKey => true,
                        _ => false,
                    };
                    if hit {
                        proof {
                            lemma_primary_skip(keys@, j as int);
                            assert(keys@.skip(j as int)[0] == keys@[j as int]);
                        }
                        let mut out = name.clone();
                        out.append(".");
                        out.append(keys[j].column_name.as_str());
                        proof {
                            reveal_strlit(".");
                            assert(out@ =~= name@ + seq!['.'] + keys@[j as int].column_name@);
                        }
                        return Some(out);
                    }
                    j = j + 1;
                }
                proof {
                    lemma_primary_skip(keys@, keys@.len() as int);
                    assert(keys@.skip(keys@.len() as int) =~= Seq::<Key>::empty());
                }
                return None;
            }
            i = i + 1;
        }
        proof {
            lemma_assoc_skip(self.identities(), name@, self.identities().len() as int);
            assert(self.identities().skip(self.identities().len() as int) =~= Seq::<
                (String, Vec<Key>),
            >::empty());
        }
        None
    }
}

/// The foreign-key column the given table's feed must extract during
/// normalization: the join predicate's right-hand column, for the table
/// standing on the right of the join.
pub open spec fn spec_required_key(query: Query, table: Seq<char>) -> Option<Seq<char>> {
    if query.joins@.len() == 0 {
        None
    } else if query.joins@[0].right.table@ == table {
        Some(query.joins@[0].right.row@)
    } else {
        None
    }
}

/// Decides which column, if any, normalization of the given table's feed
/// must resolve as the foreign key.
pub fn required_key_for_table(query: &Query, table: &str) -> (r: Option<String>)
    ensures
        match r {
            Some(s) => spec_required_key(*query, table@) == Some(s@),
            None => spec_required_key(*query, table@) is None,
        },
{
    if query.joins.len() == 0 {
        return None;
    }
    if crate::text::str_eq(query.joins[0].right.table.as_str(), table) {
        Some(query.joins[0].right.row.clone())
    } else {
        None
    }
}

} // verus!
