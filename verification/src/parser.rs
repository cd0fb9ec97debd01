//! The declarative description of a view query: the tables, the projected
//! columns, the join condition and the optional filter. The textual SQL
//! front-end that produces this description is an external collaborator.

use vstd::prelude::*;

verus! {

/// A column of a table, as `table.column` or a bare column name.
#[derive(Debug)]
pub struct RowProperty {
    pub table: String,
    pub row: String,
}

/// The qualified name a row property denotes.
pub open spec fn spec_property_name(table: Seq<char>, row: Seq<char>) -> Seq<char> {
    if table.len() == 0 {
        row
    } else {
        table + seq!['.'] + row
    }
}

impl RowProperty {
    /// The qualified `table.column` name, or the bare column name when no
    /// table is given.
    pub fn to_string(&self) -> (r: String)
        ensures
            r@ == spec_property_name(self.table@, self.row@),
    {
        if self.table.as_str().is_empty() {
            self.row.clone()
        } else {
            let mut out = self.table.clone();
            out.append(".");
            out.append(self.row.as_str());
            proof {
                reveal_strlit(".");
                assert(out@ =~= spec_property_name(self.table@, self.row@));
            }
            out
        }
    }
}

impl Clone for RowProperty {
    /// Clones the property, keeping both names.
    fn clone(&self) -> (r: Self)
        ensures
            r.table@ == self.table@,
            r.row@ == self.row@,
    {
        RowProperty { table: self.table.clone(), row: self.row.clone() }
    }
}

/// An equality between a column of each joined table.
#[derive(Debug)]
pub struct JoinCondition {
    pub left: RowProperty,
    pub operator: String,
    pub right: RowProperty,
}

/// A comparison between a column and a literal, filtering the join output.
#[derive(Debug)]
pub struct WhereCondition {
    pub left: RowProperty,
    pub op: String,
    pub right: String,
}

impl Clone for WhereCondition {
    /// Clones the condition, keeping the column, operator and literal.
    fn clone(&self) -> (r: Self)
        ensures
            r.left.table@ == self.left.table@,
            r.left.row@ == self.left.row@,
            r.op@ == self.op@,
            r.right@ == self.right@,
    {
        WhereCondition { left: self.left.clone(), op: self.op.clone(), right: self.right.clone() }
    }
}

/// A parsed view query over two joined tables.
#[derive(Debug)]
pub struct Query {
    pub tables: Vec<String>,
    pub rows: Vec<RowProperty>,
    pub condition: Option<WhereCondition>,
    pub joins: Vec<JoinCondition>,
}

/// The names of a query's tables joined by underscores, used to name the
/// destination table of the materialized view.
pub open spec fn spec_table_string(tables: Seq<Seq<char>>) -> Seq<char>
    decreases tables.len(),
{
    if tables.len() == 0 {
        Seq::<char>::empty()
    } else if tables.len() == 1 {
        tables.last()
    } else {
        spec_table_string(tables.drop_last()) + seq!['_'] + tables.last()
    }
}

impl Query {
    /// The destination table name for this query's materialized view.
    pub fn to_table_string(&self) -> (r: String)
        ensures
            r@ == spec_table_string(self.tables@.map_values(|t: String| t@)),
    {
        let ghost gts = self.tables@.map_values(|t: String| t@);
        let mut out = String::new();
        let mut i: usize = 0;
        while i < self.tables.len()
            invariant
                0 <= i <= self.tables.len(),
                gts == self.tables@.map_values(|t: String| t@),
                gts.len() == self.tables@.len(),
                out@ == spec_table_string(gts.take(i as int)),
            decreases self.tables.len() - i,
        {
            proof {
                assert(gts.take(i + 1 as int).drop_last() =~= gts.take(i as int));
                assert(gts.take(i + 1 as int).last() == gts[i as int]);
            }
            if i > 0 {
                proof {
                    reveal_strlit("_");
                }
                out.append("_");
                proof {
                    assert("_"@ =~= seq!['_']);
                }
            }
            out.append(self.tables[i].as_str());
            i = i + 1;
        }
        proof {
            assert(gts.take(gts.len() as int) =~= gts);
        }
        out
    }
}

} // verus!
