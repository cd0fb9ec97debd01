//! The sink writer: output deltas are rendered into SQL statements and
//! buffered; a flush hands the whole pending batch to the destination for
//! one transaction, and the buffer is only cleared once the caller
//! confirms that the transaction committed, so emission is at-least-once.

use vstd::prelude::*;

use crate::record::DBRecord;

verus! {

/// The sink writer for one destination table.
#[derive(Debug)]
pub struct Sink {
    table: String,
    columns: Vec<String>,
    data: Vec<String>,
    table_created: bool,
}

impl Sink {
    /// The destination table name.
    pub closed spec fn spec_table(&self) -> Seq<char> {
        self.table@
    }

    /// The rendered statements waiting to be flushed, in insertion order.
    pub closed spec fn pending(&self) -> Seq<Seq<char>> {
        self.data@.map_values(|s: String| s@)
    }

    /// The column names recorded for the destination table.
    pub closed spec fn spec_columns(&self) -> Seq<Seq<char>> {
        self.columns@.map_values(|s: String| s@)
    }

    /// Whether the destination table's schema statement has been produced.
    pub closed spec fn spec_table_created(&self) -> bool {
        self.table_created
    }

    /// A sink for the given destination table, with nothing pending.
    pub fn new(table: String) -> (r: Self)
        ensures
            r.spec_table() == table@,
            r.pending() == Seq::<Seq<char>>::empty(),
            r.spec_columns() == Seq::<Seq<char>>::empty(),
            !r.spec_table_created(),
    {
        let r = Sink { table, columns: Vec::new(), data: Vec::new(), table_created: false };
        proof {
            assert(r.pending() =~= Seq::<Seq<char>>::empty());
            assert(r.spec_columns() =~= Seq::<Seq<char>>::empty());
        }
        r
    }

    /// Builds the destination table's creation statement from a derived
    /// column-list fragment, and records that the schema is settled.
    pub fn set_schema(&mut self, schema: String) -> (r: String)
        ensures
            r@ == "CREATE TABLE IF NOT EXISTS "@ + old(self).spec_table() + " "@ + schema@,
            final(self).spec_table_created(),
            final(self).spec_table() == old(self).spec_table(),
            final(self).pending() == old(self).pending(),
            final(self).spec_columns() == old(self).spec_columns(),
    {
        let mut stmt = "CREATE TABLE IF NOT EXISTS ".to_owned();
        stmt.append(self.table.as_str());
        stmt.append(" ");
        stmt.append(schema.as_str());
        self.table_created = true;
        stmt
    }

    /// Records the destination table's column names.
    pub fn set_columns(&mut self, columns: Vec<String>)
        ensures
            final(self).spec_columns() == columns@.map_values(|s: String| s@),
            final(self).spec_table() == old(self).spec_table(),
            final(self).pending() == old(self).pending(),
            final(self).spec_table_created() == old(self).spec_table_created(),
    {
        self.columns = columns;
    }

    /// Appends rendered statements to the pending buffer, draining the
    /// argument.
    pub fn insert(&mut self, data: &mut Vec<String>)
        ensures
            final(self).pending() == old(self).pending() + old(data)@.map_values(|s: String| s@),
            final(data)@ == Seq::<String>::empty(),
            final(self).spec_table() == old(self).spec_table(),
            final(self).spec_columns() == old(self).spec_columns(),
            final(self).spec_table_created() == old(self).spec_table_created(),
    {
        self.data.append(data);
        proof {
            assert(final(self).pending() =~= old(self).pending() + old(data)@.map_values(
                |s: String| s@,
            ));
        }
    }

    /// How many statements are pending.
    pub fn pending_len(&self) -> (r: usize)
        ensures
            r == self.pending().len(),
    {
        self.data.len()
    }

    /// Begins a flush: the pending statements joined into one batch, or
    /// nothing when the buffer is empty — an empty flush executes no
    /// statement and is no error. The pending buffer is kept until
    /// [`Sink::confirm_flush`] reports the transaction committed, so a
    /// failed flush can simply be retried.
    pub fn flush(&self) -> (r: Option<String>)
        ensures
            self.pending().len() == 0 ==> r is None,
            self.pending().len() > 0 ==> r is Some && r.unwrap()@ == spec_joined(self.pending()),
    {
        if self.data.len() == 0 {
            return None;
        }
        let mut out = String::new();
        let mut i: usize = 0;
        while i < self.data.len()
            invariant
                0 < self.data@.len(),
                0 <= i <= self.data@.len(),
                out@ == spec_joined(self.pending().take(i as int)),
                self.pending().len() == self.data@.len(),
            decreases self.data@.len() - i,
        {
            proof {
                assert(self.pending().take(i + 1 as int).drop_last() =~= self.pending().take(
                    i as int,
                ));
                assert(self.pending().take(i + 1 as int).last() == self.pending()[i as int]);
            }
            if i > 0 {
                proof {
                    reveal_strlit(" ");
                }
                out.append(" ");
                proof {
                    assert(" "@ =~= seq![' ']);
                }
            }
            out.append(self.data[i].as_str());
            i = i + 1;
        }
        proof {
            assert(self.pending().take(self.pending().len() as int) =~= self.pending());
        }
        Some(out)
    }

    /// Confirms that a flushed batch committed: the pending buffer is
    /// cleared. Not calling this after a failed flush keeps every
    /// statement for the retry.
    pub fn confirm_flush(&mut self)
        ensures
            final(self).pending() == Seq::<Seq<char>>::empty(),
            final(self).spec_table() == old(self).spec_table(),
            final(self).spec_columns() == old(self).spec_columns(),
            final(self).spec_table_created() == old(self).spec_table_created(),
    {
        self.data.clear();
        proof {
            assert(final(self).pending() =~= Seq::<Seq<char>>::empty());
        }
    }
}

/// A batch of statements joined by single spaces.
pub open spec fn spec_joined(parts: Seq<Seq<char>>) -> Seq<char>
    decreases parts.len(),
{
    if parts.len() == 0 {
        Seq::<char>::empty()
    } else if parts.len() == 1 {
        parts.last()
    } else {
        spec_joined(parts.drop_last()) + seq![' '] + parts.last()
    }
}

} // verus!
