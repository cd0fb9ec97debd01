//! Denormalized row records: an ordered association of column names to
//! scalar values, with a sequence-of-pairs mathematical view.

use vstd::prelude::*;

use crate::scalar::{ScalarV, ScalarValue};
use crate::text::str_eq;

verus! {

/// The mathematical view of a record: column names and values in order.
pub type RecView = Seq<(Seq<char>, ScalarV)>;

/// A row record: column names mapped to scalar values, kept in insertion
/// order with unique names.
#[derive(Debug)]
pub struct DBRecord {
    pub cols: Vec<(String, ScalarValue)>,
}

impl View for DBRecord {
    type V = RecView;

    open spec fn view(&self) -> RecView {
        self.cols@.map_values(|p: (String, ScalarValue)| (p.0@, p.1@))
    }
}

/// Whether a record view binds the given column name.
pub open spec fn rec_contains_key(r: RecView, k: Seq<char>) -> bool {
    exists|i: int| 0 <= i < r.len() && (#[trigger] r[i]).0 == k
}

/// The value bound to the given column name, taking the first binding.
pub open spec fn rec_lookup(r: RecView, k: Seq<char>) -> Option<ScalarV>
    decreases r.len(),
{
    if r.len() == 0 {
        None
    } else if r[0].0 == k {
        Some(r[0].1)
    } else {
        rec_lookup(r.drop_first(), k)
    }
}

/// Well-formedness of a record view: column names are unique.
pub open spec fn rec_wf(r: RecView) -> bool {
    forall|i: int, j: int| 0 <= i < j < r.len() ==> (#[trigger] r[i]).0 != (#[trigger] r[j]).0
}

/// Looking a key up is unaffected by skipping a prefix that does not bind it.
proof fn lemma_lookup_skip(r: RecView, k: Seq<char>, i: int)
    requires
        0 <= i <= r.len(),
        forall|j: int| 0 <= j < i ==> (#[trigger] r[j]).0 != k,
    ensures
        rec_lookup(r, k) == rec_lookup(r.skip(i), k),
    decreases i,
{
    if i == 0 {
        assert(r.skip(0) =~= r);
    } else {
        lemma_lookup_skip(r, k, i - 1);
        assert(r.skip(i - 1)[0] == r[i - 1]);
        assert(r.skip(i - 1).drop_first() =~= r.skip(i));
    }
}

/// A key bound nowhere in a view has no lookup result.
pub proof fn lemma_lookup_absent(r: RecView, k: Seq<char>)
    requires
        !rec_contains_key(r, k),
    ensures
        rec_lookup(r, k) is None,
    decreases r.len(),
{
    if r.len() > 0 {
        assert(r[0].0 != k);
        assert(!rec_contains_key(r.drop_first(), k)) by {
            if rec_contains_key(r.drop_first(), k) {
                let i = choose|i: int|
                    0 <= i < r.drop_first().len() && (#[trigger] r.drop_first()[i]).0 == k;
                assert(r[i + 1].0 == k);
            }
        }
        lemma_lookup_absent(r.drop_first(), k);
    }
}

impl DBRecord {
    /// An empty record.
    pub fn new() -> (r: Self)
        ensures
            r@ == Seq::<(Seq<char>, ScalarV)>::empty(),
    {
        let r = DBRecord { cols: Vec::new() };
        proof {
            assert(r@ =~= Seq::<(Seq<char>, ScalarV)>::empty());
        }
        r
    }

    /// Binds a fresh column name to a value, keeping insertion order.
    pub fn insert(&mut self, key: String, value: ScalarValue)
        requires
            !rec_contains_key(old(self)@, key@),
        ensures
            final(self)@ == old(self)@.push((key@, value@)),
            rec_wf(old(self)@) ==> rec_wf(final(self)@),
    {
        let ghost prior = self@;
        let ghost pair = (key@, value@);
        self.cols.push((key, value));
        proof {
            assert(self@ =~= prior.push(pair));
            if rec_wf(prior) {
                assert forall|i: int, j: int| 0 <= i < j < self@.len() implies (
                #[trigger] self@[i]).0 != (#[trigger] self@[j]).0 by {
                    if j == self@.len() - 1 {
                        assert(self@[i] == prior[i]);
                    }
                }
            }
        }
    }

    /// Whether the record binds the given column name.
    pub fn contains_key(&self, key: &str) -> (r: bool)
        ensures
            r == rec_contains_key(self@, key@),
    {
        let mut i: usize = 0;
        while i < self.cols.len()
            invariant
                0 <= i <= self.cols.len(),
                self@.len() == self.cols.len(),
                forall|j: int| 0 <= j < i ==> (#[trigger] self@[j]).0 != key@,
            decreases self.cols.len() - i,
        {
            if str_eq(self.cols[i].0.as_str(), key) {
                proof {
                    assert(self@[i as int].0 == key@);
                }
                return true;
            }
            i = i + 1;
        }
        false
    }

    /// The value bound to the given column name, or null when it is absent.
    pub fn get(&self, key: &str) -> (r: ScalarValue)
        ensures
            r@ == match rec_lookup(self@, key@) {
                Some(v) => v,
                None => ScalarV::Null,
            },
    {
        let mut i: usize = 0;
        while i < self.cols.len()
            invariant
                0 <= i <= self.cols.len(),
                self@.len() == self.cols.len(),
                forall|j: int| 0 <= j < i ==> (#[trigger] self@[j]).0 != key@,
            decreases self.cols.len() - i,
        {
            if str_eq(self.cols[i].0.as_str(), key) {
                let v = self.cols[i].1.clone();
                proof {
                    lemma_lookup_skip(self@, key@, i as int);
                    assert(self@.skip(i as int)[0] == self@[i as int]);
                }
                return v;
            }
            i = i + 1;
        }
        proof {
            lemma_lookup_skip(self@, key@, self@.len() as int);
            assert(self@.skip(self@.len() as int) =~= Seq::<(Seq<char>, ScalarV)>::empty());
        }
        ScalarValue::Null
    }

    /// The first column name bound to the given numeric value, if any.
    pub fn get_key_for_value(&self, value: u64) -> (r: Option<String>)
        ensures
            match r {
                Some(k) => rec_key_for(self@, value as int) == Some(k@),
                None => rec_key_for(self@, value as int) is None,
            },
    {
        let mut i: usize = 0;
        while i < self.cols.len()
            invariant
                0 <= i <= self.cols.len(),
                self@.len() == self.cols.len(),
                forall|j: int| 0 <= j < i ==> (#[trigger] self@[j]).1 != ScalarV::Number(
                    value as int,
                ),
            decreases self.cols.len() - i,
        {
            let hit = match &self.cols[i].1 {
                ScalarValue::Number(n) => *n >= 0 && *n as u64 == value,
                _ => false,
            };
            if hit {
                let k = self.cols[i].0.clone();
                proof {
                    lemma_key_for_skip(self@, value as int, i as int);
                    assert(self@.skip(i as int)[0] == self@[i as int]);
                }
                return Some(k);
            }
            proof {
                assert(self@[i as int].1 != ScalarV::Number(value as int));
            }
            i = i + 1;
        }
        proof {
            lemma_key_for_skip(self@, value as int, self@.len() as int);
            assert(self@.skip(self@.len() as int) =~= Seq::<(Seq<char>, ScalarV)>::empty());
        }
        None
    }
}

/// The first column name whose value is the given number.
pub open spec fn rec_key_for(r: RecView, v: int) -> Option<Seq<char>>
    decreases r.len(),
{
    if r.len() == 0 {
        None
    } else if r[0].1 == ScalarV::Number(v) {
        Some(r[0].0)
    } else {
        rec_key_for(r.drop_first(), v)
    }
}

/// Finding a value is unaffected by skipping a prefix that does not hold it.
proof fn lemma_key_for_skip(r: RecView, v: int, i: int)
    requires
        0 <= i <= r.len(),
        forall|j: int| 0 <= j < i ==> (#[trigger] r[j]).1 != ScalarV::Number(v),
    ensures
        rec_key_for(r, v) == rec_key_for(r.skip(i), v),
    decreases i,
{
    if i == 0 {
        assert(r.skip(0) =~= r);
    } else {
        lemma_key_for_skip(r, v, i - 1);
        assert(r.skip(i - 1)[0] == r[i - 1]);
        assert(r.skip(i - 1).drop_first() =~= r.skip(i));
    }
}

/// The entries of `r` whose column names `other` does not bind, in order.
pub open spec fn rec_minus_keys(r: RecView, other: RecView) -> RecView
    decreases r.len(),
{
    if r.len() == 0 {
        Seq::<(Seq<char>, ScalarV)>::empty()
    } else if rec_contains_key(other, r.last().0) {
        rec_minus_keys(r.drop_last(), other)
    } else {
        rec_minus_keys(r.drop_last(), other) + seq![r.last()]
    }
}

/// The view of a record after prefixing every column name.
pub open spec fn rec_prefixed(r: RecView, p: Seq<char>) -> RecView {
    r.map_values(|pr: (Seq<char>, ScalarV)| (p + seq!['.'] + pr.0, pr.1))
}

/// The projection of a record onto the given column names, in their order,
/// skipping names the record does not bind.
pub open spec fn rec_pick(r: RecView, ks: Seq<Seq<char>>) -> RecView
    decreases ks.len(),
{
    if ks.len() == 0 {
        Seq::<(Seq<char>, ScalarV)>::empty()
    } else {
        rec_pick(r, ks.drop_last()) + (match rec_lookup(r, ks.last()) {
            Some(v) => seq![(ks.last(), v)],
            None => Seq::<(Seq<char>, ScalarV)>::empty(),
        })
    }
}

/// A key that a view binds has a lookup result.
pub proof fn lemma_lookup_present(r: RecView, k: Seq<char>)
    requires
        rec_contains_key(r, k),
    ensures
        rec_lookup(r, k) is Some,
    decreases r.len(),
{
    if r.len() > 0 && r[0].0 != k {
        let i = choose|i: int| 0 <= i < r.len() && (#[trigger] r[i]).0 == k;
        assert(r.drop_first()[i - 1].0 == k);
        lemma_lookup_present(r.drop_first(), k);
    }
}

impl DBRecord {
    /// Appends `other` into this record, its bindings replacing bindings
    /// of the same column name, and returns the merged record.
    pub fn merge(&mut self, other: DBRecord) -> (r: DBRecord)
        ensures
            final(self)@ == rec_minus_keys(old(self)@, other@) + other@,
            r@ == final(self)@,
    {
        let mut kept: Vec<(String, ScalarValue)> = Vec::new();
        let ghost mut gv: RecView = Seq::empty();
        let mut i: usize = 0;
        while i < self.cols.len()
            invariant
                0 <= i <= self.cols.len(),
                self@.len() == self.cols.len(),
                kept@.len() == gv.len(),
                forall|j: int|
                    0 <= j < kept@.len() ==> (#[trigger] kept@[j]).0@ == gv[j].0 && kept@[j].1@
                        == gv[j].1,
                gv == rec_minus_keys(self@.take(i as int), other@),
            decreases self.cols.len() - i,
        {
            let ghost pre = self@.take(i as int);
            proof {
                assert(self@.take(i + 1 as int).drop_last() =~= pre);
                assert(self@.take(i + 1 as int).last() == self@[i as int]);
            }
            if !other.contains_key(self.cols[i].0.as_str()) {
                let k = self.cols[i].0.clone();
                let v = self.cols[i].1.clone();
                kept.push((k, v));
                proof {
                    gv = gv + seq![self@[i as int]];
                }
            }
            i = i + 1;
        }
        proof {
            assert(self@.take(self@.len() as int) =~= self@);
        }
        let mut other_cols = other.cols;
        let ghost other_view = other_cols@.map_values(|p: (String, ScalarValue)| (p.0@, p.1@));
        kept.append(&mut other_cols);
        self.cols = kept;
        proof {
            assert(self@ =~= gv + other_view);
        }
        let r = self.clone();
        r
    }

    /// A copy of the record with every column name prefixed by
    /// `prefix` and a dot.
    pub fn prefix_keys(&self, prefix: String) -> (r: DBRecord)
        ensures
            r@ == rec_prefixed(self@, prefix@),
    {
        let mut cols: Vec<(String, ScalarValue)> = Vec::new();
        let mut i: usize = 0;
        while i < self.cols.len()
            invariant
                0 <= i <= self.cols.len(),
                self@.len() == self.cols.len(),
                cols@.len() == i,
                forall|j: int|
                    0 <= j < i ==> (#[trigger] cols@[j]).0@ == prefix@ + seq!['.'] + self@[j].0
                        && cols@[j].1@ == self@[j].1,
            decreases self.cols.len() - i,
        {
            let mut k = prefix.clone();
            k.append(".");
            k.append(self.cols[i].0.as_str());
            let v = self.cols[i].1.clone();
            proof {
                reveal_strlit(".");
                assert("."@ =~= seq!['.']);
            }
            cols.push((k, v));
            i = i + 1;
        }
        let r = DBRecord { cols };
        proof {
            assert(r@ =~= rec_prefixed(self@, prefix@));
        }
        r
    }

    /// The sub-record holding the named columns, in the order given,
    /// skipping names this record does not bind.
    pub fn pick(&self, keys: Vec<String>) -> (r: DBRecord)
        ensures
            r@ == rec_pick(self@, keys@.map_values(|k: String| k@)),
    {
        let ghost ks = keys@.map_values(|k: String| k@);
        let mut cols: Vec<(String, ScalarValue)> = Vec::new();
        let ghost mut gv: RecView = Seq::empty();
        let mut i: usize = 0;
        while i < keys.len()
            invariant
                0 <= i <= keys.len(),
                ks == keys@.map_values(|k: String| k@),
                ks.len() == keys@.len(),
                cols@.len() == gv.len(),
                forall|j: int|
                    0 <= j < cols@.len() ==> (#[trigger] cols@[j]).0@ == gv[j].0 && cols@[j].1@
                        == gv[j].1,
                gv == rec_pick(self@, ks.take(i as int)),
            decreases keys.len() - i,
        {
            proof {
                assert(ks.take(i + 1 as int).drop_last() =~= ks.take(i as int));
                assert(ks.take(i + 1 as int).last() == ks[i as int]);
                assert(ks[i as int] == keys@[i as int]@);
            }
            if self.contains_key(keys[i].as_str()) {
                proof {
                    lemma_lookup_present(self@, ks[i as int]);
                }
                let v = self.get(keys[i].as_str());
                let k = keys[i].clone();
                cols.push((k, v));
                proof {
                    gv = gv + seq![(ks[i as int], rec_lookup(self@, ks[i as int]).unwrap())];
                }
            } else {
                proof {
                    lemma_lookup_absent(self@, ks[i as int]);
                    assert(rec_pick(self@, ks.take(i + 1 as int)) =~= gv);
                }
            }
            i = i + 1;
        }
        proof {
            assert(ks.take(ks.len() as int) =~= ks);
        }
        let r = DBRecord { cols };
        proof {
            assert(r@ =~= rec_pick(self@, ks));
        }
        r
    }
}

/// Whether an output delta asserts or retracts a row.
#[derive(Debug, Clone, Copy)]
pub enum RecordType {
    Insert,
    Delete,
}

impl RecordType {
    /// The record type for a signed multiplicity.
    pub fn from_value(value: i64) -> (r: RecordType)
        requires
            value == 1 || value == -1,
        ensures
            value == 1 ==> r is Insert,
            value == -1 ==> r is Delete,
    {
        if value == 1 {
            RecordType::Insert
        } else {
            RecordType::Delete
        }
    }
}

/// Whether a scalar is rendered into SQL text (nulls are skipped).
pub open spec fn scalar_renderable(v: ScalarV) -> bool {
    !(v is Null)
}

/// The SQL text of a scalar value: numbers as decimal numerals, text in
/// single quotes, booleans as bare words.
pub open spec fn render_scalar(v: ScalarV) -> Seq<char> {
    match v {
        ScalarV::Null => Seq::<char>::empty(),
        ScalarV::Number(n) => crate::numeral::spec_idec(n),
        ScalarV::Text(s) => seq!['\''] + s + seq!['\''],
        ScalarV::Boolean(b) => if b {
            "true"@
        } else {
            "false"@
        },
    }
}

/// The renderable values of a record, in column order.
pub open spec fn rec_values(r: RecView) -> Seq<ScalarV>
    decreases r.len(),
{
    if r.len() == 0 {
        Seq::<ScalarV>::empty()
    } else if scalar_renderable(r.last().1) {
        rec_values(r.drop_last()).push(r.last().1)
    } else {
        rec_values(r.drop_last())
    }
}

/// The comma-separated fragment of rendered values, each preceded by a
/// space, as it appears inside an insert statement's parentheses.
pub open spec fn vals_frag(vs: Seq<ScalarV>) -> Seq<char>
    decreases vs.len(),
{
    if vs.len() == 0 {
        Seq::<char>::empty()
    } else if vs.len() == 1 {
        seq![' '] + render_scalar(vs.last())
    } else {
        vals_frag(vs.drop_last()) + seq![','] + seq![' '] + render_scalar(vs.last())
    }
}

/// The full insert statement for a record, or nothing when no value of the
/// record can be rendered.
pub open spec fn spec_insert_stmt(table: Seq<char>, r: RecView) -> Seq<char> {
    if rec_values(r).len() == 0 {
        Seq::<char>::empty()
    } else {
        "INSERT INTO "@ + table + " VALUES ("@ + vals_frag(rec_values(r)) + ");"@
    }
}

/// The conjunction of key equalities in a delete statement, joined by AND.
pub open spec fn keys_frag(ks: Seq<(Seq<char>, int)>) -> Seq<char>
    decreases ks.len(),
{
    if ks.len() == 0 {
        Seq::<char>::empty()
    } else if ks.len() == 1 {
        " \""@ + ks.last().0 + "\" = "@ + crate::numeral::spec_udec(ks.last().1 as nat)
    } else {
        keys_frag(ks.drop_last()) + " AND "@ + " \""@ + ks.last().0 + "\" = "@
            + crate::numeral::spec_udec(ks.last().1 as nat)
    }
}

/// The full delete statement identifying a row by its key columns.
pub open spec fn spec_delete_stmt(table: Seq<char>, ks: Seq<(Seq<char>, int)>) -> Seq<char> {
    "DELETE FROM "@ + table + " WHERE"@ + keys_frag(ks) + ";"@
}

/// The quoted column names of a record, in order.
pub open spec fn rec_quoted_cols(r: RecView) -> Seq<Seq<char>> {
    r.map_values(|p: (Seq<char>, ScalarV)| seq!['"'] + p.0 + seq!['"'])
}

/// The SQL type name that a scalar's shape implies.
pub open spec fn sql_type_of(v: ScalarV) -> Seq<char> {
    match v {
        ScalarV::Number(n) => "INT"@,
        ScalarV::Text(s) => "TEXT"@,
        ScalarV::Boolean(b) => "BOOLEAN"@,
        ScalarV::Null => Seq::<char>::empty(),
    }
}

/// The columns of a record whose type can be inferred, in order.
pub open spec fn rec_typed_cols(r: RecView) -> RecView
    decreases r.len(),
{
    if r.len() == 0 {
        Seq::<(Seq<char>, ScalarV)>::empty()
    } else if scalar_renderable(r.last().1) {
        rec_typed_cols(r.drop_last()).push(r.last())
    } else {
        rec_typed_cols(r.drop_last())
    }
}

/// The comma-separated column definitions of a schema fragment.
pub open spec fn cols_frag(ps: RecView) -> Seq<char>
    decreases ps.len(),
{
    if ps.len() == 0 {
        Seq::<char>::empty()
    } else if ps.len() == 1 {
        seq!['"'] + ps.last().0 + "\" "@ + sql_type_of(ps.last().1)
    } else {
        cols_frag(ps.drop_last()) + ", "@ + seq!['"'] + ps.last().0 + "\" "@ + sql_type_of(
            ps.last().1,
        )
    }
}

/// The parenthesized column list of a derived table schema.
pub open spec fn spec_schema_stmt(r: RecView) -> Seq<char> {
    "("@ + cols_frag(rec_typed_cols(r)) + " );"@
}

/// The SQL type name for one scalar value's shape.
fn sql_type_exec(v: &ScalarValue) -> (r: String)
    ensures
        r@ == sql_type_of(v@),
{
    match v {
        ScalarValue::Null => String::new(),
        ScalarValue::Number(n) => "INT".to_owned(),
        ScalarValue::Text(s) => "TEXT".to_owned(),
        ScalarValue::Boolean(b) => "BOOLEAN".to_owned(),
    }
}

/// Renders one scalar value as SQL text.
fn render_scalar_exec(v: &ScalarValue) -> (r: String)
    ensures
        r@ == render_scalar(v@),
{
    match v {
        ScalarValue::Null => String::new(),
        ScalarValue::Number(n) => crate::numeral::i64_to_dec(*n),
        ScalarValue::Text(s) => {
            proof {
                reveal_strlit("'");
            }
            let mut out = "'".to_owned();
            out.append(s.as_str());
            out.append("'");
            proof {
                assert(out@ =~= render_scalar(v@));
            }
            out
        },
        ScalarValue::Boolean(b) => {
            if *b {
                "true".to_owned()
            } else {
                "false".to_owned()
            }
        },
    }
}

impl DBRecord {
    /// Renders this record as an insert statement, or a delete statement
    /// identified by the given key columns.
    pub fn to_sql_values(
        &self,
        record_type: RecordType,
        table: String,
        keys: Option<Vec<(String, u64)>>,
    ) -> (r: String)
        requires
            record_type is Delete ==> keys is Some,
        ensures
            record_type is Insert ==> r@ == spec_insert_stmt(table@, self@),
            record_type is Delete ==> r@ == spec_delete_stmt(
                table@,
                keys.unwrap()@.map_values(|p: (String, u64)| (p.0@, p.1 as int)),
            ),
    {
        match record_type {
            RecordType::Insert => {
                // Collect the renderable values first, so that the comma
                // placement can treat them uniformly.
                let mut vals: Vec<ScalarValue> = Vec::new();
                let ghost mut gvals: Seq<ScalarV> = Seq::empty();
                let mut i: usize = 0;
                while i < self.cols.len()
                    invariant
                        0 <= i <= self.cols.len(),
                        self@.len() == self.cols.len(),
                        vals@.len() == gvals.len(),
                        forall|j: int| 0 <= j < vals@.len() ==> (#[trigger] vals@[j])@ == gvals[j],
                        gvals == rec_values(self@.take(i as int)),
                    decreases self.cols.len() - i,
                {
                    proof {
                        assert(self@.take(i + 1 as int).drop_last() =~= self@.take(i as int));
                        assert(self@.take(i + 1 as int).last() == self@[i as int]);
                    }
                    let renderable = match &self.cols[i].1 {
                        ScalarValue::Null => false,
                        _ => true,
                    };
                    if renderable {
                        let v = self.cols[i].1.clone();
                        vals.push(v);
                        proof {
                            gvals = gvals.push(self@[i as int].1);
                        }
                    }
                    i = i + 1;
                }
                proof {
                    assert(self@.take(self@.len() as int) =~= self@);
                }
                if vals.len() == 0 {
                    return String::new();
                }
                let mut out = "INSERT INTO ".to_owned();
                out.append(table.as_str());
                out.append(" VALUES (");
                let mut j: usize = 0;
                while j < vals.len()
                    invariant
                        0 < vals@.len() == gvals.len(),
                        0 <= j <= vals@.len(),
                        forall|k: int| 0 <= k < vals@.len() ==> (#[trigger] vals@[k])@ == gvals[k],
                        out@ == "INSERT INTO "@ + table@ + " VALUES ("@ + vals_frag(
                            gvals.take(j as int),
                        ),
                    decreases vals.len() - j,
                {
                    proof {
                        assert(gvals.take(j + 1 as int).drop_last() =~= gvals.take(j as int));
                        assert(gvals.take(j + 1 as int).last() == gvals[j as int]);
                    }
                    if j > 0 {
                        proof {
                            reveal_strlit(",");
                        }
                        out.append(",");
                        proof {
                            assert(","@ =~= seq![',']);
                        }
                    }
                    proof {
                        reveal_strlit(" ");
                    }
                    out.append(" ");
                    let piece = render_scalar_exec(&vals[j]);
                    out.append(piece.as_str());
                    proof {
                        assert(" "@ =~= seq![' ']);
                        assert(out@ =~= "INSERT INTO "@ + table@ + " VALUES ("@ + vals_frag(
                            gvals.take(j + 1 as int),
                        ));
                    }
                    j = j + 1;
                }
                proof {
                    assert(gvals.take(gvals.len() as int) =~= gvals);
                }
                out.append(");");
                out
            },
            RecordType::Delete => {
                let ks = match keys {
                    Some(ks) => ks,
                    None => Vec::new(),
                };
                let ghost gks: Seq<(Seq<char>, int)> = ks@.map_values(
                    |p: (String, u64)| (p.0@, p.1 as int),
                );
                let mut out = "DELETE FROM ".to_owned();
                out.append(table.as_str());
                out.append(" WHERE");
                let mut j: usize = 0;
                while j < ks.len()
                    invariant
                        gks == ks@.map_values(|p: (String, u64)| (p.0@, p.1 as int)),
                        gks.len() == ks@.len(),
                        0 <= j <= ks@.len(),
                        out@ == "DELETE FROM "@ + table@ + " WHERE"@ + keys_frag(
                            gks.take(j as int),
                        ),
                    decreases ks.len() - j,
                {
                    proof {
                        assert(gks.take(j + 1 as int).drop_last() =~= gks.take(j as int));
                        assert(gks.take(j + 1 as int).last() == gks[j as int]);
                    }
                    if j > 0 {
                        out.append(" AND ");
                    }
                    proof {
                        reveal_strlit(" \"");
                        reveal_strlit("\" = ");
                    }
                    out.append(" \"");
                    out.append(ks[j].0.as_str());
                    out.append("\" = ");
                    let num = crate::numeral::u64_to_dec(ks[j].1);
                    out.append(num.as_str());
                    proof {
                        assert(" \""@ =~= Seq::<char>::empty().push(' ').push('"'));
                        assert(out@ =~= "DELETE FROM "@ + table@ + " WHERE"@ + keys_frag(
                            gks.take(j + 1 as int),
                        ));
                    }
                    j = j + 1;
                }
                proof {
                    assert(gks.take(gks.len() as int) =~= gks);
                }
                out.append(";");
                out
            },
        }
    }

    /// The quoted column names of this record, in order.
    pub fn get_sql_columns(&self) -> (r: Vec<String>)
        ensures
            r@.map_values(|s: String| s@) == rec_quoted_cols(self@),
    {
        let mut out: Vec<String> = Vec::new();
        let mut i: usize = 0;
        while i < self.cols.len()
            invariant
                0 <= i <= self.cols.len(),
                self@.len() == self.cols.len(),
                out@.len() == i,
                forall|j: int|
                    0 <= j < i ==> (#[trigger] out@[j])@ == seq!['"'] + self@[j].0 + seq!['"'],
            decreases self.cols.len() - i,
        {
            proof {
                reveal_strlit("\"");
            }
            let mut k = "\"".to_owned();
            k.append(self.cols[i].0.as_str());
            k.append("\"");
            proof {
                assert("\""@ =~= seq!['"']);
            }
            out.push(k);
            i = i + 1;
        }
        proof {
            assert(out@.map_values(|s: String| s@) =~= rec_quoted_cols(self@));
        }
        out
    }

    /// Derives the parenthesized column list of a table schema from the
    /// shapes of this record's values, skipping columns whose type cannot
    /// be inferred.
    pub fn create_sql_schema(&self) -> (r: String)
        ensures
            r@ == spec_schema_stmt(self@),
    {
        let mut typed: Vec<(String, ScalarValue)> = Vec::new();
        let ghost mut gtyped: RecView = Seq::empty();
        let mut i: usize = 0;
        while i < self.cols.len()
            invariant
                0 <= i <= self.cols.len(),
                self@.len() == self.cols.len(),
                typed@.len() == gtyped.len(),
                forall|j: int|
                    0 <= j < typed@.len() ==> (#[trigger] typed@[j]).0@ == gtyped[j].0
                        && typed@[j].1@ == gtyped[j].1,
                gtyped == rec_typed_cols(self@.take(i as int)),
            decreases self.cols.len() - i,
        {
            proof {
                assert(self@.take(i + 1 as int).drop_last() =~= self@.take(i as int));
                assert(self@.take(i + 1 as int).last() == self@[i as int]);
            }
            let renderable = match &self.cols[i].1 {
                ScalarValue::Null => false,
                _ => true,
            };
            if renderable {
                let k = self.cols[i].0.clone();
                let v = self.cols[i].1.clone();
                typed.push((k, v));
                proof {
                    gtyped = gtyped.push(self@[i as int]);
                }
            }
            i = i + 1;
        }
        proof {
            assert(self@.take(self@.len() as int) =~= self@);
        }
        let mut out = "(".to_owned();
        let mut j: usize = 0;
        while j < typed.len()
            invariant
                typed@.len() == gtyped.len(),
                0 <= j <= typed@.len(),
                forall|k: int|
                    0 <= k < typed@.len() ==> (#[trigger] typed@[k]).0@ == gtyped[k].0
                        && typed@[k].1@ == gtyped[k].1,
                out@ == "("@ + cols_frag(gtyped.take(j as int)),
            decreases typed.len() - j,
        {
            proof {
                assert(gtyped.take(j + 1 as int).drop_last() =~= gtyped.take(j as int));
                assert(gtyped.take(j + 1 as int).last() == gtyped[j as int]);
            }
            if j > 0 {
                out.append(", ");
            }
            proof {
                reveal_strlit("\"");
            }
            out.append("\"");
            out.append(typed[j].0.as_str());
            out.append("\" ");
            let tname = sql_type_exec(&typed[j].1);
            out.append(tname.as_str());
            proof {
                assert("\""@ =~= seq!['"']);
                assert(out@ =~= "("@ + cols_frag(gtyped.take(j + 1 as int)));
            }
            j = j + 1;
        }
        proof {
            assert(gtyped.take(gtyped.len() as int) =~= gtyped);
        }
        out.append(" );");
        out
    }
}

impl Clone for DBRecord {
    /// Clones the record, keeping its view.
    fn clone(&self) -> (r: Self)
        ensures
            r@ == self@,
    {
        let mut cols: Vec<(String, ScalarValue)> = Vec::new();
        let mut i: usize = 0;
        while i < self.cols.len()
            invariant
                0 <= i <= self.cols.len(),
                cols@.len() == i,
                forall|j: int|
                    0 <= j < i ==> (#[trigger] cols@[j]).0@ == self.cols@[j].0@ && cols@[j].1@
                        == self.cols@[j].1@,
            decreases self.cols.len() - i,
        {
            let k = self.cols[i].0.clone();
            let v = self.cols[i].1.clone();
            cols.push((k, v));
            i = i + 1;
        }
        let r = DBRecord { cols };
        proof {
            assert(r@ =~= self@);
        }
        r
    }
}

} // verus!
