//! Filter evaluation over merged output records: a single comparison of a
//! column against a literal. A filter that references an absent column
//! matches nothing; it never fails.

use vstd::prelude::*;

use crate::numeral::{i64_to_dec, is_numeral, parse_i64, spec_idec, spec_numeral_val};
use crate::parser::{spec_property_name, WhereCondition};
use crate::record::{
    lemma_lookup_absent, lemma_lookup_present, rec_lookup, DBRecord, RecView,
};
use crate::scalar::{ScalarV, ScalarValue};
use crate::text::str_eq;

verus! {

/// Mathematical view of a filter condition.
#[verifier::ext_equal]
pub struct CondV {
    pub table: Seq<char>,
    pub row: Seq<char>,
    pub op: Seq<char>,
    pub right: Seq<char>,
}

impl View for WhereCondition {
    type V = CondV;

    open spec fn view(&self) -> CondV {
        CondV { table: self.left.table@, row: self.left.row@, op: self.op@, right: self.right@ }
    }
}

/// Whether a scalar's raw textual representation equals a literal.
pub open spec fn scalar_eq_lit(v: ScalarV, lit: Seq<char>) -> bool {
    match v {
        ScalarV::Null => false,
        ScalarV::Number(n) => spec_idec(n) == lit,
        ScalarV::Text(s) => s == lit,
        ScalarV::Boolean(b) => (if b {
            "true"@
        } else {
            "false"@
        }) == lit,
    }
}

/// Whether a scalar stands in the given numeric order to a literal: only a
/// numeric scalar compared against a well-formed numeral can match.
pub open spec fn scalar_ord_lit(v: ScalarV, lit: Seq<char>, lt: bool, eq: bool) -> bool {
    match v {
        ScalarV::Number(n) => {
            if is_numeral(lit) && i64::MIN <= spec_numeral_val(lit) <= i64::MAX {
                let m = spec_numeral_val(lit);
                (lt && n < m) || (!lt && n > m) || (eq && n == m)
            } else {
                false
            }
        },
        _ => false,
    }
}

/// Whether a record passes a filter condition.
///
/// The condition's column is resolved in the record; an absent column
/// matches nothing. Equality and inequality compare the raw textual
/// representation; the ordering operators compare numerically.
pub open spec fn spec_filter(c: CondV, rec: RecView) -> bool {
    let key = spec_property_name(c.table, c.row);
    match rec_lookup(rec, key) {
        None => false,
        Some(v) => {
            if c.op == "="@ {
                scalar_eq_lit(v, c.right)
            } else if c.op == "!="@ {
                !scalar_eq_lit(v, c.right)
            } else if c.op == ">"@ {
                scalar_ord_lit(v, c.right, false, false)
            } else if c.op == "<"@ {
                scalar_ord_lit(v, c.right, true, false)
            } else if c.op == ">="@ {
                scalar_ord_lit(v, c.right, false, true)
            } else if c.op == "<="@ {
                scalar_ord_lit(v, c.right, true, true)
            } else {
                false
            }
        },
    }
}

/// Compares a scalar's raw textual representation against a literal.
fn scalar_eq_lit_exec(v: &ScalarValue, lit: &str) -> (r: bool)
    ensures
        r == scalar_eq_lit(v@, lit@),
{
    match v {
        ScalarValue::Null => false,
        ScalarValue::Number(n) => {
            let rendered = i64_to_dec(*n);
            str_eq(rendered.as_str(), lit)
        },
        ScalarValue::Text(s) => str_eq(s.as_str(), lit),
        ScalarValue::Boolean(b) => {
            if *b {
                str_eq("true", lit)
            } else {
                str_eq("false", lit)
            }
        },
    }
}

/// Compares a scalar numerically against a literal.
fn scalar_ord_lit_exec(v: &ScalarValue, lit: &str, lt: bool, eq: bool) -> (r: bool)
    ensures
        r == scalar_ord_lit(v@, lit@, lt, eq),
{
    match v {
        ScalarValue::Number(n) => {
            match parse_i64(lit) {
                Some(m) => (lt && *n < m) || (!lt && *n > m) || (eq && *n == m),
                None => false,
            }
        },
        _ => false,
    }
}

/// Evaluates a filter condition on a record.
pub fn eval_filter(cond: &WhereCondition, rec: &DBRecord) -> (r: bool)
    ensures
        r == spec_filter(cond@, rec@),
{
    let key = cond.left.to_string();
    if !rec.contains_key(key.as_str()) {
        proof {
            lemma_lookup_absent(rec@, key@);
        }
        return false;
    }
    proof {
        lemma_lookup_present(rec@, key@);
    }
    let v = rec.get(key.as_str());
    if str_eq(cond.op.as_str(), "=") {
        scalar_eq_lit_exec(&v, cond.right.as_str())
    } else if str_eq(cond.op.as_str(), "!=") {
        !scalar_eq_lit_exec(&v, cond.right.as_str())
    } else if str_eq(cond.op.as_str(), ">") {
        scalar_ord_lit_exec(&v, cond.right.as_str(), false, false)
    } else if str_eq(cond.op.as_str(), "<") {
        scalar_ord_lit_exec(&v, cond.right.as_str(), true, false)
    } else if str_eq(cond.op.as_str(), ">=") {
        scalar_ord_lit_exec(&v, cond.right.as_str(), false, true)
    } else if str_eq(cond.op.as_str(), "<=") {
        scalar_ord_lit_exec(&v, cond.right.as_str(), true, true)
    } else {
        false
    }
}

} // verus!
