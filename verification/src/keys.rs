//! Key derivation: every row is addressed by a 64-bit key, either a numeric
//! value passed through or a deterministic hash of its textual form, and the
//! same derivation is used everywhere a key is needed so that keys never
//! disagree between the normalizer and the join state.

use vstd::prelude::*;

use crate::scalar::{ScalarV, ScalarValue};

verus! {

/// Offset basis of the 64-bit FNV-1a hash.
pub const FNV_OFFSET: u64 = 0xcbf29ce484222325;

/// Prime multiplier of the 64-bit FNV-1a hash.
pub const FNV_PRIME: u64 = 0x100000001b3;

/// One FNV-1a step: fold a character into the running hash.
pub open spec fn fnv1a_step(h: u64, c: char) -> u64 {
    (((h ^ (c as u64)) as nat * FNV_PRIME as nat) % 0x1_0000_0000_0000_0000nat) as u64
}

/// The 64-bit FNV-1a hash of a character sequence.
pub open spec fn fnv1a(s: Seq<char>) -> u64
    decreases s.len(),
{
    if s.len() == 0 {
        FNV_OFFSET
    } else {
        fnv1a_step(fnv1a(s.drop_last()), s.last())
    }
}

/// The key a scalar resolves to: numbers pass through when non-negative,
/// text is hashed, and anything else has no key.
pub open spec fn spec_key_of(v: ScalarV) -> Option<u64> {
    match v {
        ScalarV::Number(n) => if 0 <= n {
            Some(n as u64)
        } else {
            None
        },
        ScalarV::Text(s) => Some(fnv1a(s)),
        _ => None,
    }
}

/// Computes the 64-bit FNV-1a hash of a string.
pub fn fnv1a_hash(s: &str) -> (h: u64)
    ensures
        h == fnv1a(s@),
{
    let n = s.unicode_len();
    let mut h: u64 = FNV_OFFSET;
    let mut i: usize = 0;
    while i < n
        invariant
            0 <= i <= n,
            n == s@.len(),
            h == fnv1a(s@.take(i as int)),
        decreases n - i,
    {
        let c = s.get_char(i);
        h = (h ^ (c as u64)).wrapping_mul(FNV_PRIME);
        proof {
            assert(s@.take(i + 1 as int).drop_last() =~= s@.take(i as int));
            assert(s@.take(i + 1 as int).last() == s@[i as int]);
        }
        i = i + 1;
    }
    proof {
        assert(s@.take(n as int) =~= s@);
    }
    h
}

/// Resolves a scalar to its 64-bit key, or nothing when the scalar's shape
/// carries no key.
pub fn key_to_u64(value: &ScalarValue) -> (r: Option<u64>)
    ensures
        r == spec_key_of(value@),
{
    match value {
        ScalarValue::Number(n) => {
            if *n >= 0 {
                Some(*n as u64)
            } else {
                None
            }
        },
        ScalarValue::Text(s) => Some(fnv1a_hash(s.as_str())),
        _ => None,
    }
}

/// The primary key of a row together with its foreign key, when the row's
/// table is the foreign side of the join.
#[derive(Debug, Clone, Copy, PartialEq, Eq, Structural)]
pub struct Keys {
    pub primary: u64,
    pub foreign: Option<u64>,
}

impl Keys {
    /// Exchanges the primary and foreign keys.
    pub fn swap(self) -> (r: Self)
        requires
            self.foreign is Some,
        ensures
            r.primary == self.foreign.unwrap(),
            r.foreign == Some(self.primary),
    {
        let mut clone = self;
        let temp = clone.primary;
        clone.primary = match clone.foreign {
            Some(f) => f,
            None => 0,
        };
        clone.foreign = Some(temp);
        clone
    }
}

/// The role a column plays in its table's key structure.
#[derive(Debug)]
pub enum KeyType {
    PrimaryKey,
    ForeignKey { foreign_table: String, foreign_column: String },
}

/// One column of a table's key metadata, as schema introspection reports it.
#[derive(Debug)]
pub struct Key {
    pub column_name: String,
    pub key_type: KeyType,
}

} // verus!
