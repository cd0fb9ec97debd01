//! The incremental join engine.
//!
//! Both join sides feed signed deltas into the engine: the left side keyed
//! by its own primary key, the right side keyed by its foreign key
//! (defaulting to zero when absent). The engine maintains a state store per
//! side and an index from join key to the right-side rows carrying it. For
//! every delta it emits the output deltas of the affected join pairs, with
//! both rows' columns merged under table-prefixed names and the optional
//! filter applied. Deletions arrive as bare keys and are reconstructed
//! from the state store; a deletion of an untracked key is a counted
//! data-integrity fault, and a batch that would move the engine's clock
//! backwards is refused outright.

use std::collections::HashMap;
use vstd::prelude::*;

use crate::buffer::{sorted_by_time, BufferedItem, ItemV};
use crate::event::DataV;
use crate::filter::{eval_filter, spec_filter, CondV};
use crate::parser::WhereCondition;
use crate::record::{rec_minus_keys, rec_prefixed, DBRecord, RecView};
use crate::state::{EntryV, JoinStateStore};

verus! {

broadcast use vstd::std_specs::hash::group_hash_axioms;

/// One output delta of the join: the pre-join keys of both rows, the
/// merged record, the logical time, and the signed multiplicity.
#[derive(Debug)]
pub struct OutputDelta {
    pub left_key: u64,
    pub right_key: u64,
    pub record: DBRecord,
    pub time: u64,
    pub change: i64,
}

/// Mathematical view of an output delta.
#[verifier::ext_equal]
pub struct OutV {
    pub left_key: u64,
    pub right_key: u64,
    pub record: RecView,
    pub time: u64,
    pub change: int,
}

impl View for OutputDelta {
    type V = OutV;

    open spec fn view(&self) -> OutV {
        OutV {
            left_key: self.left_key,
            right_key: self.right_key,
            record: self.record@,
            time: self.time,
            change: self.change as int,
        }
    }
}

/// A batch handed to the engine began before the engine's clock. The
/// engine's differential state cannot be rolled back, so this is fatal.
#[derive(Debug, Clone, Copy, PartialEq, Eq, Structural)]
pub struct ClockRegressionFault {
    pub at: u64,
    pub clock: u64,
}

/// Mathematical state of the join engine.
#[verifier::ext_equal]
pub struct EngineV {
    pub left_table: Seq<char>,
    pub right_table: Seq<char>,
    pub condition: Option<CondV>,
    pub left: Map<u64, EntryV>,
    pub right: Map<u64, EntryV>,
    pub index: Map<u64, Seq<u64>>,
    pub clock: u64,
    pub faults: u64,
}

/// The join key a foreign key resolves to: absent keys join under zero.
pub open spec fn fk_key(f: Option<u64>) -> u64 {
    match f {
        Some(k) => k,
        None => 0,
    }
}

/// The right-side rows currently joining under the given key, in arrival
/// order.
pub open spec fn matches_of(m: EngineV, k: u64) -> Seq<u64> {
    if m.index.contains_key(k) {
        m.index[k]
    } else {
        Seq::<u64>::empty()
    }
}

/// The output record of one joined pair: both rows' columns, each name
/// prefixed by its table.
pub open spec fn merged_view(lt: Seq<char>, rt: Seq<char>, lrec: RecView, rrec: RecView) -> RecView {
    let pl = rec_prefixed(lrec, lt);
    let pr = rec_prefixed(rrec, rt);
    rec_minus_keys(pl, pr) + pr
}

/// Whether a merged record passes the engine's optional filter.
pub open spec fn passes_c(c: Option<CondV>, rec: RecView) -> bool {
    match c {
        None => true,
        Some(cv) => spec_filter(cv, rec),
    }
}

/// The output deltas of a left-side row against the given right-side
/// matches, in match order, keeping only pairs that pass the filter.
pub open spec fn emit_left(
    m: EngineV,
    k: u64,
    lrec: RecView,
    ms: Seq<u64>,
    time: u64,
    diff: int,
) -> Seq<OutV>
    decreases ms.len(),
{
    if ms.len() == 0 {
        Seq::<OutV>::empty()
    } else {
        let rest = emit_left(m, k, lrec, ms.drop_last(), time, diff);
        let p = ms.last();
        let merged = merged_view(m.left_table, m.right_table, lrec, m.right[p].record);
        if passes_c(m.condition, merged) {
            rest + seq![OutV { left_key: k, right_key: p, record: merged, time, change: diff }]
        } else {
            rest
        }
    }
}

/// The output deltas of a right-side row: at most the one pair with the
/// left row holding its join key.
pub open spec fn emit_right(m: EngineV, p: u64, k: u64, rrec: RecView, time: u64, diff: int) -> Seq<
    OutV,
> {
    if m.left.contains_key(k) {
        let merged = merged_view(m.left_table, m.right_table, m.left[k].record, rrec);
        if passes_c(m.condition, merged) {
            seq![OutV { left_key: k, right_key: p, record: merged, time, change: diff }]
        } else {
            Seq::<OutV>::empty()
        }
    } else {
        Seq::<OutV>::empty()
    }
}

/// A sequence with every occurrence of one value removed, order kept.
pub open spec fn seq_remove_val(s: Seq<u64>, p: u64) -> Seq<u64>
    decreases s.len(),
{
    if s.len() == 0 {
        Seq::<u64>::empty()
    } else if s.last() == p {
        seq_remove_val(s.drop_last(), p)
    } else {
        seq_remove_val(s.drop_last(), p).push(s.last())
    }
}

/// An index with one right-side row appended under a join key.
pub open spec fn index_insert(index: Map<u64, Seq<u64>>, k: u64, p: u64) -> Map<u64, Seq<u64>> {
    index.insert(
        k,
        (if index.contains_key(k) {
            index[k]
        } else {
            Seq::<u64>::empty()
        }).push(p),
    )
}

/// An index with one right-side row removed from under a join key.
pub open spec fn index_remove(index: Map<u64, Seq<u64>>, k: u64, p: u64) -> Map<u64, Seq<u64>> {
    if index.contains_key(k) {
        index.insert(k, seq_remove_val(index[k], p))
    } else {
        index
    }
}

/// A fault counter one higher, held at its ceiling.
pub open spec fn sat_inc(f: u64) -> u64 {
    if f < u64::MAX {
        (f + 1) as u64
    } else {
        f
    }
}

/// The engine's transition for a left-side delta.
///
/// An assertion stores the row and emits every matching pair; a
/// retraction reconstructs the stored row, removes it, and retracts every
/// matching pair. Retracting an untracked key is a counted fault and
/// emits nothing.
pub open spec fn apply_left(m: EngineV, d: DataV, time: u64, change: int) -> (EngineV, Seq<OutV>) {
    if change == 1 {
        let out = emit_left(m, d.key, d.record, matches_of(m, d.key), time, 1);
        (
            EngineV {
                left: m.left.insert(d.key, EntryV { foreign: d.foreign, record: d.record }),
                clock: time,
                ..m
            },
            out,
        )
    } else {
        if m.left.contains_key(d.key) {
            let out = emit_left(m, d.key, m.left[d.key].record, matches_of(m, d.key), time, -1);
            (EngineV { left: m.left.remove(d.key), clock: time, ..m }, out)
        } else {
            (EngineV { faults: sat_inc(m.faults), clock: time, ..m }, Seq::<OutV>::empty())
        }
    }
}

/// The engine's transition for a right-side delta, keyed by the row's
/// foreign key; a retraction resolves the key from the stored row, since
/// the delta itself arrives bare.
pub open spec fn apply_right(m: EngineV, d: DataV, time: u64, change: int) -> (EngineV, Seq<OutV>) {
    if change == 1 {
        let k = fk_key(d.foreign);
        let out = emit_right(m, d.key, k, d.record, time, 1);
        let index1 = if m.right.contains_key(d.key) {
            index_remove(m.index, fk_key(m.right[d.key].foreign), d.key)
        } else {
            m.index
        };
        (
            EngineV {
                right: m.right.insert(d.key, EntryV { foreign: d.foreign, record: d.record }),
                index: index_insert(index1, k, d.key),
                clock: time,
                ..m
            },
            out,
        )
    } else {
        if m.right.contains_key(d.key) {
            let k = fk_key(m.right[d.key].foreign);
            let out = emit_right(m, d.key, k, m.right[d.key].record, time, -1);
            (
                EngineV {
                    right: m.right.remove(d.key),
                    index: index_remove(m.index, k, d.key),
                    clock: time,
                    ..m
                },
                out,
            )
        } else {
            (EngineV { faults: sat_inc(m.faults), clock: time, ..m }, Seq::<OutV>::empty())
        }
    }
}

/// The engine's transition for one buffered delta: the item's table picks
/// the side, and an item of an unknown table only advances the clock.
pub open spec fn apply_item(m: EngineV, it: ItemV) -> (EngineV, Seq<OutV>) {
    if it.table == m.left_table {
        apply_left(m, it.data, it.time, it.change)
    } else if it.table == m.right_table {
        apply_right(m, it.data, it.time, it.change)
    } else {
        (EngineV { clock: it.time, ..m }, Seq::<OutV>::empty())
    }
}

/// The engine's transition for a whole batch, outputs concatenated in
/// batch order.
pub open spec fn run_items(m: EngineV, items: Seq<ItemV>) -> (EngineV, Seq<OutV>)
    decreases items.len(),
{
    if items.len() == 0 {
        (m, Seq::<OutV>::empty())
    } else {
        let r1 = run_items(m, items.drop_last());
        let r2 = apply_item(r1.0, items.last());
        (r2.0, r1.1 + r2.1)
    }
}

/// Whether a sequence of keys has no repeats.
pub open spec fn nodup_u64(s: Seq<u64>) -> bool {
    forall|i: int, j: int| 0 <= i < j < s.len() ==> s[i] != s[j]
}

/// The engine's internal consistency: every index entry points at a stored
/// right-side row carrying that join key, no row appears twice under one
/// key, and every stored right-side row appears under its join key.
pub open spec fn inv(m: EngineV) -> bool {
    &&& forall|k: u64, i: int|
        m.index.contains_key(k) && 0 <= i < m.index[k].len() ==> m.right.contains_key(
            #[trigger] m.index[k][i],
        ) && fk_key(m.right[m.index[k][i]].foreign) == k
    &&& forall|k: u64| #[trigger] m.index.contains_key(k) ==> nodup_u64(m.index[k])
    &&& forall|p: u64| #[trigger]
        m.right.contains_key(p) ==> m.index.contains_key(fk_key(m.right[p].foreign))
            && m.index[fk_key(m.right[p].foreign)].contains(p)
}

/// What removal keeps: everything but the removed value, in order, with
/// no repeats introduced.
proof fn lemma_seq_remove_val(s: Seq<u64>, p: u64)
    ensures
        forall|i: int|
            0 <= i < seq_remove_val(s, p).len() ==> (#[trigger] seq_remove_val(s, p)[i]) != p
                && s.contains(seq_remove_val(s, p)[i]),
        forall|q: u64| q != p ==> (seq_remove_val(s, p).contains(q) <==> s.contains(q)),
        nodup_u64(s) ==> nodup_u64(seq_remove_val(s, p)),
    decreases s.len(),
{
    if s.len() > 0 {
        lemma_seq_remove_val(s.drop_last(), p);
        let rest = seq_remove_val(s.drop_last(), p);
        assert forall|i: int|
            0 <= i < seq_remove_val(s, p).len() implies (#[trigger] seq_remove_val(s, p)[i]) != p
            && s.contains(seq_remove_val(s, p)[i]) by {
            if i < rest.len() {
                assert(rest[i] != p && s.drop_last().contains(rest[i]));
                let w = choose|w: int|
                    0 <= w < s.drop_last().len() && s.drop_last()[w] == rest[i];
                assert(s[w] == rest[i]);
            } else {
                assert(seq_remove_val(s, p)[i] == s.last());
                assert(s[s.len() - 1] == s.last());
            }
        }
        assert forall|q: u64| q != p implies (seq_remove_val(s, p).contains(q) <==> s.contains(
            q,
        )) by {
            if s.contains(q) {
                let w = choose|w: int| 0 <= w < s.len() && s[w] == q;
                if w < s.len() - 1 {
                    assert(s.drop_last()[w] == q);
                    assert(s.drop_last().contains(q));
                    assert(rest.contains(q));
                    if s.last() != p {
                        let v = choose|v: int| 0 <= v < rest.len() && rest[v] == q;
                        assert(seq_remove_val(s, p)[v] == q);
                    } else {
                        assert(seq_remove_val(s, p) == rest);
                    }
                } else {
                    assert(s.last() == q && q != p);
                    assert(seq_remove_val(s, p).last() == q);
                }
            }
            if seq_remove_val(s, p).contains(q) {
                let w = choose|w: int|
                    0 <= w < seq_remove_val(s, p).len() && seq_remove_val(s, p)[w] == q;
            }
        }
        if nodup_u64(s) {
            assert(nodup_u64(s.drop_last())) by {
                assert forall|i: int, j: int|
                    0 <= i < j < s.drop_last().len() implies s.drop_last()[i] != s.drop_last()[j] by {
                    assert(s[i] == s.drop_last()[i] && s[j] == s.drop_last()[j]);
                }
            }
            if s.last() != p {
                assert forall|i: int, j: int|
                    0 <= i < j < seq_remove_val(s, p).len() implies seq_remove_val(s, p)[i] != seq_remove_val(s, p)[j] by {
                    if j == seq_remove_val(s, p).len() - 1 {
                        assert(seq_remove_val(s, p)[j] == s.last());
                        assert(s.drop_last().contains(rest[i]));
                        let w = choose|w: int|
                            0 <= w < s.drop_last().len() && s.drop_last()[w] == rest[i];
                        assert(s[w] == rest[i] && s[s.len() - 1] == s.last());
                    }
                }
            }
        }
    }
}

/// A left-side transition leaves the right state and index untouched, so
/// the engine's consistency is kept; right-side transitions rebuild the
/// index entry for the affected key and keep it too.
proof fn lemma_apply_preserves_inv(m: EngineV, it: ItemV)
    requires
        inv(m),
    ensures
        inv(apply_item(m, it).0),
{
    let m2 = apply_item(m, it).0;
    if it.table == m.left_table {
        assert(m2.right == m.right && m2.index == m.index);
    } else if it.table == m.right_table {
        let d = it.data;
        if it.change == 1 {
            let k = fk_key(d.foreign);
            let p = d.key;
            let index1 = if m.right.contains_key(p) {
                index_remove(m.index, fk_key(m.right[p].foreign), p)
            } else {
                m.index
            };
            if m.right.contains_key(p) {
                lemma_seq_remove_val(m.index[fk_key(m.right[p].foreign)], p);
            }
            // After the removal, the row is listed nowhere.
            assert forall|k0: u64, i: int|
                index1.contains_key(k0) && 0 <= i < index1[k0].len() implies m.right.contains_key(
                #[trigger] index1[k0][i],
            ) && fk_key(m.right[index1[k0][i]].foreign) == k0 && index1[k0][i] != p by {
                if m.right.contains_key(p) {
                    let ok = fk_key(m.right[p].foreign);
                    if k0 == ok {
                        assert(index1[k0] == seq_remove_val(m.index[ok], p));
                        assert(m.index.contains_key(ok));
                        assert(m.index[ok].contains(index1[k0][i]));
                        let w = choose|w: int|
                            0 <= w < m.index[ok].len() && m.index[ok][w] == index1[k0][i];
                    } else {
                        assert(index1[k0] == m.index[k0]);
                        assert(fk_key(m.right[index1[k0][i]].foreign) == k0);
                    }
                } else {
                    assert(index1[k0] == m.index[k0]);
                    if index1[k0][i] == p {
                        assert(m.right.contains_key(p));
                    }
                }
            }
            assert forall|k0: u64| #[trigger] index1.contains_key(k0) implies nodup_u64(
                index1[k0],
            ) by {
                if m.right.contains_key(p) && k0 == fk_key(m.right[p].foreign) {
                } else {
                    assert(index1[k0] == m.index[k0]);
                }
            }
            let base = if index1.contains_key(k) {
                index1[k]
            } else {
                Seq::<u64>::empty()
            };
            assert(m2.index == index1.insert(k, base.push(p)));
            assert(m2.right == m.right.insert(p, EntryV { foreign: d.foreign, record: d.record }));
            assert forall|k0: u64, i: int|
                m2.index.contains_key(k0) && 0 <= i < m2.index[k0].len() implies
                m2.right.contains_key(#[trigger] m2.index[k0][i]) && fk_key(
                m2.right[m2.index[k0][i]].foreign,
            ) == k0 by {
                if k0 == k {
                    if i < base.len() {
                        assert(m2.index[k0][i] == base[i]);
                        assert(base[i] != p);
                    } else {
                        assert(m2.index[k0][i] == p);
                    }
                } else {
                    assert(m2.index[k0] == index1[k0]);
                    assert(index1[k0][i] != p);
                }
            }
            assert forall|k0: u64| #[trigger] m2.index.contains_key(k0) implies nodup_u64(
                m2.index[k0],
            ) by {
                if k0 == k {
                    assert forall|a: int, b: int|
                        0 <= a < b < m2.index[k0].len() implies m2.index[k0][a] != m2.index[k0][b] by {
                        if b == m2.index[k0].len() - 1 {
                            assert(m2.index[k0][b] == p);
                            assert(m2.index[k0][a] == base[a] && base[a] != p);
                        } else {
                            assert(m2.index[k0][a] == base[a] && m2.index[k0][b] == base[b]);
                        }
                    }
                } else {
                    assert(m2.index[k0] == index1[k0]);
                }
            }
            assert forall|q: u64| #[trigger] m2.right.contains_key(q) implies
                m2.index.contains_key(fk_key(m2.right[q].foreign)) && m2.index[fk_key(
                m2.right[q].foreign,
            )].contains(q) by {
                if q == p {
                    assert(m2.index[k].last() == p);
                } else {
                    assert(m.right.contains_key(q));
                    let kq = fk_key(m.right[q].foreign);
                    assert(m.index[kq].contains(q));
                    if m.right.contains_key(p) && kq == fk_key(m.right[p].foreign) {
                        lemma_seq_remove_val(m.index[kq], p);
                        assert(index1[kq].contains(q));
                        if kq == k {
                            let w = choose|w: int|
                                0 <= w < index1[kq].len() && index1[kq][w] == q;
                            assert(m2.index[k][w] == q);
                        } else {
                            assert(m2.index[kq] == index1[kq]);
                        }
                    } else {
                        assert(index1.contains_key(kq) && index1[kq] == m.index[kq]);
                        if kq == k {
                            let w = choose|w: int| 0 <= w < base.len() && base[w] == q;
                            assert(m2.index[k][w] == q);
                        } else {
                            assert(m2.index[kq] == m.index[kq]);
                        }
                    }
                }
            }
        } else {
            let p = d.key;
            if m.right.contains_key(p) {
                let k = fk_key(m.right[p].foreign);
                lemma_seq_remove_val(m.index[k], p);
                assert(m2.right == m.right.remove(p));
                assert(m2.index == index_remove(m.index, k, p));
                assert forall|k0: u64, i: int|
                    m2.index.contains_key(k0) && 0 <= i < m2.index[k0].len() implies
                    m2.right.contains_key(#[trigger] m2.index[k0][i]) && fk_key(
                    m2.right[m2.index[k0][i]].foreign,
                ) == k0 by {
                    if k0 == k {
                        assert(m2.index[k0] == seq_remove_val(m.index[k], p));
                        assert(m.index[k].contains(m2.index[k0][i]));
                        let w = choose|w: int|
                            0 <= w < m.index[k].len() && m.index[k][w] == m2.index[k0][i];
                        assert(m2.index[k0][i] != p);
                    } else {
                        assert(m2.index[k0] == m.index[k0]);
                        if m2.index[k0][i] == p {
                            assert(fk_key(m.right[p].foreign) == k0);
                        }
                    }
                }
                assert forall|k0: u64| #[trigger] m2.index.contains_key(k0) implies nodup_u64(
                    m2.index[k0],
                ) by {
                    if k0 != k {
                        assert(m2.index[k0] == m.index[k0]);
                    }
                }
                assert forall|q: u64| #[trigger] m2.right.contains_key(q) implies
                    m2.index.contains_key(fk_key(m2.right[q].foreign)) && m2.index[fk_key(
                    m2.right[q].foreign,
                )].contains(q) by {
                    assert(q != p && m.right.contains_key(q));
                    let kq = fk_key(m.right[q].foreign);
                    assert(m.index[kq].contains(q));
                    if kq == k {
                        assert(seq_remove_val(m.index[k], p).contains(q));
                    } else {
                        assert(m2.index[kq] == m.index[kq]);
                    }
                }
            } else {
                assert(m2.right == m.right && m2.index == m.index);
            }
        }
    } else {
        assert(m2.right == m.right && m2.index == m.index);
    }
}


/// Copies a vector of keys.
fn clone_u64_vec(v: &Vec<u64>) -> (r: Vec<u64>)
    ensures
        r@ == v@,
{
    let mut r: Vec<u64> = Vec::new();
    let mut i: usize = 0;
    while i < v.len()
        invariant
            0 <= i <= v@.len(),
            r@ == v@.take(i as int),
        decreases v@.len() - i,
    {
        r.push(v[i]);
        proof {
            assert(r@ =~= v@.take(i + 1 as int));
        }
        i = i + 1;
    }
    proof {
        assert(v@.take(v@.len() as int) =~= v@);
    }
    r
}

/// The incremental join engine: both sides' state stores, the index of
/// right-side rows by join key, the dataflow clock, and the fault count.
#[derive(Debug)]
pub struct JoinEngine {
    left_table: String,
    right_table: String,
    condition: Option<WhereCondition>,
    left: JoinStateStore,
    right: JoinStateStore,
    right_index: HashMap<u64, Vec<u64>>,
    clock: u64,
    integrity_faults: u64,
}

impl View for JoinEngine {
    type V = EngineV;

    closed spec fn view(&self) -> EngineV {
        EngineV {
            left_table: self.left_table@,
            right_table: self.right_table@,
            condition: match self.condition {
                Some(c) => Some(c@),
                None => None,
            },
            left: self.left@,
            right: self.right@,
            index: Map::new(
                |k: u64| self.right_index@.contains_key(k),
                |k: u64| self.right_index@[k]@,
            ),
            clock: self.clock,
            faults: self.integrity_faults,
        }
    }
}

impl JoinEngine {
    /// A fresh engine for a join of the two named tables under an optional
    /// filter: empty state, clock at zero, no faults.
    pub fn new(left_table: String, right_table: String, condition: Option<WhereCondition>) -> (r:
        Self)
        ensures
            r@.left_table == left_table@,
            r@.right_table == right_table@,
            r@.condition == (match condition {
                Some(c) => Some(c@),
                None => None::<CondV>,
            }),
            r@.left == Map::<u64, EntryV>::empty(),
            r@.right == Map::<u64, EntryV>::empty(),
            r@.index == Map::<u64, Seq<u64>>::empty(),
            r@.clock == 0,
            r@.faults == 0,
            inv(r@),
    {
        let r = JoinEngine {
            left_table,
            right_table,
            condition,
            left: JoinStateStore::new(),
            right: JoinStateStore::new(),
            right_index: HashMap::new(),
            clock: 0,
            integrity_faults: 0,
        };
        proof {
            assert(r@.index =~= Map::<u64, Seq<u64>>::empty());
        }
        r
    }

    /// The engine's dataflow clock.
    pub fn clock(&self) -> (r: u64)
        ensures
            r == self@.clock,
    {
        self.clock
    }

    /// How many data-integrity faults the engine has counted.
    pub fn integrity_faults(&self) -> (r: u64)
        ensures
            r == self@.faults,
    {
        self.integrity_faults
    }

    /// Emits the output deltas of one left-side row against every
    /// currently matching right-side row.
    fn emit_left_exec(&self, k: u64, lrec: &DBRecord, time: u64, change: i64) -> (r: Vec<
        OutputDelta,
    >)
        requires
            inv(self@),
        ensures
            r@.map_values(|d: OutputDelta| d@) == emit_left(
                self@,
                k,
                lrec@,
                matches_of(self@, k),
                time,
                change as int,
            ),
    {
        let list: Vec<u64> = match self.right_index.get(&k) {
            Some(l) => clone_u64_vec(l),
            None => Vec::new(),
        };
        proof {
            assert(list@ =~= matches_of(self@, k));
        }
        let ghost ms = matches_of(self@, k);
        let mut out: Vec<OutputDelta> = Vec::new();
        let ghost mut gout: Seq<OutV> = Seq::empty();
        let mut i: usize = 0;
        while i < list.len()
            invariant
                0 <= i <= list@.len(),
                inv(self@),
                ms == matches_of(self@, k),
                list@ == ms,
                out@.len() == gout.len(),
                forall|j: int| 0 <= j < out@.len() ==> (#[trigger] out@[j])@ == gout[j],
                gout == emit_left(self@, k, lrec@, ms.take(i as int), time, change as int),
            decreases list@.len() - i,
        {
            proof {
                assert(ms.take(i + 1 as int).drop_last() =~= ms.take(i as int));
                assert(ms.take(i + 1 as int).last() == ms[i as int]);
                assert(self@.index.contains_key(k) && self@.index[k][i as int] == ms[i as int]);
            }
            let p = list[i];
            match self.right.get(p) {
                Some(entry) => {
                    let pl = lrec.prefix_keys(self.left_table.clone());
                    let pr = entry.record.prefix_keys(self.right_table.clone());
                    let mut plm = pl;
                    let merged = plm.merge(pr);
                    let keep = match &self.condition {
                        None => true,
                        Some(c) => eval_filter(c, &merged),
                    };
                    proof {
                        assert(merged@ == merged_view(
                            self@.left_table,
                            self@.right_table,
                            lrec@,
                            self@.right[p].record,
                        ));
                        assert(keep == passes_c(self@.condition, merged@));
                    }
                    if keep {
                        let ghost ov = OutV {
                            left_key: k,
                            right_key: p,
                            record: merged@,
                            time,
                            change: change as int,
                        };
                        out.push(
                            OutputDelta { left_key: k, right_key: p, record: merged, time, change },
                        );
                        proof {
                            gout = gout + seq![ov];
                        }
                    }
                },
                None => {
                    proof {
                        assert(false);
                    }
                },
            }
            i = i + 1;
        }
        proof {
            assert(ms.take(ms.len() as int) =~= ms);
        }
        out
    }

    /// Emits the output delta of one right-side row against the left row
    /// holding its join key, when there is one.
    fn emit_right_exec(&self, p: u64, k: u64, rrec: &DBRecord, time: u64, change: i64) -> (r: Vec<
        OutputDelta,
    >)
        ensures
            r@.map_values(|d: OutputDelta| d@) == emit_right(
                self@,
                p,
                k,
                rrec@,
                time,
                change as int,
            ),
    {
        let mut out: Vec<OutputDelta> = Vec::new();
        match self.left.get(k) {
            Some(entry) => {
                let pl = entry.record.prefix_keys(self.left_table.clone());
                let pr = rrec.prefix_keys(self.right_table.clone());
                let mut plm = pl;
                let merged = plm.merge(pr);
                let keep = match &self.condition {
                    None => true,
                    Some(c) => eval_filter(c, &merged),
                };
                proof {
                    assert(merged@ == merged_view(
                        self@.left_table,
                        self@.right_table,
                        self@.left[k].record,
                        rrec@,
                    ));
                    assert(keep == passes_c(self@.condition, merged@));
                }
                if keep {
                    let ghost ov = OutV {
                        left_key: k,
                        right_key: p,
                        record: merged@,
                        time,
                        change: change as int,
                    };
                    out.push(
                        OutputDelta { left_key: k, right_key: p, record: merged, time, change },
                    );
                    proof {
                        assert(out@.map_values(|d: OutputDelta| d@) =~= seq![ov]);
                    }
                } else {
                    proof {
                        assert(out@.map_values(|d: OutputDelta| d@) =~= Seq::<OutV>::empty());
                    }
                }
            },
            None => {
                proof {
                    assert(out@.map_values(|d: OutputDelta| d@) =~= Seq::<OutV>::empty());
                }
            },
        }
        out
    }

    /// Removes one right-side row from under a join key in the index.
    fn index_remove_exec(&mut self, k: u64, p: u64)
        ensures
            final(self)@ =~~= (EngineV { index: index_remove(old(self)@.index, k, p), ..old(
                self,
            )@ }),
    {
        let list: Option<Vec<u64>> = match self.right_index.get(&k) {
            Some(l) => Some(clone_u64_vec(l)),
            None => None,
        };
        match list {
            Some(l) => {
                let ghost lv = l@;
                let mut kept: Vec<u64> = Vec::new();
                let mut i: usize = 0;
                while i < l.len()
                    invariant
                        0 <= i <= l@.len(),
                        lv == l@,
                        kept@ == seq_remove_val(lv.take(i as int), p),
                    decreases l@.len() - i,
                {
                    proof {
                        assert(lv.take(i + 1 as int).drop_last() =~= lv.take(i as int));
                        assert(lv.take(i + 1 as int).last() == lv[i as int]);
                    }
                    if l[i] != p {
                        kept.push(l[i]);
                    }
                    i = i + 1;
                }
                proof {
                    assert(lv.take(lv.len() as int) =~= lv);
                }
                self.right_index.insert(k, kept);
                proof {
                    assert(final(self)@.index =~= index_remove(old(self)@.index, k, p));
                    assert(final(self)@ =~~= (EngineV {
                        index: index_remove(old(self)@.index, k, p),
                        ..old(self)@
                    }));
                }
            },
            None => {
                proof {
                    assert(final(self)@.index =~= index_remove(old(self)@.index, k, p));
                    assert(final(self)@ =~~= (EngineV {
                        index: index_remove(old(self)@.index, k, p),
                        ..old(self)@
                    }));
                }
            },
        }
    }

    /// Appends one right-side row under a join key in the index.
    fn index_push_exec(&mut self, k: u64, p: u64)
        ensures
            final(self)@ =~~= (EngineV { index: index_insert(old(self)@.index, k, p), ..old(
                self,
            )@ }),
    {
        let mut list: Vec<u64> = match self.right_index.get(&k) {
            Some(l) => clone_u64_vec(l),
            None => Vec::new(),
        };
        list.push(p);
        self.right_index.insert(k, list);
        proof {
            assert(final(self)@.index =~= index_insert(old(self)@.index, k, p));
            assert(final(self)@ =~~= (EngineV {
                index: index_insert(old(self)@.index, k, p),
                ..old(self)@
            }));
        }
    }

    /// Counts one data-integrity fault, holding the counter at its ceiling.
    fn count_fault(&mut self)
        ensures
            final(self)@ =~~= (EngineV { faults: sat_inc(old(self)@.faults), ..old(self)@ }),
    {
        if self.integrity_faults < u64::MAX {
            self.integrity_faults = self.integrity_faults + 1;
        }
    }

    /// Applies one buffered delta and returns the output deltas it causes.
    ///
    /// The item's table picks the join side. An assertion stores the row
    /// and emits each newly matched pair; a retraction reconstructs the
    /// stored row, removes it and retracts each matched pair; retracting
    /// an untracked key counts a data-integrity fault, emits nothing and
    /// leaves the state unchanged. The clock advances to the item's time.
    pub fn apply_delta(&mut self, item: &BufferedItem) -> (r: Vec<OutputDelta>)
        requires
            inv(old(self)@),
            item.change == 1 || item.change == -1,
        ensures
            inv(final(self)@),
            final(self)@ == apply_item(old(self)@, item@).0,
            r@.map_values(|d: OutputDelta| d@) == apply_item(old(self)@, item@).1,
    {
        proof {
            lemma_apply_preserves_inv(old(self)@, item@);
        }
        let ghost m0 = self@;
        let is_left = crate::text::str_eq(item.table.as_str(), self.left_table.as_str());
        let is_right = !is_left && crate::text::str_eq(
            item.table.as_str(),
            self.right_table.as_str(),
        );
        if is_left {
            if item.change == 1 {
                let outs = self.emit_left_exec(item.data.0, &item.data.1.1, item.time, 1);
                self.left.put(item.data.0, item.data.1.0, item.data.1.1.clone());
                self.clock = item.time;
                proof {
                    assert(final(self)@ =~~= apply_item(m0, item@).0);
                }
                outs
            } else {
                match self.left.get(item.data.0) {
                    Some(entry) => {
                        let outs = self.emit_left_exec(item.data.0, &entry.record, item.time, -1);
                        match self.left.take(item.data.0) {
                            Ok(taken) => {},
                            Err(f) => {
                                proof {
                                    assert(false);
                                }
                            },
                        }
                        self.clock = item.time;
                        proof {
                            assert(final(self)@ =~~= apply_item(m0, item@).0);
                        }
                        outs
                    },
                    None => {
                        self.count_fault();
                        self.clock = item.time;
                        let outs: Vec<OutputDelta> = Vec::new();
                        proof {
                            assert(final(self)@ =~~= apply_item(m0, item@).0);
                            assert(outs@.map_values(|d: OutputDelta| d@) =~= Seq::<OutV>::empty());
                        }
                        outs
                    },
                }
            }
        } else if is_right {
            if item.change == 1 {
                let p = item.data.0;
                let k = match item.data.1.0 {
                    Some(f) => f,
                    None => 0,
                };
                let outs = self.emit_right_exec(p, k, &item.data.1.1, item.time, 1);
                match self.right.get(p) {
                    Some(old_entry) => {
                        let old_k = match old_entry.foreign {
                            Some(f) => f,
                            None => 0,
                        };
                        self.index_remove_exec(old_k, p);
                    },
                    None => {},
                }
                self.index_push_exec(k, p);
                self.right.put(p, item.data.1.0, item.data.1.1.clone());
                self.clock = item.time;
                proof {
                    assert(final(self)@ =~~= apply_item(m0, item@).0);
                }
                outs
            } else {
                let p = item.data.0;
                match self.right.get(p) {
                    Some(entry) => {
                        let k = match entry.foreign {
                            Some(f) => f,
                            None => 0,
                        };
                        let outs = self.emit_right_exec(p, k, &entry.record, item.time, -1);
                        match self.right.take(p) {
                            Ok(taken) => {},
                            Err(f) => {
                                proof {
                                    assert(false);
                                }
                            },
                        }
                        self.index_remove_exec(k, p);
                        self.clock = item.time;
                        proof {
                            assert(final(self)@ =~~= apply_item(m0, item@).0);
                        }
                        outs
                    },
                    None => {
                        self.count_fault();
                        self.clock = item.time;
                        let outs: Vec<OutputDelta> = Vec::new();
                        proof {
                            assert(final(self)@ =~~= apply_item(m0, item@).0);
                            assert(outs@.map_values(|d: OutputDelta| d@) =~= Seq::<OutV>::empty());
                        }
                        outs
                    },
                }
            }
        } else {
            self.clock = item.time;
            let outs: Vec<OutputDelta> = Vec::new();
            proof {
                assert(final(self)@ =~~= apply_item(m0, item@).0);
                assert(outs@.map_values(|d: OutputDelta| d@) =~= Seq::<OutV>::empty());
            }
            outs
        }
    }

    /// Processes one released batch in order and returns every output
    /// delta it causes, or refuses the batch outright when it begins
    /// before the engine's clock: differential state cannot un-advance.
    pub fn step(&mut self, batch: &Vec<BufferedItem>) -> (r: Result<
        Vec<OutputDelta>,
        ClockRegressionFault,
    >)
        requires
            inv(old(self)@),
            sorted_by_time(batch@.map_values(|it: BufferedItem| it@)),
            forall|i: int|
                0 <= i < batch@.len() ==> (#[trigger] batch@[i]).change == 1 || batch@[i].change
                    == -1,
        ensures
            inv(final(self)@),
            batch@.len() > 0 && batch@[0].time < old(self)@.clock ==> r == Result::<
                Vec<OutputDelta>,
                ClockRegressionFault,
            >::Err(ClockRegressionFault { at: batch@[0].time, clock: old(self)@.clock })
                && final(self)@ == old(self)@,
            !(batch@.len() > 0 && batch@[0].time < old(self)@.clock) ==> r is Ok && final(self)@
                == run_items(old(self)@, batch@.map_values(|it: BufferedItem| it@)).0
                && r.unwrap()@.map_values(|d: OutputDelta| d@) == run_items(
                old(self)@,
                batch@.map_values(|it: BufferedItem| it@),
            ).1,
    {
        let ghost m0 = self@;
        let ghost items = batch@.map_values(|it: BufferedItem| it@);
        if batch.len() > 0 && batch[0].time < self.clock {
            return Err(ClockRegressionFault { at: batch[0].time, clock: self.clock });
        }
        let mut out: Vec<OutputDelta> = Vec::new();
        let ghost mut gout: Seq<OutV> = Seq::empty();
        let mut i: usize = 0;
        while i < batch.len()
            invariant
                0 <= i <= batch@.len(),
                items == batch@.map_values(|it: BufferedItem| it@),
                items.len() == batch@.len(),
                forall|j: int|
                    0 <= j < batch@.len() ==> (#[trigger] batch@[j]).change == 1
                        || batch@[j].change == -1,
                inv(self@),
                self@ == run_items(m0, items.take(i as int)).0,
                gout == run_items(m0, items.take(i as int)).1,
                out@.len() == gout.len(),
                forall|j: int| 0 <= j < out@.len() ==> (#[trigger] out@[j])@ == gout[j],
            decreases batch@.len() - i,
        {
            proof {
                assert(items.take(i + 1 as int).drop_last() =~= items.take(i as int));
                assert(items.take(i + 1 as int).last() == items[i as int]);
                assert(items[i as int] == batch@[i as int]@);
            }
            let mut ds = self.apply_delta(&batch[i]);
            proof {
                gout = gout + ds@.map_values(|d: OutputDelta| d@);
            }
            out.append(&mut ds);
            i = i + 1;
        }
        proof {
            assert(items.take(items.len() as int) =~= items);
        }
        Ok(out)
    }

    /// Advances the engine's clock to the given time, as the heartbeat
    /// does when the buffer is empty but the watermark has moved on; a
    /// time behind the clock is refused.
    pub fn advance_to(&mut self, time: u64) -> (r: Result<(), ClockRegressionFault>)
        ensures
            time < old(self)@.clock ==> r == Result::<(), ClockRegressionFault>::Err(
                ClockRegressionFault { at: time, clock: old(self)@.clock },
            ) && final(self)@ == old(self)@,
            time >= old(self)@.clock ==> r is Ok && final(self)@ =~~= (EngineV {
                clock: time,
                ..old(self)@
            }),
    {
        if time < self.clock {
            return Err(ClockRegressionFault { at: time, clock: self.clock });
        }
        self.clock = time;
        Ok(())
    }
}


/// Every delta that a left-side emission produces carries the emitting
/// row's key, the given time and the given multiplicity.
pub proof fn lemma_emit_shape(m: EngineV, k: u64, lrec: RecView, ms: Seq<u64>, time: u64, diff: int)
    ensures
        forall|i: int|
            0 <= i < emit_left(m, k, lrec, ms, time, diff).len() ==> (#[trigger] emit_left(
                m,
                k,
                lrec,
                ms,
                time,
                diff,
            )[i]).left_key == k && emit_left(m, k, lrec, ms, time, diff)[i].time == time
                && emit_left(m, k, lrec, ms, time, diff)[i].change == diff,
    decreases ms.len(),
{
    if ms.len() > 0 {
        lemma_emit_shape(m, k, lrec, ms.drop_last(), time, diff);
        let out = emit_left(m, k, lrec, ms, time, diff);
        let rest = emit_left(m, k, lrec, ms.drop_last(), time, diff);
        assert forall|i: int| 0 <= i < out.len() implies (#[trigger] out[i]).left_key == k
            && out[i].time == time && out[i].change == diff by {
            if i < rest.len() {
                assert(out[i] == rest[i]);
            }
        }
    }
}

/// Without a filter, every match is emitted.
pub proof fn lemma_emit_all_pass(
    m: EngineV,
    k: u64,
    lrec: RecView,
    ms: Seq<u64>,
    time: u64,
    diff: int,
)
    requires
        m.condition is None,
    ensures
        emit_left(m, k, lrec, ms, time, diff).len() == ms.len(),
    decreases ms.len(),
{
    if ms.len() > 0 {
        lemma_emit_all_pass(m, k, lrec, ms.drop_last(), time, diff);
    }
}

/// Two emissions of the same row over the same matches, from states that
/// agree on the right side, the table names and the filter, produce the
/// same pairs and records; only time and multiplicity differ.
pub proof fn lemma_emit_congruent(
    ma: EngineV,
    mb: EngineV,
    k: u64,
    lrec: RecView,
    ms: Seq<u64>,
    ta: u64,
    tb: u64,
    da: int,
    db: int,
)
    requires
        ma.right == mb.right,
        ma.left_table == mb.left_table,
        ma.right_table == mb.right_table,
        ma.condition == mb.condition,
    ensures
        ({
            let oa = emit_left(ma, k, lrec, ms, ta, da);
            let ob = emit_left(mb, k, lrec, ms, tb, db);
            &&& oa.len() == ob.len()
            &&& forall|i: int|
                0 <= i < oa.len() ==> (#[trigger] oa[i]).left_key == ob[i].left_key
                    && oa[i].right_key == ob[i].right_key && oa[i].record == ob[i].record
                    && oa[i].time == ta && ob[i].time == tb && oa[i].change == da && ob[i].change
                    == db
        }),
    decreases ms.len(),
{
    if ms.len() > 0 {
        lemma_emit_congruent(ma, mb, k, lrec, ms.drop_last(), ta, tb, da, db);
    }
}

/// Multiplicity conservation: applying an assertion of a left-side row
/// and then a retraction of the same key leaves the key absent from the
/// left state, and the retraction emits exactly the pairs the assertion
/// emitted, with the multiplicity negated.
pub proof fn lemma_multiplicity_conservation(m: EngineV, ins: ItemV, del: ItemV)
    requires
        inv(m),
        ins.table == m.left_table,
        del.table == m.left_table,
        ins.change == 1,
        del.change == -1,
        del.data.key == ins.data.key,
    ensures
        ({
            let r1 = apply_item(m, ins);
            let r2 = apply_item(r1.0, del);
            &&& !r2.0.left.contains_key(ins.data.key)
            &&& r1.1.len() == r2.1.len()
            &&& forall|i: int|
                0 <= i < r1.1.len() ==> (#[trigger] r1.1[i]).change == 1 && r2.1[i].change == -1
                    && r2.1[i].left_key == r1.1[i].left_key && r2.1[i].right_key
                    == r1.1[i].right_key && r2.1[i].record == r1.1[i].record && r1.1[i].time
                    == ins.time && r2.1[i].time == del.time
        }),
{
    let k = ins.data.key;
    let r1 = apply_item(m, ins);
    let m1 = r1.0;
    assert(m1.left == m.left.insert(k, EntryV { foreign: ins.data.foreign, record: ins.data.record }));
    assert(m1.left[k].record == ins.data.record);
    assert(matches_of(m1, k) == matches_of(m, k));
    let r2 = apply_item(m1, del);
    assert(r2.0.left == m1.left.remove(k));
    lemma_emit_congruent(
        m,
        m1,
        k,
        ins.data.record,
        matches_of(m, k),
        ins.time,
        del.time,
        1,
        -1,
    );
}

/// Update atomicity: a retraction and an assertion of the same key at one
/// logical time leave the new row bound, and both halves emit over the
/// same matches at that same time, the retractions carrying the old row
/// and the assertions the new one: the view never sees a time at which
/// the old row is gone without the new row's fate being settled.
pub proof fn lemma_update_atomicity(m: EngineV, dn: ItemV, up: ItemV)
    requires
        inv(m),
        dn.table == m.left_table,
        up.table == m.left_table,
        dn.change == -1,
        up.change == 1,
        up.data.key == dn.data.key,
        up.time == dn.time,
        m.left.contains_key(dn.data.key),
    ensures
        ({
            let k = dn.data.key;
            let r1 = apply_item(m, dn);
            let r2 = apply_item(r1.0, up);
            &&& r2.0.left.contains_key(k)
            &&& r2.0.left[k].record == up.data.record
            &&& r1.1 == emit_left(m, k, m.left[k].record, matches_of(m, k), dn.time, -1)
            &&& r2.1.len() == emit_left(
                m,
                k,
                up.data.record,
                matches_of(m, k),
                up.time,
                1,
            ).len()
            &&& forall|i: int|
                0 <= i < r2.1.len() ==> (#[trigger] r2.1[i]) == emit_left(
                    m,
                    k,
                    up.data.record,
                    matches_of(m, k),
                    up.time,
                    1,
                )[i]
            &&& forall|i: int|
                0 <= i < r1.1.len() ==> (#[trigger] r1.1[i]).change == -1 && r1.1[i].time
                    == dn.time
            &&& forall|i: int|
                0 <= i < r2.1.len() ==> (#[trigger] r2.1[i]).change == 1 && r2.1[i].time
                    == up.time
            &&& (m.condition is None ==> r1.1.len() == matches_of(m, k).len() && r2.1.len()
                == matches_of(m, k).len())
        }),
{
    let k = dn.data.key;
    let r1 = apply_item(m, dn);
    let m1 = r1.0;
    assert(m1.left == m.left.remove(k));
    assert(matches_of(m1, k) == matches_of(m, k));
    let r2 = apply_item(m1, up);
    lemma_emit_congruent(
        m1,
        m,
        k,
        up.data.record,
        matches_of(m, k),
        up.time,
        up.time,
        1,
        1,
    );
    lemma_emit_shape(m, k, m.left[k].record, matches_of(m, k), dn.time, -1);
    lemma_emit_shape(m1, k, up.data.record, matches_of(m, k), up.time, 1);
    assert forall|i: int| 0 <= i < r2.1.len() implies (#[trigger] r2.1[i]) == emit_left(
        m,
        k,
        up.data.record,
        matches_of(m, k),
        up.time,
        1,
    )[i] by {
        let oa = emit_left(m1, k, up.data.record, matches_of(m, k), up.time, 1);
        let ob = emit_left(m, k, up.data.record, matches_of(m, k), up.time, 1);
        assert(oa[i].left_key == ob[i].left_key && oa[i].right_key == ob[i].right_key && oa[i].record
            == ob[i].record && oa[i].time == up.time && ob[i].time == up.time && oa[i].change == 1
            && ob[i].change == 1);
        assert(oa[i] =~= ob[i]);
    }
    if m.condition is None {
        lemma_emit_all_pass(m, k, m.left[k].record, matches_of(m, k), dn.time, -1);
        lemma_emit_all_pass(m1, k, up.data.record, matches_of(m, k), up.time, 1);
    }
}

/// Delete reconstruction: retracting a left-side key that was never
/// inserted is counted as a data-integrity fault and emits nothing, the
/// state otherwise unchanged; retracting a tracked key removes it and
/// retracts its stored row against every match.
pub proof fn lemma_delete_reconstruction(m: EngineV, del: ItemV)
    requires
        inv(m),
        del.table == m.left_table,
        del.change == -1,
    ensures
        ({
            let k = del.data.key;
            let r = apply_item(m, del);
            &&& !m.left.contains_key(k) ==> r.0 =~~= (EngineV {
                faults: sat_inc(m.faults),
                clock: del.time,
                ..m
            }) && r.1 == Seq::<OutV>::empty()
            &&& m.left.contains_key(k) ==> r.0.left == m.left.remove(k) && r.1 == emit_left(
                m,
                k,
                m.left[k].record,
                matches_of(m, k),
                del.time,
                -1,
            ) && (forall|i: int| 0 <= i < r.1.len() ==> (#[trigger] r.1[i]).change == -1)
        }),
{
    let k = del.data.key;
    lemma_emit_shape(m, k, m.left[k].record, matches_of(m, k), del.time, -1);
}

} // verus!
