//! The reorder buffer: deltas from all subscribed tables accumulate here in
//! arrival order, are kept sorted by logical time, and are released in
//! time-ordered batches under a size and delay policy. A released batch
//! never ends in the interior of a group of items that share one time, so
//! a partially buffered transaction is never split.

use vstd::prelude::*;

use crate::event::{DataflowData, DataV};

verus! {

/// One buffered delta: its table, element, logical time and multiplicity.
#[derive(Debug)]
pub struct BufferedItem {
    pub table: String,
    pub data: DataflowData,
    pub time: u64,
    pub change: i64,
}

/// Mathematical view of a buffered delta.
#[verifier::ext_equal]
pub struct ItemV {
    pub table: Seq<char>,
    pub data: DataV,
    pub time: u64,
    pub change: int,
}

impl View for BufferedItem {
    type V = ItemV;

    open spec fn view(&self) -> ItemV {
        ItemV { table: self.table@, data: self.data@, time: self.time, change: self.change as int }
    }
}

impl Clone for BufferedItem {
    /// Clones the item, keeping its view.
    fn clone(&self) -> (r: Self)
        ensures
            r@ == self@,
    {
        let r = BufferedItem {
            table: self.table.clone(),
            data: self.data.clone(),
            time: self.time,
            change: self.change,
        };
        proof {
            assert(r@ == self@);
        }
        r
    }
}

/// Whether a sequence of items is ordered by logical time.
pub open spec fn sorted_by_time(s: Seq<ItemV>) -> bool {
    forall|i: int, j: int| 0 <= i < j < s.len() ==> (#[trigger] s[i]).time <= (#[trigger] s[j]).time
}

/// Where a new item of the given time belongs: directly after the last
/// item whose time does not exceed it, so arrival order is kept among
/// items of equal time.
pub open spec fn insert_pos(s: Seq<ItemV>, t: u64) -> int
    decreases s.len(),
{
    if s.len() == 0 {
        0
    } else if s.last().time <= t {
        s.len() as int
    } else {
        insert_pos(s.drop_last(), t)
    }
}

/// Everything at or after the insertion position is strictly later than
/// the inserted time.
proof fn lemma_insert_pos(s: Seq<ItemV>, t: u64)
    ensures
        0 <= insert_pos(s, t) <= s.len(),
        forall|j: int| insert_pos(s, t) <= j < s.len() ==> (#[trigger] s[j]).time > t,
    decreases s.len(),
{
    if s.len() > 0 && s.last().time > t {
        lemma_insert_pos(s.drop_last(), t);
        assert forall|j: int| insert_pos(s, t) <= j < s.len() implies (#[trigger] s[j]).time
            > t by {
            if j < s.len() - 1 {
                assert(s.drop_last()[j] == s[j]);
            }
        }
    }
}

/// The boundary at which a released batch ends: the least count of at
/// least one item that either exhausts the buffer or reaches the size cap
/// at a change of time value.
pub open spec fn cut_from(s: Seq<ItemV>, size: int, c: int) -> int
    decreases s.len() - c,
{
    if c >= s.len() {
        s.len() as int
    } else if c >= size && s[c].time != s[c - 1].time {
        c
    } else {
        cut_from(s, size, c + 1)
    }
}

/// The cut lies between the given start and the end of the buffer.
proof fn lemma_cut_from_bounds(s: Seq<ItemV>, size: int, c: int)
    requires
        1 <= c <= s.len(),
    ensures
        c <= cut_from(s, size, c) <= s.len(),
        cut_from(s, size, c) == s.len() || (cut_from(s, size, c) >= size && s[cut_from(
            s,
            size,
            c,
        )].time != s[cut_from(s, size, c) - 1].time),
    decreases s.len() - c,
{
    if c < s.len() && !(c >= size && s[c].time != s[c - 1].time) {
        lemma_cut_from_bounds(s, size, c + 1);
    }
}

/// The reorder buffer: items kept sorted by logical time, a watermark of
/// the highest released time, and the release policy's size cap and delay.
#[derive(Debug)]
pub struct Buffer {
    data: Vec<BufferedItem>,
    watermark: u64,
    /// The batch size after which a release is due.
    size: u16,
    /// The release delay in milliseconds; the caller measures it.
    delay: u32,
}

impl Buffer {
    /// The buffered items, in time order.
    pub closed spec fn items(&self) -> Seq<ItemV> {
        self.data@.map_values(|it: BufferedItem| it@)
    }

    /// The buffer's invariant: its items are ordered by logical time.
    pub closed spec fn wf(&self) -> bool {
        sorted_by_time(self.items())
    }

    /// The watermark: the highest logical time confirmed released.
    pub closed spec fn spec_watermark(&self) -> u64 {
        self.watermark
    }

    /// The size cap of the release policy.
    pub closed spec fn spec_size(&self) -> u16 {
        self.size
    }

    /// The configured release delay in milliseconds.
    pub closed spec fn spec_delay(&self) -> u32 {
        self.delay
    }

    /// An empty buffer under the given release policy.
    pub fn new(size: u16, delay: u32) -> (r: Self)
        ensures
            r.items() == Seq::<ItemV>::empty(),
            r.wf(),
            r.spec_watermark() == 0,
            r.spec_size() == size,
            r.spec_delay() == delay,
    {
        let r = Buffer { data: Vec::new(), watermark: 0, size, delay };
        proof {
            assert(r.items() =~= Seq::<ItemV>::empty());
        }
        r
    }

    /// How many items are buffered.
    pub fn len(&self) -> (r: usize)
        ensures
            r == self.items().len(),
    {
        self.data.len()
    }

    /// Whether the buffer is empty.
    pub fn is_empty(&self) -> (r: bool)
        ensures
            r == (self.items().len() == 0),
    {
        self.data.len() == 0
    }

    /// Queues one delta, placing it after every item of its time or
    /// earlier, so the buffer stays sorted and arrival order is kept
    /// among equal times.
    pub fn insert(&mut self, table: String, data: DataflowData, time: u64, change: i64)
        requires
            old(self).wf(),
        ensures
            final(self).wf(),
            final(self).items() == old(self).items().insert(
                insert_pos(old(self).items(), time),
                ItemV { table: table@, data: data@, time, change: change as int },
            ),
            final(self).spec_watermark() == old(self).spec_watermark(),
            final(self).spec_size() == old(self).spec_size(),
            final(self).spec_delay() == old(self).spec_delay(),
    {
        let ghost prior = self.items();
        let item = BufferedItem { table, data, time, change };
        let ghost iv = item@;
        proof {
            assert(prior.take(prior.len() as int) =~= prior);
        }
        let mut j: usize = self.data.len();
        while j > 0 && self.data[j - 1].time > time
            invariant
                0 <= j <= self.data.len(),
                self.items().len() == self.data@.len(),
                self.items() == prior,
                insert_pos(prior, time) == insert_pos(prior.take(j as int), time),
            decreases j,
        {
            proof {
                assert(prior.take(j as int).last() == prior[j - 1]);
                assert(prior.take(j as int).drop_last() =~= prior.take(j - 1 as int));
                assert(prior[j - 1].time == self.data@[j - 1].time);
            }
            j = j - 1;
        }
        proof {
            if j > 0 {
                assert(prior.take(j as int).last() == prior[j - 1]);
                assert(prior[j - 1].time == self.data@[j - 1].time);
                assert(insert_pos(prior.take(j as int), time) == j);
            } else {
                assert(prior.take(0) =~= Seq::<ItemV>::empty());
            }
        }
        self.data.insert(j, item);
        proof {
            assert(self.items() =~= prior.insert(j as int, iv));
            lemma_insert_pos(prior, time);
            assert forall|a: int, b: int| 0 <= a < b < self.items().len() implies (
            #[trigger] self.items()[a]).time <= (#[trigger] self.items()[b]).time by {
                let s = self.items();
                let p = j as int;
                if a < p && b < p {
                    assert(s[a] == prior[a] && s[b] == prior[b]);
                } else if a < p && b == p {
                    assert(s[a] == prior[a]);
                    if p > 0 {
                        assert(prior[a].time <= prior[p - 1].time);
                    }
                } else if a < p && b > p {
                    assert(s[a] == prior[a] && s[b] == prior[b - 1]);
                } else if a == p && b > p {
                    assert(s[b] == prior[b - 1] && prior[b - 1].time > time);
                } else {
                    assert(s[a] == prior[a - 1] && s[b] == prior[b - 1]);
                }
            }
        }
    }

    /// The watermark: the highest logical time confirmed released.
    pub fn get_watermark(&self) -> (r: u64)
        ensures
            r == self.spec_watermark(),
    {
        self.watermark
    }

    /// Records the highest logical time of a released batch.
    pub fn update_watermark(&mut self, time: u64)
        ensures
            final(self).spec_watermark() == time,
            final(self).items() == old(self).items(),
            final(self).wf() == old(self).wf(),
            final(self).spec_size() == old(self).spec_size(),
            final(self).spec_delay() == old(self).spec_delay(),
    {
        self.watermark = time;
    }

    /// Whether a release is due: the buffer holds something, and either
    /// twice the size cap is queued or the delay has elapsed.
    fn should_pop(&self, delay_elapsed: bool) -> (r: bool)
        ensures
            r == (self.items().len() > 0 && (self.items().len() >= 2 * (
            self.spec_size() as int) || delay_elapsed)),
    {
        if self.data.len() == 0 {
            return false;
        }
        if self.data.len() >= 2 * (self.size as usize) {
            return true;
        }
        delay_elapsed
    }

    /// Releases the next time-ordered batch, when one is due.
    ///
    /// The batch is the shortest prefix that reaches the size cap and ends
    /// at a change of time value, or the whole buffer if it runs out
    /// first: a group of items sharing one time is never split.
    pub fn pop(&mut self, delay_elapsed: bool) -> (r: Option<Vec<BufferedItem>>)
        requires
            old(self).wf(),
        ensures
            final(self).wf(),
            final(self).spec_watermark() == old(self).spec_watermark(),
            final(self).spec_size() == old(self).spec_size(),
            final(self).spec_delay() == old(self).spec_delay(),
            !(old(self).items().len() > 0 && (old(self).items().len() >= 2 * (old(
                self,
            ).spec_size() as int) || delay_elapsed)) ==> r is None && final(self).items() == old(
                self,
            ).items(),
            (old(self).items().len() > 0 && (old(self).items().len() >= 2 * (old(
                self,
            ).spec_size() as int) || delay_elapsed)) ==> {
                let cut = cut_from(old(self).items(), old(self).spec_size() as int, 1);
                &&& r is Some
                &&& r.unwrap()@.map_values(|it: BufferedItem| it@) == old(self).items().take(cut)
                &&& final(self).items() == old(self).items().skip(cut)
                &&& sorted_by_time(r.unwrap()@.map_values(|it: BufferedItem| it@))
                &&& 1 <= cut <= old(self).items().len()
                &&& (cut == old(self).items().len() || (cut >= old(self).spec_size() as int && old(
                    self,
                ).items()[cut].time != old(self).items()[cut - 1].time))
            },
    {
        if !self.should_pop(delay_elapsed) {
            return None;
        }
        let ghost prior = self.items();
        let ghost size_i = self.size as int;
        let mut c: usize = 1;
        while c < self.data.len() && !(c >= self.size as usize && self.data[c].time != self.data[c
            - 1].time)
            invariant
                1 <= c <= self.data@.len(),
                self.items().len() == self.data@.len(),
                self.items() == prior,
                prior.len() > 0,
                size_i == self.size as int,
                cut_from(prior, size_i, 1) == cut_from(prior, size_i, c as int),
            decreases self.data@.len() - c,
        {
            proof {
                assert(prior[c as int].time == self.data@[c as int].time);
                assert(prior[c - 1].time == self.data@[c - 1].time);
            }
            c = c + 1;
        }
        proof {
            if c < self.data@.len() {
                assert(prior[c as int].time == self.data@[c as int].time);
                assert(prior[c - 1].time == self.data@[c - 1].time);
            }
            assert(cut_from(prior, size_i, c as int) == c);
            lemma_cut_from_bounds(prior, size_i, 1);
        }
        let mut rest = self.data.split_off(c);
        core::mem::swap(&mut self.data, &mut rest);
        let batch = rest;
        proof {
            assert(batch@.map_values(|it: BufferedItem| it@) =~= prior.take(c as int));
            assert(self.items() =~= prior.skip(c as int));
            assert(sorted_by_time(prior.take(c as int)));
            assert(sorted_by_time(self.items()));
        }
        Some(batch)
    }
}

} // verus!
