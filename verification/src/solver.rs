//! The entity store and the composite solver.
//!
//! The store is the ordered sequence of parsed entities; its order matters
//! for display and removal only. The solver computes each entity's area and
//! centroid, weighs the first moments with `+1` for solid material and `-1`
//! for a gap, and sums. The composite centroid is the exact ratio
//! `(x_moment / area, y_moment / area)`; the caller divides when it
//! displays, so a zero total area surfaces as a degenerate centroid there
//! rather than being trapped here. Overlapping shapes are not detected; the
//! sums are exact for disjoint ones.

use crate::geometry::{Entity, PiLin, Point};
use vstd::prelude::*;

verus! {

/// A removal index at or past the store's length.
#[derive(Clone, Copy, Debug, PartialEq, Eq, Structural)]
pub struct IndexError {}

/// One solver row: an entity's area, its centroid, and its first moments
/// `centroid.x * area` and `centroid.y * area`.
#[derive(Clone, Copy, Debug, PartialEq, Eq, Structural)]
pub struct Row {
    pub area: PiLin,
    pub centroid: Point,
    pub x_moment: PiLin,
    pub y_moment: PiLin,
}

impl Row {
    pub open spec fn wf(self) -> bool {
        self.area.wf() && self.centroid.wf() && self.x_moment.wf() && self.y_moment.wf()
    }
}

/// The three signed sums over the whole store.
#[derive(Clone, Copy, Debug, PartialEq, Eq, Structural)]
pub struct Totals {
    pub area: PiLin,
    pub x_moment: PiLin,
    pub y_moment: PiLin,
}

impl Totals {
    pub open spec fn wf(self) -> bool {
        self.area.wf() && self.x_moment.wf() && self.y_moment.wf()
    }

    pub open spec fn spec_zero() -> Totals {
        Totals {
            area: PiLin::spec_zero(),
            x_moment: PiLin::spec_zero(),
            y_moment: PiLin::spec_zero(),
        }
    }
}

/// The solver's result: one row per entity, in store order, and the signed
/// sums. The composite centroid is the ratio of the moment sums to the area
/// sum.
#[derive(Debug)]
pub struct Report {
    pub rows: Vec<Row>,
    pub totals: Totals,
}

impl Report {
    /// The composite centroid as exact ratios, `x = x_moment / area` and
    /// `y = y_moment / area`. The division happens where the value is
    /// displayed, so a zero total area surfaces there as a degenerate
    /// non-finite centroid.
    pub fn centroid_ratios(&self) -> (r: ((PiLin, PiLin), (PiLin, PiLin)))
        ensures
            r == (
                (self.totals.x_moment, self.totals.area),
                (self.totals.y_moment, self.totals.area),
            ),
    {
        ((self.totals.x_moment, self.totals.area), (self.totals.y_moment, self.totals.area))
    }
}

/// The row the solver computes for one entity; `None` reports a value
/// outside the exact model.
pub open spec fn spec_row(e: Entity) -> Option<Row> {
    match e.spec_area() {
        None => None,
        Some(a) => match e.spec_centroid() {
            None => None,
            Some(c) => match a.spec_scale(c.x) {
                None => None,
                Some(xm) => match a.spec_scale(c.y) {
                    None => None,
                    Some(ym) => Some(Row { area: a, centroid: c, x_moment: xm, y_moment: ym }),
                },
            },
        },
    }
}

/// Fold one entity into the sums: a solid adds its row, a gap subtracts it.
pub open spec fn spec_accumulate(t: Totals, e: Entity) -> Option<Totals> {
    match spec_row(e) {
        None => None,
        Some(row) => if e.is_gap {
            match t.area.spec_sub(row.area) {
                None => None,
                Some(a) => match t.x_moment.spec_sub(row.x_moment) {
                    None => None,
                    Some(x) => match t.y_moment.spec_sub(row.y_moment) {
                        None => None,
                        Some(y) => Some(Totals { area: a, x_moment: x, y_moment: y }),
                    },
                },
            }
        } else {
            match t.area.spec_add(row.area) {
                None => None,
                Some(a) => match t.x_moment.spec_add(row.x_moment) {
                    None => None,
                    Some(x) => match t.y_moment.spec_add(row.y_moment) {
                        None => None,
                        Some(y) => Some(Totals { area: a, x_moment: x, y_moment: y }),
                    },
                },
            }
        },
    }
}

/// The sums over a sequence of entities, left to right; `None` as soon as
/// any step leaves the exact model. An empty sequence sums to zero.
pub open spec fn spec_totals(s: Seq<Entity>) -> Option<Totals>
    decreases s.len(),
{
    if s.len() == 0 {
        Some(Totals::spec_zero())
    } else {
        match spec_totals(s.drop_last()) {
            None => None,
            Some(t) => spec_accumulate(t, s.last()),
        }
    }
}

/// Sums that exist over a sequence exist over each of its prefixes.
pub proof fn lemma_totals_prefix(s: Seq<Entity>, i: int)
    requires
        0 <= i <= s.len(),
        spec_totals(s) is Some,
    ensures
        spec_totals(s.take(i)) is Some,
    decreases s.len() - i,
{
    if i == s.len() {
        assert(s.take(i) =~= s);
    } else {
        assert(spec_totals(s.drop_last()) is Some);
        assert(s.drop_last().take(i) =~= s.take(i));
        lemma_totals_prefix(s.drop_last(), i);
    }
}

pub fn row_of(e: &Entity) -> (r: Option<Row>)
    requires
        e.wf(),
    ensures
        r == spec_row(*e),
        r matches Some(row) ==> row.wf(),
{
    match e.area() {
        None => None,
        Some(a) => match e.centroid() {
            None => None,
            Some(c) => match a.scale(c.x) {
                None => None,
                Some(xm) => match a.scale(c.y) {
                    None => None,
                    Some(ym) => Some(Row { area: a, centroid: c, x_moment: xm, y_moment: ym }),
                },
            },
        },
    }
}

fn accumulate(t: Totals, e: &Entity) -> (r: Option<Totals>)
    requires
        t.wf(),
        e.wf(),
    ensures
        r == spec_accumulate(t, *e),
        r matches Some(v) ==> v.wf(),
{
    match row_of(e) {
        None => None,
        Some(row) => if e.is_gap {
            match t.area.sub(row.area) {
                None => None,
                Some(a) => match t.x_moment.sub(row.x_moment) {
                    None => None,
                    Some(x) => match t.y_moment.sub(row.y_moment) {
                        None => None,
                        Some(y) => Some(Totals { area: a, x_moment: x, y_moment: y }),
                    },
                },
            }
        } else {
            match t.area.add(row.area) {
                None => None,
                Some(a) => match t.x_moment.add(row.x_moment) {
                    None => None,
                    Some(x) => match t.y_moment.add(row.y_moment) {
                        None => None,
                        Some(y) => Some(Totals { area: a, x_moment: x, y_moment: y }),
                    },
                },
            }
        },
    }
}

/// The ordered store of entities for one session. It starts empty, grows by
/// one on each successful parse, and shrinks by one on a validated removal.
pub struct Store {
    pub entries: Vec<Entity>,
}

impl Store {
    pub open spec fn wf(self) -> bool {
        forall|i: int| 0 <= i < self.entries@.len() ==> (#[trigger] self.entries@[i]).wf()
    }

    pub fn new() -> (r: Store)
        ensures
            r.wf(),
            r.entries@.len() == 0,
    {
        Store { entries: Vec::new() }
    }

    /// Append one parsed entity at the end.
    pub fn append(&mut self, e: Entity)
        requires
            old(self).wf(),
            e.wf(),
        ensures
            final(self).wf(),
            final(self).entries@ == old(self).entries@.push(e),
    {
        self.entries.push(e);
    }

    /// Remove the entity at `index`, shifting later entries down by one; an
    /// index at or past the length reports the error and leaves the store
    /// unchanged.
    pub fn remove(&mut self, index: usize) -> (r: Result<Entity, IndexError>)
        requires
            old(self).wf(),
        ensures
            final(self).wf(),
            index < old(self).entries@.len() ==> (r matches Ok(e) && e == old(
                self,
            ).entries@[index as int] && final(self).entries@ == old(self).entries@.remove(
                index as int,
            )),
            index >= old(self).entries@.len() ==> r is Err && *final(self) == *old(self),
    {
        if index < self.entries.len() {
            let e = self.entries.remove(index);
            proof {
                assert forall|i: int| 0 <= i < self.entries@.len() implies (
                #[trigger] self.entries@[i]).wf() by {
                    if i < index {
                        assert(self.entries@[i] == old(self).entries@[i]);
                    } else {
                        assert(self.entries@[i] == old(self).entries@[i + 1]);
                    }
                }
            }
            Ok(e)
        } else {
            Err(IndexError {  })
        }
    }

    pub fn len(&self) -> (r: usize)
        ensures
            r == self.entries@.len(),
    {
        self.entries.len()
    }

    /// The listing view prints a distinct empty-state marker exactly when
    /// this holds.
    pub fn is_empty(&self) -> (r: bool)
        ensures
            r == (self.entries@.len() == 0),
    {
        self.entries.len() == 0
    }

    /// The ordered entities, for display with their indices.
    pub fn list(&self) -> (r: &Vec<Entity>)
        ensures
            r@ == self.entries@,
    {
        &self.entries
    }

    /// Compute every row and the signed sums over the whole store. `None`
    /// reports a value outside the exact model. An empty store yields the
    /// zero totals, whose centroid ratio is degenerate; it is displayed
    /// as-is, not trapped.
    pub fn solve(&self) -> (r: Option<Report>)
        requires
            self.wf(),
        ensures
            r matches Some(rep) ==> ({
                &&& Some(rep.totals) == spec_totals(self.entries@)
                &&& rep.totals.wf()
                &&& rep.rows@.len() == self.entries@.len()
                &&& forall|i: int|
                    0 <= i < self.entries@.len() ==> Some(#[trigger] rep.rows@[i]) == spec_row(
                        self.entries@[i],
                    )
            }),
            r is None ==> spec_totals(self.entries@) is None,
            self.entries@.len() == 0 ==> (r matches Some(rep) && rep.totals == Totals::spec_zero()
                && rep.rows@.len() == 0),
    {
        let mut rows: Vec<Row> = Vec::new();
        let mut totals = Totals {
            area: PiLin::zero(),
            x_moment: PiLin::zero(),
            y_moment: PiLin::zero(),
        };
        let mut i: usize = 0;
        proof {
            assert(self.entries@.take(0) =~= Seq::<Entity>::empty());
        }
        while i < self.entries.len()
            invariant
                0 <= i <= self.entries@.len(),
                totals.wf(),
                Some(totals) == spec_totals(self.entries@.take(i as int)),
                rows@.len() == i,
                forall|k: int|
                    0 <= k < i ==> Some(#[trigger] rows@[k]) == spec_row(self.entries@[k]),
            decreases self.entries@.len() - i,
        {
            let e = &self.entries[i];
            let ghost pre = self.entries@.take(i as int);
            let ghost cur = self.entries@.take(i + 1 as int);
            proof {
                assert(cur.drop_last() =~= pre);
                assert(cur.last() == self.entries@[i as int]);
            }
            let row_opt = row_of(e);
            let acc_opt = accumulate(totals, e);
            match (row_opt, acc_opt) {
                (Some(row), Some(t2)) => {
                    rows.push(row);
                    totals = t2;
                    i += 1;
                },
                _ => {
                    proof {
                        assert(spec_totals(cur) is None);
                        if spec_totals(self.entries@) is Some {
                            lemma_totals_prefix(self.entries@, i + 1);
                        }
                    }
                    return None;
                },
            }
        }
        proof {
            assert(self.entries@.take(self.entries@.len() as int) =~= self.entries@);
        }
        Some(Report { rows, totals })
    }
}

/// The display rule for a row's area column: enough decimals to fill a
/// ten-character column, clamped between zero and three. `int_digits` is
/// the number of digits before the decimal point of the area, at least one.
pub open spec fn spec_precision(int_digits: int) -> int {
    let raw = 10 - int_digits - 1;
    if raw < 0 {
        0
    } else if raw > 3 {
        3
    } else {
        raw
    }
}

pub fn precision_for_digits(int_digits: u64) -> (r: u64)
    ensures
        r == spec_precision(int_digits as int),
{
    if int_digits >= 9 {
        0
    } else if int_digits <= 6 {
        3
    } else {
        9 - int_digits
    }
}

} // verus!
