use vstd::prelude::*;
use vstd::seq_lib::{to_multiset_contains, to_multiset_len};
use crate::calendar::{
    deref_all, in_span, index_of_ongoing as first_ongoing, ongoing_at, select_sorted,
    sorted_by_key, ties_in_order, starting_within, Timed,
};
use crate::icstime::{
    current_timestamp, date_of, TimeStamp, day_of_week, max_date, min_date, next_date, next_day,
    prev_date, prev_day, today_as_date_tuple, date_le, lemma_next_of_prev, lemma_next_weekday,
    lemma_next_is_successor, MAX_YEAR, MIN_YEAR, valid_date, weekday_spec, is_max_date, is_min_date,
};
use crate::neptunclass::NeptunClass;

verus! {

broadcast use vstd::seq_lib::group_seq_properties;

/// `d` moved back by up to `n` days, stopping at the first representable date.
pub open spec fn step_back(d: (u32, u32, u32), n: nat) -> (u32, u32, u32)
    decreases n,
{
    if n == 0 {
        d
    } else {
        let p = step_back(d, (n - 1) as nat);
        if p == min_date() {
            p
        } else {
            prev_date(p)
        }
    }
}

/// `d` moved forward by up to `n` days, stopping at the last representable date.
pub open spec fn step_forward(d: (u32, u32, u32), n: nat) -> (u32, u32, u32)
    decreases n,
{
    if n == 0 {
        d
    } else {
        let p = step_forward(d, (n - 1) as nat);
        if p == max_date() {
            p
        } else {
            next_date(p)
        }
    }
}

/// The Monday of the week of `d`, or the first representable date if that comes later.
pub open spec fn week_monday(d: (u32, u32, u32)) -> (u32, u32, u32) {
    step_back(d, weekday_spec(d) as nat)
}

/// The Sunday of the week of `d`, or the last representable date if that comes earlier.
pub open spec fn week_sunday(d: (u32, u32, u32)) -> (u32, u32, u32) {
    step_forward(d, (6 - weekday_spec(d)) as nat)
}

/// Moving back up to six days from a date after the first year neither reaches the first
/// representable date nor leaves the previous year's December.
proof fn lemma_step_back_unclamped(d: (u32, u32, u32), k: nat)
    requires
        valid_date(d),
        d.0 > MIN_YEAR,
        k <= 6,
    ensures
        valid_date(step_back(d, k)),
        step_back(d, k) != min_date(),
        step_back(d, k).0 == d.0 || (step_back(d, k).0 == d.0 - 1 && step_back(d, k).1 == 12
            && step_back(d, k).2 + k >= 32),
        (weekday_spec(step_back(d, k)) + k) % 7 == weekday_spec(d),
    decreases k,
{
    if k > 0 {
        lemma_step_back_unclamped(d, (k - 1) as nat);
        let p = step_back(d, (k - 1) as nat);
        lemma_next_of_prev(p);
        lemma_next_weekday(prev_date(p));
    }
}

/// Moving forward up to six days from a date before the last year neither reaches the last
/// representable date nor goes past the next year's January.
proof fn lemma_step_forward_unclamped(d: (u32, u32, u32), k: nat)
    requires
        valid_date(d),
        d.0 < MAX_YEAR,
        k <= 6,
    ensures
        valid_date(step_forward(d, k)),
        step_forward(d, k) != max_date(),
        step_forward(d, k).0 == d.0 || (step_forward(d, k).0 == d.0 + 1 && step_forward(d, k).1
            == 1 && step_forward(d, k).2 <= k),
        weekday_spec(step_forward(d, k)) == (weekday_spec(d) + k) % 7,
    decreases k,
{
    if k > 0 {
        lemma_step_forward_unclamped(d, (k - 1) as nat);
        let p = step_forward(d, (k - 1) as nat);
        lemma_next_weekday(p);
    }
}

/// Away from the ends of the representable range, the week of a date runs from a Monday to a
/// Sunday: the bounds fall on weekdays 0 and 6, lie six days apart and hold the date.
pub proof fn lemma_week_is_monday_to_sunday(d: (u32, u32, u32))
    requires
        valid_date(d),
        MIN_YEAR < d.0 < MAX_YEAR,
    ensures
        weekday_spec(week_monday(d)) == 0,
        weekday_spec(week_sunday(d)) == 6,
        step_forward(week_monday(d), 6) == week_sunday(d),
        date_le(week_monday(d), d),
        date_le(d, week_sunday(d)),
{
    let wd = weekday_spec(d);
    lemma_step_back_unclamped(d, wd as nat);
    lemma_step_forward_unclamped(d, (6 - wd) as nat);
    lemma_walk_back_then_forward(d, wd as nat);
    lemma_forward_sum(week_monday(d), wd as nat, (6 - wd) as nat);
    lemma_step_back_before(d, wd as nat);
    lemma_step_forward_after(d, (6 - wd) as nat);
}

/// Walking back `k` unclamped days and then forward `k` days returns to the date.
proof fn lemma_walk_back_then_forward(d: (u32, u32, u32), k: nat)
    requires
        valid_date(d),
        d.0 > MIN_YEAR,
        k <= 6,
    ensures
        step_forward(step_back(d, k), k) == d,
    decreases k,
{
    if k > 0 {
        let p = step_back(d, (k - 1) as nat);
        lemma_step_back_unclamped(d, (k - 1) as nat);
        lemma_step_back_unclamped(d, k);
        lemma_next_of_prev(p);
        lemma_step_forward_shift(prev_date(p), (k - 1) as nat);
        lemma_walk_back_then_forward(d, (k - 1) as nat);
    }
}

/// Walking forward `k + 1` days is one step and then `k` more, away from the last date.
proof fn lemma_step_forward_shift(d: (u32, u32, u32), k: nat)
    requires
        valid_date(d),
        d != max_date(),
    ensures
        step_forward(d, k + 1) == step_forward(next_date(d), k),
    decreases k,
{
    if k > 0 {
        lemma_step_forward_shift(d, (k - 1) as nat);
        assert(step_forward(d, k + 1) == {
            let p = step_forward(d, k);
            if p == max_date() {
                p
            } else {
                next_date(p)
            }
        });
    } else {
        assert(step_forward(d, 0) == d);
        assert(step_forward(d, 1) == next_date(d));
    }
}

/// Walking forward `a` days and then `b` days is walking forward `a + b` days.
proof fn lemma_forward_sum(d: (u32, u32, u32), a: nat, b: nat)
    ensures
        step_forward(step_forward(d, a), b) == step_forward(d, a + b),
    decreases b,
{
    if b > 0 {
        lemma_forward_sum(d, a, (b - 1) as nat);
    }
}

/// Walking back never passes a date.
proof fn lemma_step_back_before(d: (u32, u32, u32), k: nat)
    requires
        valid_date(d),
    ensures
        valid_date(step_back(d, k)),
        date_le(step_back(d, k), d),
    decreases k,
{
    if k > 0 {
        lemma_step_back_before(d, (k - 1) as nat);
        let p = step_back(d, (k - 1) as nat);
        if p != min_date() {
            lemma_next_of_prev(p);
            lemma_next_is_successor(prev_date(p), p);
        }
    }
}

/// Walking forward never falls behind a date.
proof fn lemma_step_forward_after(d: (u32, u32, u32), k: nat)
    requires
        valid_date(d),
    ensures
        valid_date(step_forward(d, k)),
        date_le(d, step_forward(d, k)),
    decreases k,
{
    if k > 0 {
        lemma_step_forward_after(d, (k - 1) as nat);
        let p = step_forward(d, (k - 1) as nat);
        if p != max_date() {
            lemma_next_is_successor(p, p);
        }
    }
}

/// The Monday and the Sunday that bound the week of `d`, each clamped into the representable
/// range.
pub fn week_bounds(d: (u32, u32, u32)) -> (r: ((u32, u32, u32), (u32, u32, u32)))
    requires
        valid_date(d),
    ensures
        r.0 == week_monday(d),
        r.1 == week_sunday(d),
        valid_date(r.0),
        valid_date(r.1),
{
    let wd = day_of_week(d);
    let mut mon = d;
    let mut k: u32 = 0;
    while k < wd
        invariant
            k <= wd < 7,
            wd == weekday_spec(d),
            valid_date(mon),
            mon == step_back(d, k as nat),
        decreases wd - k,
    {
        if !is_min_date(mon) {
            mon = prev_day(mon);
        }
        k = k + 1;
    }
    let mut sun = d;
    let mut k: u32 = 0;
    while k < 6 - wd
        invariant
            k <= 6 - wd,
            wd == weekday_spec(d),
            wd < 7,
            valid_date(sun),
            sun == step_forward(d, k as nat),
        decreases 6 - wd - k,
    {
        if !is_max_date(sun) {
            sun = next_day(sun);
        }
        k = k + 1;
    }
    (mon, sun)
}

/// The classes of `classes` that start on `date`, sorted by start.
pub fn get_classes_by_day<'a>(classes: &'a Vec<NeptunClass>, selected_date: (u32, u32, u32)) -> (r:
    Vec<&'a NeptunClass>)
    ensures
        sorted_by_key(deref_all(r@)),
        deref_all(r@).to_multiset() == starting_within(
            classes@,
            selected_date,
            selected_date,
        ).to_multiset(),
        ties_in_order(deref_all(r@), starting_within(classes@, selected_date, selected_date)),
        r@.len() == starting_within(classes@, selected_date, selected_date).len(),
        forall|k: int| 0 <= k < r@.len() ==> date_of(r@[k].start) == selected_date,
{
    let r = select_sorted(classes, selected_date, selected_date);
    proof {
        lemma_selection_within(classes@, selected_date, selected_date, r@);
    }
    r
}

/// The classes of `classes` that start in the Monday-to-Sunday week of `date`, sorted by start.
pub fn get_classes_by_week<'a>(classes: &'a Vec<NeptunClass>, selected_date: (u32, u32, u32)) -> (r:
    Vec<&'a NeptunClass>)
    requires
        valid_date(selected_date),
    ensures
        sorted_by_key(deref_all(r@)),
        deref_all(r@).to_multiset() == starting_within(
            classes@,
            week_monday(selected_date),
            week_sunday(selected_date),
        ).to_multiset(),
        ties_in_order(
            deref_all(r@),
            starting_within(classes@, week_monday(selected_date), week_sunday(selected_date)),
        ),
        forall|k: int|
            0 <= k < r@.len() ==> in_span(
                r@[k].start,
                week_monday(selected_date),
                week_sunday(selected_date),
            ),
{
    let (mon, sun) = week_bounds(selected_date);
    let r = select_sorted(classes, mon, sun);
    proof {
        lemma_selection_within(classes@, mon, sun, r@);
    }
    r
}

/// Every record of a selection by start day lies in the span, and the selection has as many
/// records as the span holds.
pub proof fn lemma_selection_within<T: Timed>(
    items: Seq<T>,
    lo: (u32, u32, u32),
    hi: (u32, u32, u32),
    r: Seq<&T>,
)
    requires
        deref_all(r).to_multiset() == starting_within(items, lo, hi).to_multiset(),
    ensures
        forall|k: int| 0 <= k < r.len() ==> in_span(r[k].start_spec(), lo, hi),
        r.len() == starting_within(items, lo, hi).len(),
{
    let within = starting_within(items, lo, hi);
    to_multiset_len(deref_all(r));
    to_multiset_len(within);
    assert forall|k: int| 0 <= k < r.len() implies in_span(r[k].start_spec(), lo, hi) by {
        let e = deref_all(r)[k];
        assert(deref_all(r).contains(e));
        to_multiset_contains(deref_all(r), e);
        to_multiset_contains(within, e);
        let j = choose|j: int| 0 <= j < within.len() && within[j] == e;
        items.lemma_filter_pred(|x: T| in_span(x.start_spec(), lo, hi), j);
    }
}

/// The selection of a day view and the classes it is drawn from.
pub struct App {
    pub classes: Vec<NeptunClass>,
    pub selected_date: (u32, u32, u32),
    pub selected: Option<usize>,
    pub selected_classes: usize,
}

/// Number of classes of `classes` that start on `date`.
pub open spec fn day_count(classes: Seq<NeptunClass>, date: (u32, u32, u32)) -> int {
    starting_within(classes, date, date).len() as int
}

/// A selected row pulled back into a list of `n` rows: the last row when it lay past the end,
/// none when the list is empty.
pub open spec fn clamp_row(sel: Option<usize>, n: usize) -> Option<usize> {
    match sel {
        Some(i) => if i < n {
            Some(i)
        } else if n > 0 {
            Some((n - 1) as usize)
        } else {
            None
        },
        None => None,
    }
}

impl App {
    /// The selected date is a real one, the row count is that of the selected date, and the
    /// selected row lies within it.
    pub open spec fn wf(&self) -> bool {
        &&& valid_date(self.selected_date)
        &&& self.selected_classes == day_count(self.classes@, self.selected_date)
        &&& self.selected matches Some(i) ==> i < self.selected_classes
    }

    fn count_on(classes: &Vec<NeptunClass>, date: (u32, u32, u32)) -> (r: usize)
        ensures
            r == day_count(classes@, date),
    {
        get_classes_by_day(classes, date).len()
    }

    /// A day view on `today` with its first row selected, if it has any.
    pub fn new(classes: Vec<NeptunClass>, today: (u32, u32, u32)) -> (r: App)
        requires
            valid_date(today),
        ensures
            r.wf(),
            r.classes@ == classes@,
            r.selected_date == today,
            r.selected == (if r.selected_classes > 0 {
                Some(0usize)
            } else {
                None
            }),
    {
        let n = App::count_on(&classes, today);
        App {
            classes,
            selected_date: today,
            selected: if n > 0 {
                Some(0)
            } else {
                None
            },
            selected_classes: n,
        }
    }

    /// The classes of the selected date, sorted by start.
    pub fn classes_of_day(&self) -> (r: Vec<&NeptunClass>)
        ensures
            sorted_by_key(deref_all(r@)),
            deref_all(r@).to_multiset() == starting_within(
                self.classes@,
                self.selected_date,
                self.selected_date,
            ).to_multiset(),
            ties_in_order(deref_all(r@), starting_within(self.classes@, self.selected_date, self.selected_date)),
    {
        get_classes_by_day(&self.classes, self.selected_date)
    }

    /// Selects the next row, wrapping around to the first; no row is selected in an empty list.
    pub fn next_row(&mut self)
        requires
            old(self).wf(),
        ensures
            final(self).wf(),
            final(self).classes == old(self).classes,
            final(self).selected_date == old(self).selected_date,
            final(self).selected_classes == old(self).selected_classes,
            final(self).selected == if old(self).selected_classes == 0 {
                old(self).selected
            } else {
                match old(self).selected {
                    Some(i) => Some(
                        if i + 1 >= old(self).selected_classes {
                            0usize
                        } else {
                            (i + 1) as usize
                        },
                    ),
                    None => Some(0usize),
                }
            },
    {
        if self.selected_classes == 0 {
            return;
        }
        let i = match self.selected {
            Some(i) => {
                if i >= self.selected_classes - 1 {
                    0
                } else {
                    i + 1
                }
            },
            None => 0,
        };
        self.selected = Some(i);
    }

    /// Selects the previous row, wrapping around to the last; no row is selected in an empty
    /// list.
    pub fn prev_row(&mut self)
        requires
            old(self).wf(),
        ensures
            final(self).wf(),
            final(self).classes == old(self).classes,
            final(self).selected_date == old(self).selected_date,
            final(self).selected_classes == old(self).selected_classes,
            final(self).selected == if old(self).selected_classes == 0 {
                old(self).selected
            } else {
                match old(self).selected {
                    Some(i) => Some(
                        if i == 0 {
                            (old(self).selected_classes - 1) as usize
                        } else {
                            (i - 1) as usize
                        },
                    ),
                    None => Some(0usize),
                }
            },
    {
        if self.selected_classes == 0 {
            return;
        }
        let i = match self.selected {
            Some(i) => {
                if i == 0 {
                    self.selected_classes - 1
                } else {
                    i - 1
                }
            },
            None => 0,
        };
        self.selected = Some(i);
    }

    /// Shows another date, pulling the selected row back into that date's list.
    pub fn set_date(&mut self, date: (u32, u32, u32))
        requires
            old(self).wf(),
            valid_date(date),
        ensures
            final(self).wf(),
            final(self).classes == old(self).classes,
            final(self).selected_date == date,
            final(self).selected == clamp_row(old(self).selected, final(self).selected_classes),
    {
        let n = App::count_on(&self.classes, date);
        self.selected_date = date;
        self.selected_classes = n;
        match self.selected {
            Some(i) => {
                if i >= n {
                    self.selected = if n > 0 {
                        Some(n - 1)
                    } else {
                        None
                    };
                }
            },
            None => {},
        }
    }

    /// Shows the next day; stays on the last representable date.
    pub fn next_day(&mut self)
        requires
            old(self).wf(),
        ensures
            final(self).wf(),
            final(self).classes == old(self).classes,
            final(self).selected_date == if old(self).selected_date == max_date() {
                old(self).selected_date
            } else {
                next_date(old(self).selected_date)
            },
            final(self).selected == clamp_row(old(self).selected, final(self).selected_classes),
    {
        if !is_max_date(self.selected_date) {
            let d = next_day(self.selected_date);
            self.set_date(d);
        }
    }

    /// Shows the previous day; stays on the first representable date.
    pub fn prev_day(&mut self)
        requires
            old(self).wf(),
        ensures
            final(self).wf(),
            final(self).classes == old(self).classes,
            final(self).selected_date == if old(self).selected_date == min_date() {
                old(self).selected_date
            } else {
                prev_date(old(self).selected_date)
            },
            final(self).selected == clamp_row(old(self).selected, final(self).selected_classes),
    {
        if !is_min_date(self.selected_date) {
            let d = prev_day(self.selected_date);
            self.set_date(d);
        }
    }

    /// Shows today's date, read from the clock at the call; keeps the date shown when the
    /// clock gives a date out of the representable range.
    pub fn jump_to_today(&mut self)
        requires
            old(self).wf(),
        ensures
            final(self).wf(),
            final(self).classes == old(self).classes,
            final(self).selected == clamp_row(old(self).selected, final(self).selected_classes),
    {
        match today_as_date_tuple() {
            Some(t) => self.set_date(t),
            None => {},
        }
    }

    /// The position of the first class of `selected_classes` going on now, read from the clock
    /// at the call.
    pub fn index_of_ongoing(&self, selected_classes: &Vec<&NeptunClass>) -> (r: Option<usize>)
        ensures
            exists|now: TimeStamp|
                {
                    &&& now.h < 24
                    &&& now.m < 60
                    &&& (r is None <==> forall|i: int|
                        0 <= i < selected_classes@.len() ==> !ongoing_at(
                            *selected_classes@[i],
                            now,
                        ))
                    &&& (r matches Some(i) ==> {
                        &&& i < selected_classes@.len()
                        &&& ongoing_at(*selected_classes@[i as int], now)
                        &&& forall|j: int| 0 <= j < i ==> !ongoing_at(*selected_classes@[j], now)
                    })
                },
    {
        let now = current_timestamp();
        first_ongoing(selected_classes, now)
    }
}

} // verus!
