use vstd::prelude::*;
use crate::calendar::{deref_all, has_key, insert_sorted, with_key, lemma_with_key_push, sorted_by_key, ties_in_order};
use crate::icstime::ICSTime;
use crate::neptunclass::NeptunClass;

verus! {

/// Start of the visible window of the weekly grid, 07:00, in quarter hours since midnight.
pub const HOUR_SEVEN_AS_QUARTERS: u64 = 28;

/// End of the visible window of the weekly grid, 20:00, in quarter hours since midnight.
pub const HOUR_TWENTY_AS_QUARTERS: u64 = 80;

/// Number of weekday columns of the grid, Monday to Friday.
pub const GRID_DAYS: usize = 5;

/// A move of the selection on the weekly grid.
pub enum TimeTableNavigation {
    UP,
    DOWN,
    LEFT,
    RIGHT,
}

/// Whole quarter hours from midnight to the time of day of `t`.
pub open spec fn quarter_of(t: ICSTime) -> int {
    (t.hour * 60 + t.min) / 15
}

/// A quarter-hour position clamped into the visible window.
pub open spec fn clamp_window(q: int) -> int {
    if q < HOUR_SEVEN_AS_QUARTERS {
        HOUR_SEVEN_AS_QUARTERS as int
    } else if q > HOUR_TWENTY_AS_QUARTERS {
        HOUR_TWENTY_AS_QUARTERS as int
    } else {
        q
    }
}

pub open spec fn on_weekday(c: NeptunClass, k: int) -> bool {
    c.start.dow == k
}

/// The classes of `s` that start on weekday `k`, in the order they come in.
pub open spec fn classes_on_weekday(s: Seq<NeptunClass>, k: int) -> Seq<NeptunClass> {
    s.filter(|c: NeptunClass| on_weekday(c, k))
}

/// A column of the grid: the classes of `all` on weekday `k`, sorted by start, equal starts in
/// their order in `all`.
pub open spec fn column_ok(col: Seq<&NeptunClass>, all: Seq<NeptunClass>, k: int) -> bool {
    &&& sorted_by_key(deref_all(col))
    &&& deref_all(col).to_multiset() == classes_on_weekday(all, k).to_multiset()
    &&& ties_in_order(deref_all(col), classes_on_weekday(all, k))
}

/// The classes of a week laid out in one column per weekday, Monday to Friday.
pub struct TimeTable<'a> {
    pub classes: Vec<Vec<&'a NeptunClass>>,
}

impl<'a> TimeTable<'a> {
    /// Five columns, whose lengths add up to a machine-sized number.
    pub open spec fn wf(&self) -> bool {
        &&& self.classes@.len() == GRID_DAYS
        &&& self.classes@[0]@.len() + self.classes@[1]@.len() + self.classes@[2]@.len()
            + self.classes@[3]@.len() + self.classes@[4]@.len() <= usize::MAX
    }

    /// An empty grid.
    pub fn new() -> (r: TimeTable<'a>)
        ensures
            r.wf(),
            forall|k: int| 0 <= k < 5 ==> r.classes@[k]@.len() == 0,
    {
        TimeTable { classes: vec![Vec::new(), Vec::new(), Vec::new(), Vec::new(), Vec::new()] }
    }

    /// Lays out classes by the weekday of their start, each column sorted by start with equal
    /// starts in their given order. Saturday and Sunday classes have no column and are left out.
    pub fn from_classes(classes: Vec<&'a NeptunClass>) -> (r: TimeTable<'a>)
        ensures
            r.wf(),
            forall|k: int| 0 <= k < 5 ==> column_ok(#[trigger] r.classes@[k]@, deref_all(classes@), k),
    {
        let ghost all = deref_all(classes@);
        let mut b0: Vec<&'a NeptunClass> = Vec::new();
        let mut b1: Vec<&'a NeptunClass> = Vec::new();
        let mut b2: Vec<&'a NeptunClass> = Vec::new();
        let mut b3: Vec<&'a NeptunClass> = Vec::new();
        let mut b4: Vec<&'a NeptunClass> = Vec::new();
        let mut i: usize = 0;
        proof {
            assert(all.subrange(0, 0) =~= Seq::<NeptunClass>::empty());
            assert(deref_all(b0@) =~= Seq::<NeptunClass>::empty());
            assert(deref_all(b1@) =~= Seq::<NeptunClass>::empty());
            assert(deref_all(b2@) =~= Seq::<NeptunClass>::empty());
            assert(deref_all(b3@) =~= Seq::<NeptunClass>::empty());
            assert(deref_all(b4@) =~= Seq::<NeptunClass>::empty());
            assert forall|k: int| 0 <= k < 5 implies #[trigger] classes_on_weekday(all.subrange(0, 0), k)
                =~= Seq::<NeptunClass>::empty() by {
                all.subrange(0, 0).lemma_filter_len(|x: NeptunClass| on_weekday(x, k));
            }
        }
        while i < classes.len()
            invariant
                i <= classes@.len(),
                all == deref_all(classes@),
                column_ok(b0@, all.subrange(0, i as int), 0),
                column_ok(b1@, all.subrange(0, i as int), 1),
                column_ok(b2@, all.subrange(0, i as int), 2),
                column_ok(b3@, all.subrange(0, i as int), 3),
                column_ok(b4@, all.subrange(0, i as int), 4),
                b0@.len() + b1@.len() + b2@.len() + b3@.len() + b4@.len() <= i,
            decreases classes@.len() - i,
        {
            let c: &'a NeptunClass = classes[i];
            proof {
                let pre = all.subrange(0, i as int);
                assert(all.subrange(0, i + 1) =~= pre.push(*c));
                assert forall|k: int| 0 <= k < 5 implies #[trigger] classes_on_weekday(
                    all.subrange(0, i + 1),
                    k,
                ) == if on_weekday(*c, k) {
                    classes_on_weekday(pre, k).push(*c)
                } else {
                    classes_on_weekday(pre, k)
                } && classes_on_weekday(pre, k).push(*c).to_multiset() == classes_on_weekday(
                    pre,
                    k,
                ).to_multiset().insert(*c) && forall|key: (ICSTime, ICSTime)|
                    #[trigger] with_key(classes_on_weekday(pre, k).push(*c), key) == if has_key(
                        *c,
                        key,
                    ) {
                        with_key(classes_on_weekday(pre, k), key).push(*c)
                    } else {
                        with_key(classes_on_weekday(pre, k), key)
                    } by {
                    pre.lemma_filter_push(*c, |x: NeptunClass| on_weekday(x, k));
                    vstd::seq_lib::to_multiset_build(classes_on_weekday(pre, k), *c);
                    lemma_with_key_push(classes_on_weekday(pre, k), *c);
                }
            }
            let dow = c.start.dow;
            if dow == 0 {
                insert_sorted(&mut b0, c);
            } else if dow == 1 {
                insert_sorted(&mut b1, c);
            } else if dow == 2 {
                insert_sorted(&mut b2, c);
            } else if dow == 3 {
                insert_sorted(&mut b3, c);
            } else if dow == 4 {
                insert_sorted(&mut b4, c);
            }
            i = i + 1;
        }
        proof {
            assert(all.subrange(0, classes@.len() as int) =~= all);
        }
        let r = TimeTable { classes: vec![b0, b1, b2, b3, b4] };
        assert(r.classes@[0]@ == b0@);
        assert(r.classes@[4]@ == b4@);
        r
    }

    /// Number of classes in column `day`.
    pub fn column_len(&self, day: usize) -> (r: usize)
        requires
            self.wf(),
            day < GRID_DAYS,
        ensures
            r == self.classes@[day as int]@.len(),
    {
        self.classes[day].len()
    }

    /// Quarter hours from the top of the window (07:00) down to the start of a class, clamped
    /// into the window.
    pub fn quarters_from_seven(class: &NeptunClass) -> (r: u8)
        ensures
            r == clamp_window(quarter_of(class.start)) - HOUR_SEVEN_AS_QUARTERS,
    {
        let q = clamp_quarter(class.start);
        (q - HOUR_SEVEN_AS_QUARTERS) as u8
    }

    /// Quarter hours from the end of a class up to the bottom of the window (20:00), clamped
    /// into the window. This is the vertical offset of the class's box.
    pub fn quarters_from_twenty(class: &NeptunClass) -> (r: u8)
        ensures
            r == HOUR_TWENTY_AS_QUARTERS - clamp_window(quarter_of(class.end)),
    {
        let q = clamp_quarter(class.end);
        (HOUR_TWENTY_AS_QUARTERS - q) as u8
    }

    /// Quarter hours that a class covers within the window; zero when it ends before it starts.
    pub fn height_in_quarters(class: &NeptunClass) -> (r: u8)
        ensures
            r == if clamp_window(quarter_of(class.end)) >= clamp_window(quarter_of(class.start)) {
                clamp_window(quarter_of(class.end)) - clamp_window(quarter_of(class.start))
            } else {
                0
            },
    {
        let s = clamp_quarter(class.start);
        let e = clamp_quarter(class.end);
        if e >= s {
            (e - s) as u8
        } else {
            0
        }
    }
}

impl<'a> Default for TimeTable<'a> {
    fn default() -> (r: TimeTable<'a>)
        ensures
            r.wf(),
            forall|k: int| 0 <= k < 5 ==> r.classes@[k]@.len() == 0,
    {
        TimeTable::new()
    }
}

/// The quarter-hour position of the time of day of `t`, clamped into the window.
fn clamp_quarter(t: ICSTime) -> (r: u64)
    ensures
        r == clamp_window(quarter_of(t)),
        HOUR_SEVEN_AS_QUARTERS <= r <= HOUR_TWENTY_AS_QUARTERS,
{
    let q: u64 = (t.hour as u64 * 60 + t.min as u64) / 15;
    if q < HOUR_SEVEN_AS_QUARTERS {
        HOUR_SEVEN_AS_QUARTERS
    } else if q > HOUR_TWENTY_AS_QUARTERS {
        HOUR_TWENTY_AS_QUARTERS
    } else {
        q
    }
}

/// Sum of the first `n` entries of `d`.
pub open spec fn prefix_sum(d: Seq<usize>, n: int) -> int
    decreases n,
{
    if n <= 0 {
        0
    } else {
        prefix_sum(d, n - 1) + d[n - 1]
    }
}

/// Last position of a list of `n` entries; 0 for an empty list.
pub open spec fn last_pos(n: usize) -> usize {
    if n == 0 {
        0
    } else {
        (n - 1) as usize
    }
}

/// The first entry of a column, when it has any.
pub open spec fn first_of(n: usize) -> Option<usize> {
    if n > 0 {
        Some(0)
    } else {
        None
    }
}

/// The selected column and entry after a move from `day` and `sel`, given the column sizes.
pub open spec fn nav_target(
    d: Seq<usize>,
    day: usize,
    sel: Option<usize>,
    nav: TimeTableNavigation,
) -> (usize, Option<usize>) {
    match sel {
        None => (day, first_of(d[day as int])),
        Some(c) => match nav {
            TimeTableNavigation::UP => (
                day,
                Some(
                    if c == 0 {
                        last_pos(d[day as int])
                    } else {
                        (c - 1) as usize
                    },
                ),
            ),
            TimeTableNavigation::DOWN => (
                day,
                Some(
                    if c == last_pos(d[day as int]) {
                        0
                    } else {
                        (c + 1) as usize
                    },
                ),
            ),
            TimeTableNavigation::LEFT => {
                let nd: usize = if day == 0 {
                    4
                } else {
                    (day - 1) as usize
                };
                (nd, first_of(d[nd as int]))
            },
            TimeTableNavigation::RIGHT => {
                let nd: usize = if day == 4 {
                    0
                } else {
                    (day + 1) as usize
                };
                (nd, first_of(d[nd as int]))
            },
        },
    }
}

/// A selected entry pulled back into a column of `n` entries.
pub open spec fn clamp_selection(sel: Option<usize>, n: usize) -> Option<usize> {
    match sel {
        Some(c) => if c < n {
            Some(c)
        } else if n > 0 {
            Some((n - 1) as usize)
        } else {
            None
        },
        None => None,
    }
}

/// The position in the whole week of entry `sel` of column `day`.
pub open spec fn flat_index(d: Seq<usize>, day: usize, sel: Option<usize>) -> Option<usize> {
    match sel {
        Some(c) => Some((prefix_sum(d, day as int) + c) as usize),
        None => None,
    }
}

/// The selection on the weekly grid: a column, an entry of it, and that entry's position in
/// the whole week.
pub struct TimeTableState {
    pub selected_day: usize,
    pub selected_class: Option<usize>,
    pub index: Option<usize>,
    pub distribution: [usize; 5],
}

impl TimeTableState {
    /// The column is a weekday column, the selected entry lies in it, the index matches it,
    /// and the column sizes add up to a machine-sized number.
    pub open spec fn wf(&self) -> bool {
        &&& self.selected_day < GRID_DAYS
        &&& prefix_sum(self.distribution@, 5) <= usize::MAX
        &&& self.selected_class matches Some(c) ==> c < self.distribution@[self.selected_day as int]
        &&& self.index == flat_index(self.distribution@, self.selected_day, self.selected_class)
    }

    /// Whether the box of entry `j` of column `day` is drawn highlighted.
    pub fn highlights(&self, day: usize, j: usize) -> (r: bool)
        ensures
            r == (self.selected_class == Some(j) && self.selected_day == day),
    {
        match self.selected_class {
            Some(n) => self.selected_day == day && n == j,
            None => false,
        }
    }

    /// Moves the selection. Up and down wrap around within the column, left and right wrap
    /// around the five columns and select the first entry of the new one. The first move from
    /// no selection selects the first entry of the current column. An empty column has no
    /// selected entry.
    pub fn navigate(&mut self, nav: TimeTableNavigation)
        requires
            old(self).wf(),
        ensures
            final(self).wf(),
            final(self).distribution == old(self).distribution,
            (final(self).selected_day, final(self).selected_class) == nav_target(
                old(self).distribution@,
                old(self).selected_day,
                old(self).selected_class,
                nav,
            ),
    {
        let ghost d = self.distribution@;
        let count = self.distribution[self.selected_day];
        let last: usize = if count == 0 {
            0
        } else {
            count - 1
        };
        match self.selected_class {
            None => {
                self.selected_class = if count > 0 {
                    Some(0)
                } else {
                    None
                };
            },
            Some(c) => match nav {
                TimeTableNavigation::UP => {
                    self.selected_class = Some(
                        if c == 0 {
                            last
                        } else {
                            c - 1
                        },
                    );
                },
                TimeTableNavigation::DOWN => {
                    self.selected_class = Some(
                        if c == last {
                            0
                        } else {
                            c + 1
                        },
                    );
                },
                TimeTableNavigation::LEFT => {
                    self.selected_day = if self.selected_day == 0 {
                        4
                    } else {
                        self.selected_day - 1
                    };
                    self.selected_class = if self.distribution[self.selected_day] > 0 {
                        Some(0)
                    } else {
                        None
                    };
                },
                TimeTableNavigation::RIGHT => {
                    self.selected_day = if self.selected_day == 4 {
                        0
                    } else {
                        self.selected_day + 1
                    };
                    self.selected_class = if self.distribution[self.selected_day] > 0 {
                        Some(0)
                    } else {
                        None
                    };
                },
            },
        }
        self.index = self.flat_position();
    }

    /// The position in the whole week of the selected entry.
    fn flat_position(&self) -> (r: Option<usize>)
        requires
            self.selected_day < GRID_DAYS,
            prefix_sum(self.distribution@, 5) <= usize::MAX,
            self.selected_class matches Some(c) ==> c < self.distribution@[self.selected_day as int],
        ensures
            r == flat_index(self.distribution@, self.selected_day, self.selected_class),
    {
        match self.selected_class {
            None => None,
            Some(c) => {
                let mut sum: usize = 0;
                let mut k: usize = 0;
                while k < self.selected_day
                    invariant
                        k <= self.selected_day < GRID_DAYS,
                        self.distribution@.len() == 5,
                        sum == prefix_sum(self.distribution@, k as int),
                        prefix_sum(self.distribution@, 5) <= usize::MAX,
                        c < self.distribution@[self.selected_day as int],
                    decreases self.selected_day - k,
                {
                    proof {
                        lemma_prefix_sum_mono(self.distribution@, k + 1, 5);
                    }
                    sum = sum + self.distribution[k];
                    k = k + 1;
                }
                proof {
                    lemma_prefix_sum_mono(self.distribution@, self.selected_day + 1, 5);
                }
                Some(sum + c)
            },
        }
    }

    /// Takes the column sizes of a grid, and pulls the selection back into its column.
    pub fn set_distribution(&mut self, tt: &TimeTable)
        requires
            old(self).wf(),
            tt.wf(),
        ensures
            final(self).wf(),
            forall|k: int| 0 <= k < 5 ==> final(self).distribution@[k] == tt.classes@[k]@.len(),
            final(self).selected_day == old(self).selected_day,
            final(self).selected_class == clamp_selection(
                old(self).selected_class,
                tt.classes@[old(self).selected_day as int]@.len() as usize,
            ),
    {
        self.distribution = [
            tt.column_len(0),
            tt.column_len(1),
            tt.column_len(2),
            tt.column_len(3),
            tt.column_len(4),
        ];
        proof {
            reveal_with_fuel(prefix_sum, 6);
        }
        let count = self.distribution[self.selected_day];
        match self.selected_class {
            Some(c) => {
                if c >= count {
                    self.selected_class = if count > 0 {
                        Some(count - 1)
                    } else {
                        None
                    };
                }
            },
            None => {},
        }
        self.index = self.flat_position();
    }
}

/// Prefix sums grow with the prefix.
pub proof fn lemma_prefix_sum_mono(d: Seq<usize>, a: int, b: int)
    requires
        0 <= a <= b,
    ensures
        prefix_sum(d, a) <= prefix_sum(d, b),
    decreases b - a,
{
    if a < b {
        lemma_prefix_sum_mono(d, a, b - 1);
    }
}

impl Default for TimeTableState {
    fn default() -> (r: TimeTableState)
        ensures
            r.wf(),
            r.selected_day == 0,
            r.selected_class is None,
            r.distribution@ == seq![0usize, 0, 0, 0, 0],
    {
        let r = TimeTableState {
            selected_day: 0,
            selected_class: None,
            distribution: [0; 5],
            index: None,
        };
        assert(r.distribution@ =~= seq![0usize, 0, 0, 0, 0]);
        proof {
            reveal_with_fuel(prefix_sum, 6);
        }
        r
    }
}

} // verus!
