use vstd::prelude::*;
use vstd::seq_lib::*;
use crate::icstime::{date_of, date_le, ics_le, ICSTime, ics_before_eq, TimeStamp};

verus! {

broadcast use vstd::seq_lib::group_seq_properties;

/// A record that starts at a point in time and sorts by a pair of time values.
pub trait Timed {
    /// When the record starts.
    spec fn start_spec(&self) -> ICSTime;

    /// When the record ends.
    spec fn end_spec(&self) -> ICSTime;

    /// The pair the record sorts by: primary and secondary time value.
    spec fn sort_key(&self) -> (ICSTime, ICSTime);

    fn start_exec(&self) -> (r: ICSTime)
        ensures
            r == self.start_spec(),
    ;

    fn end_exec(&self) -> (r: ICSTime)
        ensures
            r == self.end_spec(),
    ;

    fn sort_key_exec(&self) -> (r: (ICSTime, ICSTime))
        ensures
            r == self.sort_key(),
    ;
}

/// Order of sort keys: by the primary time value, ties broken by the secondary one.
pub open spec fn key_le(a: (ICSTime, ICSTime), b: (ICSTime, ICSTime)) -> bool {
    ics_le(a.0, b.0) && (ics_le(b.0, a.0) ==> ics_le(a.1, b.1))
}

/// Whether a time value falls on a day from `lo` to `hi`, both included.
pub open spec fn in_span(t: ICSTime, lo: (u32, u32, u32), hi: (u32, u32, u32)) -> bool {
    date_le(lo, date_of(t)) && date_le(date_of(t), hi)
}

/// Whether a sequence of records is in ascending order of sort keys.
pub open spec fn sorted_by_key<T: Timed>(s: Seq<T>) -> bool {
    forall|k: int, l: int| 0 <= k < l < s.len() ==> key_le(s[k].sort_key(), s[l].sort_key())
}

/// The records that a sequence of references points to.
pub open spec fn deref_all<T>(s: Seq<&T>) -> Seq<T> {
    s.map_values(|x: &T| *x)
}

/// The records of `s` that start on a day from `lo` to `hi`, in the order they come in.
pub open spec fn starting_within<T: Timed>(
    s: Seq<T>,
    lo: (u32, u32, u32),
    hi: (u32, u32, u32),
) -> Seq<T> {
    s.filter(|e: T| in_span(e.start_spec(), lo, hi))
}

/// Whether a record's key is equivalent to `key`: neither is greater than the other.
pub open spec fn has_key<T: Timed>(x: T, key: (ICSTime, ICSTime)) -> bool {
    key_le(x.sort_key(), key) && key_le(key, x.sort_key())
}

/// The records of `s` whose key is equivalent to `key`, in the order they come in.
pub open spec fn with_key<T: Timed>(s: Seq<T>, key: (ICSTime, ICSTime)) -> Seq<T> {
    s.filter(|x: T| has_key(x, key))
}

/// Records with equivalent keys come in `out` in the same order as in `inp`.
pub open spec fn ties_in_order<T: Timed>(out: Seq<T>, inp: Seq<T>) -> bool {
    forall|key: (ICSTime, ICSTime)| #[trigger] with_key(out, key) == with_key(inp, key)
}

/// Appending a record appends it to the records with its key and leaves the others alone.
pub proof fn lemma_with_key_push<T: Timed>(f: Seq<T>, x: T)
    ensures
        forall|key: (ICSTime, ICSTime)| #[trigger] with_key(f.push(x), key) == if has_key(x, key) {
            with_key(f, key).push(x)
        } else {
            with_key(f, key)
        },
{
    assert forall|key: (ICSTime, ICSTime)| #[trigger] with_key(f.push(x), key) == if has_key(x, key) {
        with_key(f, key).push(x)
    } else {
        with_key(f, key)
    } by {
        f.lemma_filter_push(x, |y: T| has_key(y, key));
    }
}

/// A filter keeps nothing of a sequence none of whose records passes it.
proof fn lemma_filter_none<T>(b: Seq<T>, pred: spec_fn(T) -> bool)
    requires
        forall|j: int| 0 <= j < b.len() ==> !pred(b[j]),
    ensures
        b.filter(pred) == Seq::<T>::empty(),
{
    if b.filter(pred).len() > 0 {
        let e = b.filter(pred)[0];
        b.lemma_filter_pred(pred, 0);
        assert(b.filter(pred).contains(e));
        b.lemma_filter_contains_rev(pred, e);
    }
    assert(b.filter(pred) =~= Seq::<T>::empty());
}

/// `key_le` is a total preorder.
pub proof fn lemma_key_le_total_preorder(
    a: (ICSTime, ICSTime),
    b: (ICSTime, ICSTime),
    c: (ICSTime, ICSTime),
)
    ensures
        key_le(a, a),
        key_le(a, b) || key_le(b, a),
        key_le(a, b) && key_le(b, c) ==> key_le(a, c),
{
}

fn key_before_eq(a: &(ICSTime, ICSTime), b: &(ICSTime, ICSTime)) -> (r: bool)
    ensures
        r == key_le(*a, *b),
{
    ics_before_eq(&a.0, &b.0) && (!ics_before_eq(&b.0, &a.0) || ics_before_eq(&a.1, &b.1))
}

/// Inserts `x` into a sequence sorted by key, after every record whose key is not greater.
pub fn insert_sorted<'a, T: Timed>(v: &mut Vec<&'a T>, x: &'a T)
    requires
        sorted_by_key(deref_all(old(v)@)),
    ensures
        sorted_by_key(deref_all(final(v)@)),
        deref_all(final(v)@).to_multiset() == deref_all(old(v)@).to_multiset().insert(*x),
        forall|key: (ICSTime, ICSTime)|
            #[trigger] with_key(deref_all(final(v)@), key) == if has_key(*x, key) {
                with_key(deref_all(old(v)@), key).push(*x)
            } else {
                with_key(deref_all(old(v)@), key)
            },
        final(v)@.len() == old(v)@.len() + 1,
{
    let key = x.sort_key_exec();
    let mut p: usize = 0;
    while p < v.len()
        invariant
            p <= v@.len(),
            key == x.sort_key(),
            forall|q: int| 0 <= q < p ==> key_le(v@[q].sort_key(), key),
        ensures
            p <= v@.len(),
            forall|q: int| 0 <= q < p ==> key_le(v@[q].sort_key(), key),
            p < v@.len() ==> !key_le(v@[p as int].sort_key(), key),
        decreases v@.len() - p,
    {
        let kq = v[p].sort_key_exec();
        if !key_before_eq(&kq, &key) {
            break;
        }
        p = p + 1;
    }
    proof {
        let old_r = deref_all(v@);
        let new_r = deref_all(v@.insert(p as int, x));
        assert(new_r =~= old_r.insert(p as int, *x));
        to_multiset_insert(old_r, p as int, *x);
        assert forall|k: int, l: int| 0 <= k < l < new_r.len() implies key_le(
            new_r[k].sort_key(),
            new_r[l].sort_key(),
        ) by {
            if p < old_r.len() {
                lemma_key_le_total_preorder(key, old_r[p as int].sort_key(), key);
            }
            if k < p && l > p {
                assert(new_r[l] == old_r[l - 1]);
                if l - 1 > p {
                    assert(key_le(old_r[p as int].sort_key(), old_r[l - 1].sort_key()));
                }
                lemma_key_le_total_preorder(key, old_r[p as int].sort_key(), old_r[l - 1].sort_key());
                lemma_key_le_total_preorder(new_r[k].sort_key(), key, new_r[l].sort_key());
            } else if k == p && l > p {
                assert(new_r[l] == old_r[l - 1]);
                if l - 1 > p {
                    assert(key_le(old_r[p as int].sort_key(), old_r[l - 1].sort_key()));
                }
                lemma_key_le_total_preorder(key, old_r[p as int].sort_key(), new_r[l].sort_key());
            } else if k > p {
                assert(new_r[k] == old_r[k - 1] && new_r[l] == old_r[l - 1]);
            }
        }
        let a = old_r.subrange(0, p as int);
        let b = old_r.subrange(p as int, old_r.len() as int);
        assert(old_r =~= a + b);
        assert(new_r =~= (a + seq![*x]) + b);
        assert forall|k2: (ICSTime, ICSTime)| #[trigger] with_key(new_r, k2) == if has_key(*x, k2) {
            with_key(old_r, k2).push(*x)
        } else {
            with_key(old_r, k2)
        } by {
            let pred = |y: T| has_key(y, k2);
            Seq::filter_distributes_over_add(a, b, pred);
            Seq::filter_distributes_over_add(a + seq![*x], b, pred);
            Seq::filter_distributes_over_add(a, seq![*x], pred);
            reveal_with_fuel(Seq::filter, 2);
            assert(seq![*x].drop_last() =~= Seq::<T>::empty());
            if has_key(*x, k2) {
                assert forall|j: int| 0 <= j < b.len() implies !pred(b[j]) by {
                    assert(b[j] == old_r[p + j]);
                    if j > 0 {
                        assert(key_le(old_r[p as int].sort_key(), old_r[p + j].sort_key()));
                    }
                    lemma_key_le_total_preorder(old_r[p as int].sort_key(), old_r[p + j].sort_key(), key);
                    lemma_key_le_total_preorder(old_r[p + j].sort_key(), k2, key);
                }
                lemma_filter_none(b, pred);
                assert(with_key(new_r, k2) =~= with_key(old_r, k2).push(*x));
            } else {
                assert(with_key(new_r, k2) =~= with_key(old_r, k2));
            }
        }
    }
    v.insert(p, x);
}

/// The records of `items` that start on a day from `lo` to `hi`, in ascending order of sort
/// keys.
pub fn select_sorted<'a, T: Timed>(
    items: &'a Vec<T>,
    lo: (u32, u32, u32),
    hi: (u32, u32, u32),
) -> (r: Vec<&'a T>)
    ensures
        sorted_by_key(deref_all(r@)),
        deref_all(r@).to_multiset() == starting_within(items@, lo, hi).to_multiset(),
        ties_in_order(deref_all(r@), starting_within(items@, lo, hi)),
{
    let mut r: Vec<&'a T> = Vec::new();
    let mut i: usize = 0;
    proof {
        assert(deref_all(r@) =~= Seq::<T>::empty());
        assert(items@.subrange(0, 0) =~= Seq::<T>::empty());
        lemma_filter_none(Seq::<T>::empty(), |e: T| in_span(e.start_spec(), lo, hi));
        assert forall|k2: (ICSTime, ICSTime)| #[trigger] with_key(deref_all(r@), k2) == with_key(
            starting_within(items@.subrange(0, 0), lo, hi),
            k2,
        ) by {
            lemma_filter_none(Seq::<T>::empty(), |y: T| has_key(y, k2));
        }
    }
    while i < items.len()
        invariant
            i <= items@.len(),
            sorted_by_key(deref_all(r@)),
            deref_all(r@).to_multiset() == starting_within(items@.subrange(0, i as int), lo, hi).to_multiset(),
            ties_in_order(deref_all(r@), starting_within(items@.subrange(0, i as int), lo, hi)),
        decreases items@.len() - i,
    {
        let x: &T = &items[i];
        let start = x.start_exec();
        let ghost pred = |e: T| in_span(e.start_spec(), lo, hi);
        proof {
            assert(items@.subrange(0, i + 1) =~= items@.subrange(0, i as int).push(*x));
            items@.subrange(0, i as int).lemma_filter_push(*x, pred);
            let f = starting_within(items@.subrange(0, i as int), lo, hi);
            to_multiset_build(f, *x);
            lemma_with_key_push(f, *x);
        }
        let d = (start.year, start.month, start.day);
        if crate::icstime::date_before_eq(lo, d) && crate::icstime::date_before_eq(d, hi) {
            insert_sorted(&mut r, x);
        }
        i = i + 1;
    }
    proof {
        assert(items@.subrange(0, items@.len() as int) =~= items@);
    }
    r
}

/// Whether the time of day of `t` is no later than `now`.
pub open spec fn at_or_before(t: ICSTime, now: TimeStamp) -> bool {
    t.hour < now.h || (t.hour == now.h && t.min <= now.m)
}

/// Whether the time of day of `t` is no earlier than `now`.
pub open spec fn at_or_after(t: ICSTime, now: TimeStamp) -> bool {
    t.hour > now.h || (t.hour == now.h && t.min >= now.m)
}

/// Whether `now` lies within the times of day of a record's start and end, both included.
pub open spec fn ongoing_at<T: Timed>(e: T, now: TimeStamp) -> bool {
    at_or_before(e.start_spec(), now) && at_or_after(e.end_spec(), now)
}

/// The position of the first record whose time-of-day interval holds `now`, if any.
pub fn index_of_ongoing<T: Timed>(items: &Vec<&T>, now: TimeStamp) -> (r: Option<usize>)
    ensures
        r is None <==> forall|i: int| 0 <= i < items@.len() ==> !ongoing_at(*items@[i], now),
        r matches Some(i) ==> {
            &&& i < items@.len()
            &&& ongoing_at(*items@[i as int], now)
            &&& forall|j: int| 0 <= j < i ==> !ongoing_at(*items@[j], now)
        },
{
    let mut i: usize = 0;
    while i < items.len()
        invariant
            i <= items@.len(),
            forall|j: int| 0 <= j < i ==> !ongoing_at(*items@[j], now),
        decreases items@.len() - i,
    {
        let s = items[i].start_exec();
        let e = items[i].end_exec();
        let after_start = s.hour < now.h || (s.hour == now.h && s.min <= now.m);
        let before_end = e.hour > now.h || (e.hour == now.h && e.min >= now.m);
        if after_start && before_end {
            return Some(i);
        }
        i = i + 1;
    }
    None
}

} // verus!
