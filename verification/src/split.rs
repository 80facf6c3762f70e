//! Splitting a time-ordered dataset, at an instant or into windows of one
//! duration.
//!
//! [`QcSplit`] is the contract that a dataset type meets; [`Timeline`] is a
//! plain dataset that meets it.

use crate::time::{Duration, Epoch};
use vstd::arithmetic::div_mod::{lemma_div_is_ordered, lemma_fundamental_div_mod, lemma_mod_bound};
use vstd::prelude::*;
use vstd::seq_lib::{lemma_flatten_concat, to_multiset_build};

verus! {

/// The instant that record number `i` was taken at, in nanoseconds of TAI.
pub open spec fn instant_at<R>(records: Seq<(Epoch, R)>, i: int) -> int {
    records[i].0.tai_nanoseconds as int
}

/// The records taken at `t` or before, in their order.
pub open spec fn not_after<R>(records: Seq<(Epoch, R)>, t: Epoch) -> Seq<(Epoch, R)> {
    records.filter(|r: (Epoch, R)| r.0.tai_nanoseconds <= t.tai_nanoseconds)
}

/// The records taken after `t`, in their order.
pub open spec fn later_than<R>(records: Seq<(Epoch, R)>, t: Epoch) -> Seq<(Epoch, R)> {
    records.filter(|r: (Epoch, R)| r.0.tai_nanoseconds > t.tai_nanoseconds)
}

/// No record is taken before one that precedes it.
pub open spec fn is_time_ordered<R>(records: Seq<(Epoch, R)>) -> bool {
    forall|i: int, j: int|
        0 <= i <= j < records.len() ==> #[trigger] instant_at(records, i) <= #[trigger] instant_at(
            records,
            j,
        )
}

/// The number of the window that the instant `e` falls in, when windows of
/// duration `dt` are laid out from the instant `first` on.
///
/// Window number `k` ends at `first + (k + 1) * dt` and holds that instant;
/// it starts where the window before it ended. The first window holds
/// `first` as well.
pub open spec fn window_index(e: Epoch, first: Epoch, dt: Duration) -> int {
    if e.tai_nanoseconds <= first.tai_nanoseconds {
        0
    } else {
        (e.tai_nanoseconds - first.tai_nanoseconds - 1) / (dt.nanoseconds as int)
    }
}

/// The number of the window that record number `i` falls in.
pub open spec fn window_at<R>(records: Seq<(Epoch, R)>, i: int, first: Epoch, dt: Duration) -> int {
    window_index(records[i].0, first, dt)
}

/// The records of `window` are some, and all fall in one window.
pub open spec fn in_one_window<R>(window: Seq<(Epoch, R)>, first: Epoch, dt: Duration) -> bool {
    &&& window.len() > 0
    &&& forall|i: int|
        0 <= i < window.len() ==> #[trigger] window_at(window, i, first, dt) == window_at(
            window,
            0,
            first,
            dt,
        )
}

/// The number of the window that the records of `windows[k]` fall in.
pub open spec fn window_number<R>(
    windows: Seq<Seq<(Epoch, R)>>,
    k: int,
    first: Epoch,
    dt: Duration,
) -> int {
    window_at(windows[k], 0, first, dt)
}

/// Each of the `windows` holds the records of one window, and later windows
/// come later.
pub open spec fn are_successive_windows<R>(
    windows: Seq<Seq<(Epoch, R)>>,
    first: Epoch,
    dt: Duration,
) -> bool {
    &&& forall|k: int| 0 <= k < windows.len() ==> in_one_window(#[trigger] windows[k], first, dt)
    &&& forall|j: int, k: int|
        0 <= j < k < windows.len() ==> #[trigger] window_number(windows, j, first, dt)
            < #[trigger] window_number(windows, k, first, dt)
}

/// `windows` is what `records` gives when cut into windows of duration `dt`
/// that are laid out from the first record on: put end to end the windows
/// give the records back, each holds the records of one window, and later
/// windows come later. Windows that would hold no record are left out.
pub open spec fn is_even_split<R>(
    records: Seq<(Epoch, R)>,
    dt: Duration,
    windows: Seq<Seq<(Epoch, R)>>,
) -> bool {
    &&& windows.flatten() == records
    &&& are_successive_windows(windows, records[0].0, dt)
}

/// Implement [`QcSplit`] to rearrange datasets timewise.
pub trait QcSplit: Sized {
    /// What the dataset holds for each instant.
    type Record;

    /// The records of the dataset with the instant each was taken at, in the
    /// order the dataset holds them.
    spec fn records(&self) -> Seq<(Epoch, Self::Record)>;

    /// A clone holds the records of the dataset it was made from.
    proof fn lemma_clone_keeps_records(&self, copy: &Self) where Self: Clone
        requires
            cloned::<Self>(*self, *copy),
        ensures
            copy.records() == self.records(),
    ;

    /// Splits the dataset at `t`: keeps what was taken at `t` or before, and
    /// returns what was taken after `t`.
    fn split_mut(&mut self, t: Epoch) -> (after: Self)
        ensures
            final(self).records() == not_after(old(self).records(), t),
            after.records() == later_than(old(self).records(), t),
    ;

    /// Splits the dataset into batches of equal duration `dt`, laid out from
    /// its first record on. A batch that would hold no record is left out.
    /// A duration that is not positive gives no batch at all.
    ///
    /// The batches are promised of a dataset that is time-ordered. What a
    /// dataset in disorder gives is for its type to say.
    fn split_even_dt(&self, dt: Duration) -> (batches: Vec<Self>)
        ensures
            dt.nanoseconds <= 0 ==> batches@.len() == 0,
            dt.nanoseconds > 0 && is_time_ordered(self.records()) ==> is_even_split(
                self.records(),
                dt,
                batches@.map_values(|batch: Self| batch.records()),
            ),
    ;

    /// Splits the dataset in two at `t`, and leaves it as it is: returns
    /// what was taken at `t` or before, then what was taken after `t`.
    fn split(&self, t: Epoch) -> (parts: (Self, Self)) where Self: Sized + Clone
        ensures
            parts.0.records() == not_after(self.records(), t),
            parts.1.records() == later_than(self.records(), t),
    {
        let mut s = self.clone();
        proof {
            self.lemma_clone_keeps_records(&s);
        }
        let rhs = s.split_mut(t);
        (s, rhs)
    }
}

/// Splitting at an instant parts the records in two: what stays was taken
/// at the instant or before, what leaves was taken after it, and every
/// record is in one of the two parts, as often as it was in the dataset.
/// Where the dataset is time-ordered, what stays is its front and what
/// leaves is its back, and both are time-ordered.
pub proof fn lemma_split_partitions<R>(records: Seq<(Epoch, R)>, t: Epoch)
    ensures
        forall|i: int|
            0 <= i < not_after(records, t).len() ==> #[trigger] instant_at(
                not_after(records, t),
                i,
            ) <= t.tai_nanoseconds,
        forall|i: int|
            0 <= i < later_than(records, t).len() ==> #[trigger] instant_at(
                later_than(records, t),
                i,
            ) > t.tai_nanoseconds,
        not_after(records, t).to_multiset().add(later_than(records, t).to_multiset())
            == records.to_multiset(),
        is_time_ordered(records) ==> not_after(records, t) == records.take(
            not_after(records, t).len() as int,
        ) && later_than(records, t) == records.skip(not_after(records, t).len() as int),
        is_time_ordered(records) ==> is_time_ordered(not_after(records, t)) && is_time_ordered(
            later_than(records, t),
        ),
{
    let kept = not_after(records, t);
    let left = later_than(records, t);
    assert forall|i: int| 0 <= i < kept.len() implies #[trigger] instant_at(kept, i)
        <= t.tai_nanoseconds by {
        records.lemma_filter_pred(
            |r: (Epoch, R)| r.0.tai_nanoseconds <= t.tai_nanoseconds,
            i,
        );
    }
    assert forall|i: int| 0 <= i < left.len() implies #[trigger] instant_at(left, i)
        > t.tai_nanoseconds by {
        records.lemma_filter_pred(|r: (Epoch, R)| r.0.tai_nanoseconds > t.tai_nanoseconds, i);
    }
    lemma_split_keeps_all(records, t);
    if is_time_ordered(records) {
        lemma_split_in_order(records, t);
    }
}

/// A dataset without records splits into two such datasets.
proof fn lemma_split_of_nothing<R>(t: Epoch)
    ensures
        not_after(Seq::<(Epoch, R)>::empty(), t) == Seq::<(Epoch, R)>::empty(),
        later_than(Seq::<(Epoch, R)>::empty(), t) == Seq::<(Epoch, R)>::empty(),
{
    reveal(Seq::filter);
}

/// What a split makes of a dataset with one more record at its end: the
/// record goes to the part it belongs to.
proof fn lemma_split_of_push<R>(rest: Seq<(Epoch, R)>, last: (Epoch, R), t: Epoch)
    ensures
        last.0.tai_nanoseconds <= t.tai_nanoseconds ==> not_after(rest.push(last), t) == not_after(
            rest,
            t,
        ).push(last) && later_than(rest.push(last), t) == later_than(rest, t),
        last.0.tai_nanoseconds > t.tai_nanoseconds ==> not_after(rest.push(last), t) == not_after(
            rest,
            t,
        ) && later_than(rest.push(last), t) == later_than(rest, t).push(last),
{
    rest.lemma_filter_push(last, |r: (Epoch, R)| r.0.tai_nanoseconds <= t.tai_nanoseconds);
    rest.lemma_filter_push(last, |r: (Epoch, R)| r.0.tai_nanoseconds > t.tai_nanoseconds);
}

/// Every record is in one of the two parts of a split, as often as it was in
/// the dataset.
proof fn lemma_split_keeps_all<R>(records: Seq<(Epoch, R)>, t: Epoch)
    ensures
        not_after(records, t).to_multiset().add(later_than(records, t).to_multiset())
            == records.to_multiset(),
    decreases records.len(),
{
    let kept = not_after(records, t);
    let left = later_than(records, t);
    if records.len() == 0 {
        assert(records =~= Seq::<(Epoch, R)>::empty());
        lemma_split_of_nothing::<R>(t);
        records.to_multiset_ensures();
        assert(kept.to_multiset().add(left.to_multiset()) =~= records.to_multiset());
    } else {
        let rest = records.drop_last();
        let last = records.last();
        assert(records =~= rest.push(last));
        lemma_split_keeps_all(rest, t);
        lemma_split_of_push(rest, last, t);
        to_multiset_build(rest, last);
        to_multiset_build(not_after(rest, t), last);
        to_multiset_build(later_than(rest, t), last);
        assert(kept.to_multiset().add(left.to_multiset()) =~= records.to_multiset());
    }
}

/// Where no record was taken after an instant, a split at it keeps them
/// all.
proof fn lemma_split_keeps_early<R>(records: Seq<(Epoch, R)>, t: Epoch)
    requires
        forall|i: int|
            0 <= i < records.len() ==> #[trigger] instant_at(records, i) <= t.tai_nanoseconds,
    ensures
        not_after(records, t) == records,
        later_than(records, t) == Seq::<(Epoch, R)>::empty(),
    decreases records.len(),
{
    if records.len() == 0 {
        assert(records =~= Seq::<(Epoch, R)>::empty());
        lemma_split_of_nothing::<R>(t);
    } else {
        let rest = records.drop_last();
        let last = records.last();
        assert(records =~= rest.push(last));
        assert forall|i: int| 0 <= i < rest.len() implies #[trigger] instant_at(rest, i)
            <= t.tai_nanoseconds by {
            assert(instant_at(records, i) <= t.tai_nanoseconds);
        }
        assert(instant_at(records, records.len() - 1) <= t.tai_nanoseconds);
        lemma_split_keeps_early(rest, t);
        lemma_split_of_push(rest, last, t);
    }
}

/// In a time-ordered dataset, what was taken at an instant or before is the
/// front of the dataset, and what was taken after it is the back.
proof fn lemma_split_in_order<R>(records: Seq<(Epoch, R)>, t: Epoch)
    requires
        is_time_ordered(records),
    ensures
        not_after(records, t) == records.take(not_after(records, t).len() as int),
        later_than(records, t) == records.skip(not_after(records, t).len() as int),
        not_after(records, t).len() <= records.len(),
        is_time_ordered(not_after(records, t)),
        is_time_ordered(later_than(records, t)),
    decreases records.len(),
{
    if records.len() == 0 || records.last().0.tai_nanoseconds <= t.tai_nanoseconds {
        // The last record was not taken after `t`, so none was.
        assert forall|i: int| 0 <= i < records.len() implies #[trigger] instant_at(records, i)
            <= t.tai_nanoseconds by {
            assert(instant_at(records, i) <= instant_at(records, records.len() - 1));
        }
        lemma_split_keeps_early(records, t);
        assert(records.take(records.len() as int) =~= records);
        assert(records.skip(records.len() as int) =~= Seq::<(Epoch, R)>::empty());
    } else {
        let rest = records.drop_last();
        let last = records.last();
        lemma_range_is_time_ordered(records, 0, records.len() - 1);
        lemma_split_in_order(rest, t);
        assert(records =~= rest.push(last));
        lemma_split_of_push(rest, last, t);
        let cut = not_after(rest, t).len() as int;
        assert(records.take(cut) =~= rest.take(cut));
        assert(records.skip(cut) =~= rest.skip(cut).push(last));
    }
    let cut = not_after(records, t).len() as int;
    lemma_range_is_time_ordered(records, 0, cut);
    lemma_range_is_time_ordered(records, cut, records.len() as int);
}

/// A run of records of a time-ordered dataset is time-ordered.
proof fn lemma_range_is_time_ordered<R>(records: Seq<(Epoch, R)>, lo: int, hi: int)
    requires
        is_time_ordered(records),
        0 <= lo <= hi <= records.len(),
    ensures
        is_time_ordered(records.subrange(lo, hi)),
{
    let run = records.subrange(lo, hi);
    assert forall|i: int, j: int| 0 <= i <= j < run.len() implies #[trigger] instant_at(run, i)
        <= #[trigger] instant_at(run, j) by {
        assert(instant_at(records, lo + i) <= instant_at(records, lo + j));
    }
}

/// What stands at the end of a time-ordered dataset is time-ordered.
proof fn lemma_back_is_time_ordered<R>(
    records: Seq<(Epoch, R)>,
    front: Seq<(Epoch, R)>,
    back: Seq<(Epoch, R)>,
)
    requires
        is_time_ordered(records),
        front + back == records,
    ensures
        is_time_ordered(back),
{
    assert(records.subrange(front.len() as int, records.len() as int) =~= back);
    lemma_range_is_time_ordered(records, front.len() as int, records.len() as int);
}

/// A later instant falls in no earlier window.
pub proof fn lemma_window_index_ordered(a: Epoch, b: Epoch, first: Epoch, dt: Duration)
    requires
        dt.nanoseconds > 0,
        a.tai_nanoseconds <= b.tai_nanoseconds,
    ensures
        0 <= window_index(a, first, dt) <= window_index(b, first, dt),
{
    let d = dt.nanoseconds as int;
    if a.tai_nanoseconds > first.tai_nanoseconds {
        lemma_div_is_ordered(
            a.tai_nanoseconds - first.tai_nanoseconds - 1,
            b.tai_nanoseconds - first.tai_nanoseconds - 1,
            d,
        );
        lemma_div_is_ordered(0, a.tai_nanoseconds - first.tai_nanoseconds - 1, d);
    } else if b.tai_nanoseconds > first.tai_nanoseconds {
        lemma_div_is_ordered(0, b.tai_nanoseconds - first.tai_nanoseconds - 1, d);
    }
}

/// An instant that is not before the instant the windows are laid out from
/// lies between the start of its window and its end; beyond the start,
/// unless the window is the first.
pub proof fn lemma_window_bounds(e: Epoch, first: Epoch, dt: Duration)
    requires
        dt.nanoseconds > 0,
        first.tai_nanoseconds <= e.tai_nanoseconds,
    ensures
        window_index(e, first, dt) * dt.nanoseconds <= e.tai_nanoseconds - first.tai_nanoseconds
            <= (window_index(e, first, dt) + 1) * dt.nanoseconds,
        window_index(e, first, dt) > 0 ==> window_index(e, first, dt) * dt.nanoseconds
            < e.tai_nanoseconds - first.tai_nanoseconds,
{
    let d = dt.nanoseconds as int;
    let k = window_index(e, first, dt);
    if e.tai_nanoseconds > first.tai_nanoseconds {
        let x = e.tai_nanoseconds - first.tai_nanoseconds - 1;
        lemma_fundamental_div_mod(x, d);
        lemma_mod_bound(x, d);
        assert(d * k + d == (k + 1) * d) by (nonlinear_arith);
        assert(d * k == k * d) by (nonlinear_arith);
    } else {
        assert(0 * d == 0) by (nonlinear_arith);
        assert((0 + 1) * d == d) by (nonlinear_arith);
    }
}

/// Two instants of one window, neither before the instant the windows are
/// laid out from, are no further apart than the windows are long.
pub proof fn lemma_window_span(a: Epoch, b: Epoch, first: Epoch, dt: Duration)
    requires
        dt.nanoseconds > 0,
        first.tai_nanoseconds <= a.tai_nanoseconds,
        first.tai_nanoseconds <= b.tai_nanoseconds,
        window_index(a, first, dt) == window_index(b, first, dt),
    ensures
        a.tai_nanoseconds - b.tai_nanoseconds <= dt.nanoseconds,
        b.tai_nanoseconds - a.tai_nanoseconds <= dt.nanoseconds,
{
    let d = dt.nanoseconds as int;
    let k = window_index(a, first, dt);
    lemma_window_bounds(a, first, dt);
    lemma_window_bounds(b, first, dt);
    assert(k * d + d == (k + 1) * d) by (nonlinear_arith);
}

/// Where a record of a window stands among the records that the windows
/// give when put end to end.
proof fn lemma_flatten_index<A>(windows: Seq<Seq<A>>, k: int, i: int)
    requires
        0 <= k < windows.len(),
        0 <= i < windows[k].len(),
    ensures
        windows.take(k).flatten().len() + windows[k].len() == windows.take(k + 1).flatten().len(),
        windows.take(k + 1).flatten().len() <= windows.flatten().len(),
        windows.flatten()[windows.take(k).flatten().len() + i] == windows[k][i],
{
    let before = windows.take(k);
    let upto = windows.take(k + 1);
    let behind = windows.skip(k + 1);
    assert(upto =~= before.push(windows[k]));
    before.lemma_flatten_push(windows[k]);
    assert(windows =~= upto + behind);
    lemma_flatten_concat(upto, behind);
}

/// Windows further on start further on among the records.
proof fn lemma_flatten_offsets<A>(windows: Seq<Seq<A>>, j: int, k: int)
    requires
        0 <= j <= k <= windows.len(),
    ensures
        windows.take(j).flatten().len() <= windows.take(k).flatten().len(),
{
    let front = windows.take(j);
    let middle = windows.subrange(j, k);
    assert(windows.take(k) =~= front + middle);
    lemma_flatten_concat(front, middle);
}

/// Two records of the windows stand among the records of the dataset as the
/// windows say: a record of an earlier window, or an earlier record of one
/// window, was not taken later.
proof fn lemma_windows_keep_order<R>(
    records: Seq<(Epoch, R)>,
    windows: Seq<Seq<(Epoch, R)>>,
    j: int,
    a: int,
    k: int,
    b: int,
)
    requires
        is_time_ordered(records),
        windows.flatten() == records,
        0 <= j <= k < windows.len(),
        0 <= a < windows[j].len(),
        0 <= b < windows[k].len(),
        j == k ==> a <= b,
    ensures
        instant_at(windows[j], a) <= instant_at(windows[k], b),
        instant_at(records, 0) <= instant_at(windows[j], a),
{
    lemma_flatten_index(windows, j, a);
    lemma_flatten_index(windows, k, b);
    if j < k {
        lemma_flatten_offsets(windows, j + 1, k);
    }
    let p = windows.take(j).flatten().len() + a;
    let q = windows.take(k).flatten().len() + b;
    assert(instant_at(records, p) <= instant_at(records, q));
    assert(instant_at(records, 0) <= instant_at(records, p));
}

/// Cutting a time-ordered dataset into windows of a positive duration `dt`
/// gives windows that hold the whole dataset in its order, each of them
/// time-ordered and spanning no more than `dt`, and each over before the one
/// behind it starts. Only the last window may be cut short: behind any other
/// the dataset goes on beyond the end of the `dt` that the window stands for.
pub proof fn lemma_even_split_covers<R>(
    records: Seq<(Epoch, R)>,
    dt: Duration,
    windows: Seq<Seq<(Epoch, R)>>,
)
    requires
        dt.nanoseconds > 0,
        is_time_ordered(records),
        is_even_split(records, dt, windows),
    ensures
        windows.flatten() == records,
        records.len() == 0 <==> windows.len() == 0,
        forall|k: int| 0 <= k < windows.len() ==> is_time_ordered(#[trigger] windows[k]),
        forall|k: int, i: int, j: int|
            0 <= k < windows.len() && 0 <= i < windows[k].len() && 0 <= j < windows[k].len()
                ==> #[trigger] instant_at(windows[k], i) - #[trigger] instant_at(windows[k], j)
                <= dt.nanoseconds,
        forall|j: int, k: int, a: int, b: int|
            0 <= j < k < windows.len() && 0 <= a < windows[j].len() && 0 <= b < windows[k].len()
                ==> #[trigger] instant_at(windows[j], a) < #[trigger] instant_at(windows[k], b),
        forall|j: int, k: int|
            #![trigger window_number(windows, j, records[0].0, dt), windows[k]]
            0 <= j < k < windows.len() ==> (window_number(windows, j, records[0].0, dt) + 1)
                * dt.nanoseconds < instant_at(windows[k], 0) - instant_at(records, 0),
{
    let first = records[0].0;
    if windows.len() > 0 {
        assert(in_one_window(windows[0], first, dt));
        lemma_flatten_index(windows, 0, 0);
    }
    assert forall|k: int| 0 <= k < windows.len() implies is_time_ordered(#[trigger] windows[k]) by {
        let w = windows[k];
        assert(in_one_window(w, first, dt));
        assert forall|i: int, j: int| 0 <= i <= j < w.len() implies #[trigger] instant_at(w, i)
            <= #[trigger] instant_at(w, j) by {
            lemma_windows_keep_order(records, windows, k, i, k, j);
        }
    }
    assert forall|k: int, i: int, j: int|
        0 <= k < windows.len() && 0 <= i < windows[k].len() && 0 <= j
            < windows[k].len() implies #[trigger] instant_at(windows[k], i) - #[trigger] instant_at(
        windows[k],
        j,
    ) <= dt.nanoseconds by {
        let w = windows[k];
        assert(in_one_window(w, first, dt));
        assert(window_at(w, i, first, dt) == window_at(w, 0, first, dt));
        assert(window_at(w, j, first, dt) == window_at(w, 0, first, dt));
        lemma_windows_keep_order(records, windows, k, i, k, i);
        lemma_windows_keep_order(records, windows, k, j, k, j);
        lemma_window_span(w[i].0, w[j].0, first, dt);
    }
    assert forall|j: int, k: int, a: int, b: int|
        0 <= j < k < windows.len() && 0 <= a < windows[j].len() && 0 <= b
            < windows[k].len() implies #[trigger] instant_at(windows[j], a) < #[trigger] instant_at(
        windows[k],
        b,
    ) by {
        lemma_windows_keep_order(records, windows, j, a, k, b);
        assert(in_one_window(windows[j], first, dt));
        assert(in_one_window(windows[k], first, dt));
        assert(window_at(windows[j], a, first, dt) == window_at(windows[j], 0, first, dt));
        assert(window_at(windows[k], b, first, dt) == window_at(windows[k], 0, first, dt));
        assert(window_number(windows, j, first, dt) < window_number(windows, k, first, dt));
    }
    assert forall|j: int, k: int|
        #![trigger window_number(windows, j, first, dt), windows[k]]
        0 <= j < k < windows.len() implies (window_number(windows, j, first, dt) + 1)
            * dt.nanoseconds < instant_at(windows[k], 0) - instant_at(records, 0) by {
        let m = window_number(windows, j, first, dt);
        let n = window_number(windows, k, first, dt);
        let d = dt.nanoseconds as int;
        assert(in_one_window(windows[j], first, dt));
        assert(in_one_window(windows[k], first, dt));
        lemma_windows_keep_order(records, windows, j, 0, k, 0);
        lemma_window_index_ordered(first, windows[j][0].0, first, dt);
        lemma_window_bounds(windows[k][0].0, first, dt);
        assert((m + 1) * d <= n * d) by (nonlinear_arith)
            requires
                m + 1 <= n,
                d > 0,
        ;
    }
}

/// The windows behind the first are successive windows themselves.
proof fn lemma_rest_of_windows<R>(windows: Seq<Seq<(Epoch, R)>>, first: Epoch, dt: Duration)
    requires
        are_successive_windows(windows, first, dt),
        windows.len() > 0,
    ensures
        are_successive_windows(windows.drop_first(), first, dt),
        windows.flatten() == windows[0] + windows.drop_first().flatten(),
{
    let rest = windows.drop_first();
    assert forall|k: int| 0 <= k < rest.len() implies in_one_window(#[trigger] rest[k], first, dt) by {
        assert(rest[k] == windows[k + 1]);
    }
    assert forall|j: int, k: int| 0 <= j < k < rest.len() implies #[trigger] window_number(
        rest,
        j,
        first,
        dt,
    ) < #[trigger] window_number(rest, k, first, dt) by {
        assert(rest[j] == windows[j + 1] && rest[k] == windows[k + 1]);
        assert(window_number(windows, j + 1, first, dt) < window_number(
            windows,
            k + 1,
            first,
            dt,
        ));
    }
}

/// Of two ways to cut the same records into successive windows, neither has
/// a shorter first window than the other.
proof fn lemma_first_window_is_no_shorter<R>(
    a: Seq<Seq<(Epoch, R)>>,
    b: Seq<Seq<(Epoch, R)>>,
    first: Epoch,
    dt: Duration,
)
    requires
        are_successive_windows(a, first, dt),
        are_successive_windows(b, first, dt),
        a.flatten() == b.flatten(),
        a.len() > 0,
        b.len() > 0,
    ensures
        a[0].len() >= b[0].len(),
{
    if a[0].len() < b[0].len() {
        let cut = a[0].len() as int;
        let rest = a.drop_first();
        lemma_rest_of_windows(a, first, dt);
        lemma_rest_of_windows(b, first, dt);
        assert(in_one_window(a[0], first, dt));
        assert(in_one_window(b[0], first, dt));
        // The record behind the first window of `a` opens its second
        // window, and is in the first window of `b`.
        let whole = a.flatten();
        assert(whole.len() >= b[0].len());
        assert(rest.flatten().len() > 0);
        assert(rest.len() > 0);
        lemma_rest_of_windows(rest, first, dt);
        assert(in_one_window(rest[0], first, dt));
        assert(rest[0] == a[1]);
        assert(whole[cut] == a[1][0]);
        assert(whole[cut] == b[0][cut]);
        assert(whole[0] == a[0][0] && whole[0] == b[0][0]);
        assert(window_at(b[0], cut, first, dt) == window_at(b[0], 0, first, dt));
        assert(window_number(a, 0, first, dt) < window_number(a, 1, first, dt));
    }
}

/// There is one way only to cut records into successive windows.
pub proof fn lemma_windows_are_unique<R>(
    a: Seq<Seq<(Epoch, R)>>,
    b: Seq<Seq<(Epoch, R)>>,
    first: Epoch,
    dt: Duration,
)
    requires
        are_successive_windows(a, first, dt),
        are_successive_windows(b, first, dt),
        a.flatten() == b.flatten(),
    ensures
        a == b,
    decreases a.len(),
{
    if a.len() == 0 || b.len() == 0 {
        // Windows hold records: without records there is no window.
        if a.len() > 0 {
            lemma_rest_of_windows(a, first, dt);
            assert(in_one_window(a[0], first, dt));
            assert(a.flatten().len() >= a[0].len());
            assert(b.flatten() =~= Seq::<(Epoch, R)>::empty());
        }
        if b.len() > 0 {
            lemma_rest_of_windows(b, first, dt);
            assert(in_one_window(b[0], first, dt));
            assert(b.flatten().len() >= b[0].len());
            assert(a.flatten() =~= Seq::<(Epoch, R)>::empty());
        }
        assert(a =~= b);
    } else {
        lemma_first_window_is_no_shorter(a, b, first, dt);
        lemma_first_window_is_no_shorter(b, a, first, dt);
        lemma_rest_of_windows(a, first, dt);
        lemma_rest_of_windows(b, first, dt);
        let whole = a.flatten();
        let cut = a[0].len() as int;
        assert(a[0] =~= whole.take(cut));
        assert(b[0] =~= whole.take(cut));
        assert(a.drop_first().flatten() =~= whole.skip(cut));
        assert(b.drop_first().flatten() =~= whole.skip(cut));
        lemma_windows_are_unique(a.drop_first(), b.drop_first(), first, dt);
        assert(a =~= b) by {
            assert forall|k: int| 0 <= k < a.len() implies a[k] == b[k] by {
                if k > 0 {
                    assert(a.drop_first()[k - 1] == a[k]);
                    assert(b.drop_first()[k - 1] == b[k]);
                }
            }
        }
    }
}

/// A dataset is cut into windows of one duration in one way only.
pub proof fn lemma_even_split_is_unique<R>(
    records: Seq<(Epoch, R)>,
    dt: Duration,
    a: Seq<Seq<(Epoch, R)>>,
    b: Seq<Seq<(Epoch, R)>>,
)
    requires
        is_even_split(records, dt, a),
        is_even_split(records, dt, b),
    ensures
        a == b,
{
    lemma_windows_are_unique(a, b, records[0].0, dt);
}

/// A window that falls behind all of the windows before it may follow them.
proof fn lemma_window_closes<R>(
    windows: Seq<Seq<(Epoch, R)>>,
    window: Seq<(Epoch, R)>,
    first: Epoch,
    dt: Duration,
)
    requires
        are_successive_windows(windows, first, dt),
        in_one_window(window, first, dt),
        windows.len() > 0 ==> window_number(windows, windows.len() - 1, first, dt) < window_at(
            window,
            0,
            first,
            dt,
        ),
    ensures
        are_successive_windows(windows.push(window), first, dt),
        window_number(windows.push(window), windows.len() as int, first, dt) == window_at(
            window,
            0,
            first,
            dt,
        ),
        windows.push(window).flatten() == windows.flatten() + window,
{
    let closed = windows.push(window);
    let last = windows.len() - 1;
    windows.lemma_flatten_push(window);
    assert forall|k: int| 0 <= k < closed.len() implies in_one_window(
        #[trigger] closed[k],
        first,
        dt,
    ) by {
        if k < windows.len() {
            assert(closed[k] == windows[k]);
        }
    }
    assert forall|j: int, k: int| 0 <= j < k < closed.len() implies #[trigger] window_number(
        closed,
        j,
        first,
        dt,
    ) < #[trigger] window_number(closed, k, first, dt) by {
        assert(closed[j] == windows[j]);
        if k < windows.len() {
            assert(closed[k] == windows[k]);
            assert(window_number(windows, j, first, dt) < window_number(windows, k, first, dt));
        } else if j < last {
            assert(window_number(windows, j, first, dt) < window_number(
                windows,
                last,
                first,
                dt,
            ));
        }
    }
}

/// A dataset of values, each with the instant it was taken at, in the order
/// of their instants.
#[derive(Debug, PartialEq, Eq)]
pub struct Timeline<T: Copy> {
    samples: Vec<(Epoch, T)>,
}

impl<T: Copy> View for Timeline<T> {
    type V = Seq<(Epoch, T)>;

    closed spec fn view(&self) -> Seq<(Epoch, T)> {
        self.samples@
    }
}

/// How far `b` lies after `a`.
fn distance(a: i128, b: i128) -> (d: u128)
    requires
        a <= b,
    ensures
        d == b - a,
{
    if a >= 0 || b < 0 {
        (b - a) as u128
    } else {
        (b as u128) + ((-(a + 1)) as u128) + 1
    }
}

/// The number of the window that `e` falls in.
fn window_of(e: Epoch, first: Epoch, dt: Duration) -> (k: u128)
    requires
        dt.nanoseconds > 0,
        first.tai_nanoseconds <= e.tai_nanoseconds,
    ensures
        k == window_index(e, first, dt),
{
    if e.tai_nanoseconds == first.tai_nanoseconds {
        0
    } else {
        let offset = distance(first.tai_nanoseconds, e.tai_nanoseconds);
        (offset - 1) / (dt.nanoseconds as u128)
    }
}

impl<T: Copy> Timeline<T> {
    /// The samples stand in the order of their instants.
    #[verifier::type_invariant]
    spec fn in_order(&self) -> bool {
        is_time_ordered(self.samples@)
    }

    /// A timeline without samples.
    pub fn new() -> (r: Timeline<T>)
        ensures
            r@ == Seq::<(Epoch, T)>::empty(),
    {
        Timeline { samples: Vec::new() }
    }

    /// The number of samples.
    pub fn len(&self) -> (n: usize)
        ensures
            n == self@.len(),
    {
        self.samples.len()
    }

    /// The samples, in the order of their instants.
    pub fn samples(&self) -> (r: &Vec<(Epoch, T)>)
        ensures
            r@ == self@,
            is_time_ordered(self@),
    {
        proof {
            use_type_invariant(self);
        }
        &self.samples
    }

    /// Adds a sample at the end, unless it was taken before the last one:
    /// then the timeline stays as it is. Says whether the sample was added.
    pub fn push(&mut self, epoch: Epoch, value: T) -> (added: bool)
        ensures
            added == (old(self)@.len() == 0 || old(self)@.last().0.tai_nanoseconds
                <= epoch.tai_nanoseconds),
            final(self)@ == if added {
                old(self)@.push((epoch, value))
            } else {
                old(self)@
            },
            is_time_ordered(final(self)@),
    {
        proof {
            use_type_invariant(&*self);
        }
        let n = self.samples.len();
        if n > 0 && self.samples[n - 1].0.tai_nanoseconds > epoch.tai_nanoseconds {
            return false;
        }
        // The samples leave the timeline while they grow, so that it is in
        // order at every moment.
        let mut samples: Vec<(Epoch, T)> = Vec::new();
        core::mem::swap(&mut self.samples, &mut samples);
        let ghost before = samples@;
        samples.push((epoch, value));
        proof {
            assert forall|i: int, j: int| 0 <= i <= j < samples@.len() implies #[trigger] instant_at(
                samples@,
                i,
            ) <= #[trigger] instant_at(samples@, j) by {
                if j < n {
                    assert(instant_at(before, i) <= instant_at(before, j));
                } else if i < n {
                    assert(instant_at(before, i) <= instant_at(before, n - 1));
                }
            }
        }
        self.samples = samples;
        true
    }
}

impl<T: Copy> Clone for Timeline<T> {
    fn clone(&self) -> (copy: Timeline<T>)
        ensures
            copy@ == self@,
    {
        let n = self.samples.len();
        let mut samples: Vec<(Epoch, T)> = Vec::new();
        let mut i: usize = 0;
        while i < n
            invariant
                i <= n,
                n == self.samples@.len(),
                samples@ == self.samples@.take(i as int),
            decreases n - i,
        {
            samples.push(self.samples[i]);
            proof {
                assert(samples@ =~= self.samples@.take(i + 1));
            }
            i += 1;
        }
        proof {
            assert(self.samples@.take(n as int) =~= self.samples@);
            use_type_invariant(self);
        }
        Timeline { samples }
    }
}

impl<T: Copy> QcSplit for Timeline<T> {
    type Record = T;

    open spec fn records(&self) -> Seq<(Epoch, T)> {
        self@
    }

    proof fn lemma_clone_keeps_records(&self, copy: &Self) {
        if vstd::pervasive::strictly_cloned(*self, *copy) {
            assert(call_ensures(Timeline::<T>::clone, (self,), *copy));
        }
    }

    fn split_mut(&mut self, t: Epoch) -> (after: Timeline<T>)
        ensures
            is_time_ordered(old(self)@),
    {
        let n = self.samples.len();
        let ghost all = self.samples@;
        let mut kept: Vec<(Epoch, T)> = Vec::new();
        let mut left: Vec<(Epoch, T)> = Vec::new();
        let mut i: usize = 0;
        proof {
            lemma_split_of_nothing::<T>(t);
            assert(all.take(0) =~= Seq::<(Epoch, T)>::empty());
        }
        while i < n
            invariant
                i <= n,
                n == all.len(),
                all == self.samples@,
                kept@ == not_after(all.take(i as int), t),
                left@ == later_than(all.take(i as int), t),
            decreases n - i,
        {
            let sample = self.samples[i];
            proof {
                assert(all.take(i + 1) =~= all.take(i as int).push(sample));
                lemma_split_of_push(all.take(i as int), sample, t);
            }
            if sample.0.tai_nanoseconds <= t.tai_nanoseconds {
                kept.push(sample);
            } else {
                left.push(sample);
            }
            i += 1;
        }
        proof {
            assert(all.take(n as int) =~= all);
            use_type_invariant(&*self);
            lemma_split_in_order(all, t);
        }
        self.samples = kept;
        Timeline { samples: left }
    }

    fn split_even_dt(&self, dt: Duration) -> (batches: Vec<Timeline<T>>)
        ensures
            is_time_ordered(self@),
    {
        let mut batches: Vec<Timeline<T>> = Vec::new();
        let n = self.samples.len();
        proof {
            use_type_invariant(self);
        }
        if dt.nanoseconds <= 0 {
            return batches;
        }
        let ghost all = self.samples@;
        let ghost shown = |batch: Timeline<T>| batch.records();
        if n == 0 {
            proof {
                assert(batches@.map_values(shown) =~= Seq::<Seq<(Epoch, T)>>::empty());
                assert(batches@.map_values(shown).flatten() =~= all);
            }
            return batches;
        }
        let first = self.samples[0].0;
        let mut current: Vec<(Epoch, T)> = Vec::new();
        current.push(self.samples[0]);
        let mut number: u128 = 0;
        let mut i: usize = 1;
        let ghost mut closed = Seq::<Seq<(Epoch, T)>>::empty();
        proof {
            assert(batches@.map_values(shown) =~= closed);
            assert(closed.flatten() + current@ =~= all.take(1));
            assert(window_at(current@, 0, first, dt) == 0);
        }
        while i < n
            invariant
                1 <= i <= n,
                n == all.len(),
                all == self.samples@,
                is_time_ordered(all),
                dt.nanoseconds > 0,
                first == all[0].0,
                shown == (|batch: Timeline<T>| batch.records()),
                closed == batches@.map_values(shown),
                closed.flatten() + current@ == all.take(i as int),
                are_successive_windows(closed, first, dt),
                in_one_window(current@, first, dt),
                number == window_at(current@, 0, first, dt),
                closed.len() > 0 ==> window_number(closed, closed.len() - 1, first, dt) < number,
            decreases n - i,
        {
            let sample = self.samples[i];
            let ghost window = current@;
            proof {
                // The sample before this one is the last of the open window,
                // and this one falls in no earlier window.
                let joined = closed.flatten() + window;
                assert(joined.len() == i);
                assert(joined[joined.len() - 1] == window[window.len() - 1]);
                assert(all.take(i as int)[i - 1] == all[i - 1]);
                assert(instant_at(all, 0) <= instant_at(all, i as int));
                assert(instant_at(all, i - 1) <= instant_at(all, i as int));
                assert(window_at(window, window.len() - 1, first, dt) == number);
                lemma_window_index_ordered(all[i - 1].0, sample.0, first, dt);
                assert(all.take(i + 1) =~= all.take(i as int).push(sample));
            }
            let k = window_of(sample.0, first, dt);
            if k != number {
                proof {
                    lemma_range_is_time_ordered(all, 0, i as int);
                    lemma_back_is_time_ordered(all.take(i as int), closed.flatten(), window);
                    lemma_window_closes(closed, window, first, dt);
                }
                batches.push(Timeline { samples: current });
                current = Vec::new();
                current.push(sample);
                number = k;
                proof {
                    closed = closed.push(window);
                    assert(batches@.map_values(shown) =~= closed);
                    assert(current@ =~= seq![sample]);
                    assert(closed.flatten() + current@ =~= all.take(i + 1));
                    assert(window_at(current@, 0, first, dt) == k);
                }
            } else {
                current.push(sample);
                proof {
                    assert(closed.flatten() + current@ =~= (closed.flatten() + window).push(sample));
                    assert forall|x: int| 0 <= x < current@.len() implies #[trigger] window_at(
                        current@,
                        x,
                        first,
                        dt,
                    ) == window_at(current@, 0, first, dt) by {
                        if x < window.len() {
                            assert(window_at(window, x, first, dt) == window_at(
                                window,
                                0,
                                first,
                                dt,
                            ));
                        }
                    }
                }
            }
            i += 1;
        }
        proof {
            lemma_range_is_time_ordered(all, 0, n as int);
            lemma_back_is_time_ordered(all.take(n as int), closed.flatten(), current@);
            lemma_window_closes(closed, current@, first, dt);
            assert(all.take(n as int) =~= all);
        }
        let ghost window = current@;
        batches.push(Timeline { samples: current });
        proof {
            assert(batches@.map_values(shown) =~= closed.push(window));
        }
        batches
    }
}

} // verus!
