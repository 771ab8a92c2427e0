//! Who follows which series, and the series listing that shows it.
use vstd::prelude::*;
use crate::job::User;
use crate::store::{BookSeries, Repository, SeriesView, copy_series};

verus! {

/// `username` follows series `series_asin`.
pub struct Subscription {
    pub username: String,
    pub series_asin: String,
}

/// A series as one user sees it: whether they follow it, and how many do.
pub struct BookSeriesWithStatus {
    pub series: BookSeries,
    pub subscribed: bool,
    pub subscribers: i32,
}

/// Every series, as one user sees it.
pub struct GetAllSeriesResult {
    pub series: Vec<BookSeriesWithStatus>,
}

/// The subscriptions, each pair once.
pub struct SubscriptionTable {
    rows: Vec<Subscription>,
}

pub open spec fn pair_of(s: Subscription) -> (Seq<char>, Seq<char>) {
    (s.username@, s.series_asin@)
}

impl View for SubscriptionTable {
    type V = Seq<(Seq<char>, Seq<char>)>;

    closed spec fn view(&self) -> Seq<(Seq<char>, Seq<char>)> {
        self.rows@.map_values(|s: Subscription| pair_of(s))
    }
}

/// Number of subscriptions to series `asin`.
pub open spec fn subscriber_count(rows: Seq<(Seq<char>, Seq<char>)>, asin: Seq<char>) -> nat
    decreases rows.len(),
{
    if rows.len() == 0 {
        0
    } else {
        subscriber_count(rows.drop_last(), asin) + if rows.last().1 == asin {
            1nat
        } else {
            0nat
        }
    }
}

/// The listing entry of series `s` for user `user`.
pub open spec fn series_status(rows: Seq<(Seq<char>, Seq<char>)>, s: SeriesView, user: Seq<char>) -> (
    SeriesView,
    bool,
    int,
) {
    (
        s,
        rows.contains((user, s.asin)),
        if subscriber_count(rows, s.asin) > i32::MAX {
            i32::MAX as int
        } else {
            subscriber_count(rows, s.asin) as int
        },
    )
}

/// The subscriptions other than `p`, in order.
pub open spec fn rows_without(rows: Seq<(Seq<char>, Seq<char>)>, p: (Seq<char>, Seq<char>)) -> Seq<(Seq<char>, Seq<char>)>
    decreases rows.len(),
{
    if rows.len() == 0 {
        rows
    } else if rows.last() == p {
        rows_without(rows.drop_last(), p)
    } else {
        rows_without(rows.drop_last(), p).push(rows.last())
    }
}

fn copy_subscription(s: &Subscription) -> (r: Subscription)
    ensures
        r == *s,
{
    Subscription { username: s.username.clone(), series_asin: s.series_asin.clone() }
}

impl SubscriptionTable {
    /// No subscriptions.
    pub fn new() -> (r: SubscriptionTable)
        ensures
            r@.len() == 0,
    {
        let r = SubscriptionTable { rows: Vec::new() };
        assert(r@ =~= Seq::<(Seq<char>, Seq<char>)>::empty());
        r
    }

    /// A table over `rows`, read back from storage.
    pub fn from_rows(rows: Vec<Subscription>) -> (r: SubscriptionTable)
        ensures
            r@ == rows@.map_values(|s: Subscription| pair_of(s)),
    {
        SubscriptionTable { rows }
    }

    /// Every subscription, in order.
    pub fn rows(&self) -> (r: Vec<Subscription>)
        ensures
            r@.map_values(|s: Subscription| pair_of(s)) == self@,
    {
        let mut r: Vec<Subscription> = Vec::new();
        let mut i: usize = 0;
        while i < self.rows.len()
            invariant
                i <= self.rows@.len(),
                r@.map_values(|s: Subscription| pair_of(s)) == self@.take(i as int),
            decreases self.rows@.len() - i,
        {
            assert(self@[i as int] == pair_of(self.rows@[i as int]));
            let ghost prev = r@;
            r.push(copy_subscription(&self.rows[i]));
            assert(r@.map_values(|s: Subscription| pair_of(s)) =~= prev.map_values(|s: Subscription| pair_of(s)).push(self@[i as int]));
            assert(self@.take(i + 1) =~= self@.take(i as int).push(self@[i as int]));
            i = i + 1;
        }
        assert(self@.take(i as int) =~= self@);
        r
    }

    /// Number of subscriptions.
    pub fn len(&self) -> (r: usize)
        ensures
            r == self@.len(),
    {
        self.rows.len()
    }

    /// Position of the subscription of `username` to `series_asin`, or the
    /// number of subscriptions where there is none.
    pub fn index_of(&self, username: &String, series_asin: &String) -> (r: usize)
        ensures
            r <= self@.len(),
            r < self@.len() ==> self@[r as int] == (username@, series_asin@),
            r == self@.len() ==> !self@.contains((username@, series_asin@)),
    {
        let mut i: usize = 0;
        while i < self.rows.len()
            invariant
                i <= self.rows@.len(),
                forall|k: int| 0 <= k < i ==> self@[k] != (username@, series_asin@),
            decreases self.rows@.len() - i,
        {
            assert(self@[i as int] == pair_of(self.rows@[i as int]));
            if self.rows[i].username == *username && self.rows[i].series_asin == *series_asin {
                return i;
            }
            i = i + 1;
        }
        i
    }
}

impl Subscription {
    /// `user` follows series `series_asin`; nothing changes where they did already.
    pub fn add(table: &mut SubscriptionTable, user: &User, series_asin: &String)
        ensures
            old(table)@.contains((user.username@, series_asin@)) ==> final(table)@ == old(table)@,
            !old(table)@.contains((user.username@, series_asin@)) ==> final(table)@ == old(table)@.push(
                (user.username@, series_asin@),
            ),
    {
        let k = table.index_of(&user.username, series_asin);
        if k < table.rows.len() {
            return;
        }
        let ghost prev = table.rows@;
        table.rows.push(Subscription { username: user.username.clone(), series_asin: series_asin.clone() });
        assert(table@ =~= prev.map_values(|s: Subscription| pair_of(s)).push((user.username@, series_asin@)));
    }

    /// `user` no longer follows series `series_asin`.
    pub fn remove(table: &mut SubscriptionTable, user: &User, series_asin: &String)
        ensures
            final(table)@ == rows_without(old(table)@, (user.username@, series_asin@)),
    {
        let ghost t = table@;
        let ghost p = (user.username@, series_asin@);
        let mut rows: Vec<Subscription> = Vec::new();
        let mut i: usize = 0;
        while i < table.rows.len()
            invariant
                i <= table.rows@.len(),
                table@ == t,
                p == (user.username@, series_asin@),
                rows@.map_values(|s: Subscription| pair_of(s)) == rows_without(t.take(i as int), p),
            decreases table.rows@.len() - i,
        {
            assert(t.take(i + 1).drop_last() =~= t.take(i as int));
            assert(t[i as int] == pair_of(table.rows@[i as int]));
            if !(table.rows[i].username == user.username && table.rows[i].series_asin == *series_asin) {
                let ghost prev = rows@;
                rows.push(copy_subscription(&table.rows[i]));
                assert(rows@.map_values(|s: Subscription| pair_of(s)) =~= prev.map_values(|s: Subscription| pair_of(s)).push(t[i as int]));
            }
            i = i + 1;
        }
        assert(t.take(i as int) =~= t);
        table.rows = rows;
    }
}

fn count_subscribers(table: &SubscriptionTable, asin: &String) -> (r: i32)
    ensures
        r as int == if subscriber_count(table@, asin@) > i32::MAX {
            i32::MAX as int
        } else {
            subscriber_count(table@, asin@) as int
        },
{
    let mut count: i32 = 0;
    let mut i: usize = 0;
    let mut saturated = false;
    while i < table.rows.len()
        invariant
            i <= table.rows@.len(),
            saturated ==> subscriber_count(table@.take(i as int), asin@) > i32::MAX && count == i32::MAX,
            !saturated ==> count as int == subscriber_count(table@.take(i as int), asin@),
        decreases table.rows@.len() - i,
    {
        assert(table@.take(i + 1).drop_last() =~= table@.take(i as int));
        assert(table@[i as int] == pair_of(table.rows@[i as int]));
        if table.rows[i].series_asin == *asin {
            if count == i32::MAX {
                saturated = true;
            } else {
                count = count + 1;
            }
        }
        i = i + 1;
    }
    assert(table@.take(i as int) =~= table@);
    count
}

impl BookSeries {
    /// Every recorded series, in order of first save, with whether `user`
    /// follows it and how many users do (at most the largest `i32`).
    pub fn fetch_by_user(repository: &Repository, subscriptions: &SubscriptionTable, user: &User) -> (r:
        GetAllSeriesResult)
        ensures
            r.series@.len() == repository@.series.len(),
            forall|i: int|
                0 <= i < r.series@.len() ==> ((#[trigger] r.series@[i]).series@, r.series@[i].subscribed,
                    r.series@[i].subscribers as int) == series_status(
                    subscriptions@,
                    repository@.series[i],
                    user.username@,
                ),
    {
        let all = BookSeries::fetch_all(repository);
        let ghost ss = repository@.series;
        let mut out: Vec<BookSeriesWithStatus> = Vec::new();
        let mut i: usize = 0;
        while i < all.len()
            invariant
                i <= all@.len(),
                ss == repository@.series,
                all@.map_values(|s: BookSeries| s@) == ss,
                out@.len() == i,
                forall|k: int|
                    0 <= k < i ==> ((#[trigger] out@[k]).series@, out@[k].subscribed, out@[k].subscribers as int)
                        == series_status(subscriptions@, ss[k], user.username@),
            decreases all@.len() - i,
        {
            assert(ss[i as int] == all@[i as int]@);
            let s = copy_series(&all[i]);
            let k = subscriptions.index_of(&user.username, &s.asin);
            let subscribed = k < subscriptions.rows.len();
            let subscribers = count_subscribers(subscriptions, &s.asin);
            out.push(BookSeriesWithStatus { series: s, subscribed, subscribers });
            i = i + 1;
        }
        GetAllSeriesResult { series: out }
    }
}

} // verus!
