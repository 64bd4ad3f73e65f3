//! Listing of locally installed packages: which directories count, the
//! listing order, and the text that is printed.

use crate::pkgspec::{compare_listed, lemma_listed_lt_strict, listed_lt, PackageSpec, SpecTuple};
use crate::text::{decimal, decimal_chars, push_all, push_str, string_of};
use vstd::arithmetic::div_mod::{
    lemma_div_pos_is_pos, lemma_fundamental_div_mod, lemma_fundamental_div_mod_converse, lemma_mod_bound,
};
use vstd::prelude::*;
use vstd::set_lib::{lemma_int_range, lemma_subset_equality, set_int_range};

verus! {

/// The plain values of a sequence of package specifications.
pub open spec fn tuples(v: Seq<PackageSpec>) -> Seq<SpecTuple> {
    v.map_values(|p: PackageSpec| p.tuple())
}

/// Position `ia` is listed before position `ib`: its specification comes
/// first in listing order, or both are equal and `ia` came first.
pub open spec fn listed_before(specs: Seq<SpecTuple>, ia: int, ib: int) -> bool {
    ||| listed_lt(specs[ia], specs[ib])
    ||| specs[ia] == specs[ib] && ia < ib
}

/// `order` holds every position of `specs` once, in listing order (a
/// stable sort by namespace, name and descending version).
pub open spec fn is_listing_order(specs: Seq<SpecTuple>, order: Seq<usize>) -> bool {
    &&& order.len() == specs.len()
    &&& forall|i: int| 0 <= i < order.len() ==> order[i] < specs.len()
    &&& forall|i: int, j: int| 0 <= i < j < order.len() ==> order[i] != order[j]
    &&& forall|i: int, j: int|
        0 <= i < j < order.len() ==> listed_before(specs, #[trigger] order[i] as int, #[trigger] order[j] as int)
}

proof fn lemma_listed_before_transitive(specs: Seq<SpecTuple>, a: int, b: int, c: int)
    requires
        listed_before(specs, a, b),
        listed_before(specs, b, c),
    ensures
        listed_before(specs, a, c),
{
    lemma_listed_lt_strict(specs[a], specs[b], specs[c]);
}

/// A listing order holds every position.
proof fn lemma_listing_order_covers(specs: Seq<SpecTuple>, o: Seq<usize>, x: int)
    requires
        is_listing_order(specs, o),
        0 <= x < specs.len(),
    ensures
        exists|p: int| 0 <= p < o.len() && o[p] == x,
{
    let n = specs.len() as int;
    let oi = o.map_values(|v: usize| v as int);
    assert(oi.no_duplicates()) by {
        assert forall|i: int, j: int| 0 <= i < oi.len() && 0 <= j < oi.len() && i != j implies oi[i]
            != oi[j] by {
            if i < j {
                assert(o[i] != o[j]);
            } else {
                assert(o[j] != o[i]);
            }
        }
    }
    oi.unique_seq_to_set();
    lemma_int_range(0, n);
    assert(oi.to_set().subset_of(set_int_range(0, n))) by {
        assert forall|v: int| oi.to_set().contains(v) implies set_int_range(0, n).contains(v) by {
            let k = choose|k: int| 0 <= k < oi.len() && oi[k] == v;
            assert(o[k] < specs.len());
        }
    }
    lemma_subset_equality(oi.to_set(), set_int_range(0, n));
    assert(set_int_range(0, n).contains(x));
    assert(oi.to_set().contains(x));
    let p = choose|p: int| 0 <= p < oi.len() && oi[p] == x;
    assert(o[p] == x);
}

/// Two listing orders of the same specifications agree up to position `i`.
proof fn lemma_orders_agree_upto(specs: Seq<SpecTuple>, o1: Seq<usize>, o2: Seq<usize>, i: int)
    requires
        is_listing_order(specs, o1),
        is_listing_order(specs, o2),
        0 <= i < o1.len(),
    ensures
        forall|d: int| 0 <= d <= i ==> o1[d] == o2[d],
    decreases i,
{
    if i > 0 {
        lemma_orders_agree_upto(specs, o1, o2, i - 1);
    }
    if o1[i] != o2[i] {
        let a = o1[i] as int;
        let b = o2[i] as int;
        lemma_listing_order_covers(specs, o2, a);
        lemma_listing_order_covers(specs, o1, b);
        let p = choose|p: int| 0 <= p < o2.len() && o2[p] == a;
        let q = choose|q: int| 0 <= q < o1.len() && o1[q] == b;
        if p < i {
            assert(o1[p] == o2[p]);
        }
        if q < i {
            assert(o1[q] == o2[q]);
        }
        assert(listed_before(specs, o2[i] as int, o2[p] as int));
        assert(listed_before(specs, o1[i] as int, o1[q] as int));
        lemma_listed_lt_strict(specs[a], specs[b], specs[a]);
        assert(false);
    }
}

/// The listing order of given specifications is unique: the listing is
/// determined by the specifications alone.
pub proof fn lemma_listing_order_unique(specs: Seq<SpecTuple>, o1: Seq<usize>, o2: Seq<usize>)
    requires
        is_listing_order(specs, o1),
        is_listing_order(specs, o2),
    ensures
        o1 == o2,
{
    if o1.len() > 0 {
        lemma_orders_agree_upto(specs, o1, o2, o1.len() - 1);
    }
    assert(o1 =~= o2);
}

/// The positions of `specs` in listing order.
pub fn listing_order(specs: &Vec<PackageSpec>) -> (order: Vec<usize>)
    ensures
        is_listing_order(tuples(specs@), order@),
{
    let ghost ts = tuples(specs@);
    let n = specs.len();
    let mut order: Vec<usize> = Vec::new();
    let mut k: usize = 0;
    while k < n
        invariant
            n == specs.len(),
            ts == tuples(specs@),
            k <= n,
            order.len() == k,
            forall|i: int| 0 <= i < k ==> order@[i] < k,
            forall|i: int, j: int| 0 <= i < j < k ==> order@[i] != order@[j],
            forall|i: int, j: int|
                0 <= i < j < k ==> listed_before(ts, #[trigger] order@[i] as int, #[trigger] order@[j] as int),
        decreases n - k,
    {
        let mut p: usize = order.len();
        while p > 0 && compare_listed(&specs[k], &specs[order[p - 1]]) == -1
            invariant
                n == specs.len(),
                ts == tuples(specs@),
                k < n,
                order.len() == k,
                p <= k,
                forall|i: int| 0 <= i < k ==> order@[i] < k,
                forall|q: int| p <= q < k ==> listed_lt(ts[k as int], ts[order@[q] as int]),
            decreases p,
        {
            p = p - 1;
        }
        let ghost old_order = order@;
        proof {
            if p > 0 {
                let last = old_order[p - 1] as int;
                assert(specs@[k as int].tuple() == ts[k as int]);
                assert(specs@[last].tuple() == ts[last]);
                assert(listed_before(ts, last, k as int));
            }
        }
        order.insert(p, k);
        proof {
            let o = order@;
            assert(o =~= old_order.insert(p as int, k));
            assert forall|i: int| 0 <= i < k + 1 implies o[i] < k + 1 by {
                if i < p {
                    assert(o[i] == old_order[i]);
                } else if i > p {
                    assert(o[i] == old_order[i - 1]);
                }
            }
            assert forall|i: int, j: int| 0 <= i < j < k + 1 implies o[i] != o[j] by {
                if j < p {
                } else if j == p {
                    assert(old_order[i] < k);
                } else if i == p {
                    assert(o[j] == old_order[j - 1]);
                } else if i < p {
                    assert(o[j] == old_order[j - 1]);
                } else {
                    assert(o[i] == old_order[i - 1]);
                    assert(o[j] == old_order[j - 1]);
                }
            }
            assert forall|i: int, j: int| 0 <= i < j < k + 1 implies listed_before(
                ts,
                #[trigger] o[i] as int,
                #[trigger] o[j] as int,
            ) by {
                if j < p {
                    assert(o[i] == old_order[i] && o[j] == old_order[j]);
                } else if j == p {
                    assert(o[i] == old_order[i]);
                    let last = old_order[p - 1] as int;
                    if i < p - 1 {
                        assert(listed_before(ts, old_order[i] as int, old_order[p - 1] as int));
                        lemma_listed_before_transitive(ts, old_order[i] as int, last, k as int);
                    }
                } else if i == p {
                    assert(o[j] == old_order[j - 1]);
                    assert(listed_lt(ts[k as int], ts[old_order[j - 1] as int]));
                } else if i < p {
                    assert(o[i] == old_order[i] && o[j] == old_order[j - 1]);
                } else {
                    assert(o[i] == old_order[i - 1] && o[j] == old_order[j - 1]);
                }
            }
        }
        k = k + 1;
    }
    order
}

/// A point in time: seconds and nanoseconds since the Unix epoch (seconds
/// may be negative for earlier times); the nanoseconds stay below one second.
#[derive(Clone, Copy, Debug, PartialEq, Eq, Structural)]
pub struct Timestamp {
    secs: i64,
    nanos: u32,
}

impl Timestamp {
    #[verifier::type_invariant]
    spec fn nanos_below_second(self) -> bool {
        self.nanos < 1_000_000_000
    }

    /// Whole seconds since the epoch (rounded down).
    pub closed spec fn seconds(self) -> i64 {
        self.secs
    }

    /// Nanoseconds past `seconds`.
    pub closed spec fn subsec_nanos(self) -> u32 {
        self.nanos
    }

    /// The time `secs` seconds and `nanos` nanoseconds after the epoch;
    /// `None` when `nanos` is a second or more.
    pub fn new(secs: i64, nanos: u32) -> (r: Option<Timestamp>)
        ensures
            r is Some <==> nanos < 1_000_000_000,
            r matches Some(t) ==> t.seconds() == secs && t.subsec_nanos() == nanos,
    {
        if nanos < 1_000_000_000 {
            Some(Timestamp { secs, nanos })
        } else {
            None
        }
    }
}

/// Whole seconds from `then` to `now`; zero when `then` is later, as
/// `SystemTime::duration_since(..).unwrap_or_default().as_secs()` gives it.
pub open spec fn elapsed_secs(now: Timestamp, then: Timestamp) -> nat {
    let d = (now.seconds() - then.seconds()) * 1_000_000_000 + now.subsec_nanos()
        - then.subsec_nanos();
    if d < 0 {
        0
    } else {
        (d / 1_000_000_000) as nat
    }
}

/// The elapsed seconds are the whole seconds in the time from `then` to
/// `now`, counted to the nanosecond: no more, and less than one short; none
/// when `then` is later.
pub proof fn lemma_elapsed_whole_seconds(now: Timestamp, then: Timestamp)
    ensures
        ({
            let d = (now.seconds() - then.seconds()) * 1_000_000_000 + now.subsec_nanos()
                - then.subsec_nanos();
            &&& d < 0 ==> elapsed_secs(now, then) == 0
            &&& d >= 0 ==> elapsed_secs(now, then) * 1_000_000_000 <= d
                < elapsed_secs(now, then) * 1_000_000_000 + 1_000_000_000
        }),
{
    let d = (now.seconds() - then.seconds()) * 1_000_000_000 + now.subsec_nanos()
        - then.subsec_nanos();
    if d >= 0 {
        lemma_fundamental_div_mod(d, 1_000_000_000);
        lemma_mod_bound(d, 1_000_000_000);
        lemma_div_pos_is_pos(d, 1_000_000_000);
    }
}

/// How long ago, for `secs` seconds: minutes and seconds under an hour,
/// hours under two days, then days and hours under a week, then days.
pub open spec fn ago_text(secs: nat) -> Seq<char> {
    if secs < 3600 {
        decimal(secs / 60) + "m"@ + decimal(secs % 60) + "s"@
    } else if secs < 172800 {
        decimal(secs / 3600) + " hours ago"@
    } else if secs / 86400 < 7 {
        decimal(secs / 86400) + " days "@ + decimal((secs % 86400) / 3600) + " hours ago"@
    } else {
        decimal(secs / 86400) + " days ago"@
    }
}

/// Under an hour the text gives the whole minutes and the seconds left over.
pub proof fn lemma_ago_minutes(secs: nat, m: nat, sec: nat)
    requires
        secs < 3600,
        sec < 60,
        secs == m * 60 + sec,
    ensures
        ago_text(secs) == decimal(m) + "m"@ + decimal(sec) + "s"@,
{
    lemma_fundamental_div_mod_converse(secs as int, 60, m as int, sec as int);
}

/// From an hour to under two days the text gives the whole hours.
pub proof fn lemma_ago_hours(secs: nat, h: nat)
    requires
        3600 <= secs < 172800,
        h * 3600 <= secs < h * 3600 + 3600,
    ensures
        ago_text(secs) == decimal(h) + " hours ago"@,
{
    lemma_fundamental_div_mod_converse(secs as int, 3600, h as int, secs - h * 3600);
}

/// From two days to under a week the text gives the whole days and the
/// whole hours of the day begun, which together account for the time.
pub proof fn lemma_ago_days(secs: nat, d: nat, h: nat)
    requires
        172800 <= secs,
        d < 7,
        h < 24,
        d * 86400 + h * 3600 <= secs < d * 86400 + h * 3600 + 3600,
    ensures
        ago_text(secs) == decimal(d) + " days "@ + decimal(h) + " hours ago"@,
{
    let r: int = secs - d * 86400;
    assert(h * 3600 + 3600 <= 86400) by (nonlinear_arith)
        requires h < 24;
    lemma_fundamental_div_mod_converse(secs as int, 86400, d as int, r);
    lemma_fundamental_div_mod_converse(r, 3600, h as int, r - h * 3600);
}

/// From a week on the text gives the whole days.
pub proof fn lemma_ago_weeks(secs: nat, d: nat)
    requires
        7 <= d,
        d * 86400 <= secs < d * 86400 + 86400,
    ensures
        ago_text(secs) == decimal(d) + " days ago"@,
{
    assert(172800 <= secs) by (nonlinear_arith)
        requires 7 <= d, d * 86400 <= secs;
    lemma_fundamental_div_mod_converse(secs as int, 86400, d as int, secs - d * 86400);
}

/// Whole seconds from `then` to `now`, zero when `then` is later.
pub fn elapsed(now: Timestamp, then: Timestamp) -> (r: u64)
    ensures
        r == elapsed_secs(now, then),
{
    proof {
        use_type_invariant(now);
        use_type_invariant(then);
    }
    let d: i128 = (now.secs as i128 - then.secs as i128) * 1_000_000_000 + (now.nanos as i128)
        - (then.nanos as i128);
    if d < 0 {
        0
    } else {
        assert(d / 1_000_000_000 <= u64::MAX) by (nonlinear_arith)
            requires
                d <= (i64::MAX - i64::MIN) * 1_000_000_000 + 999_999_999,
        ;
        (d / 1_000_000_000) as u64
    }
}

/// How long ago `time` was at `now`, as the listing's "Created" column
/// shows it.
pub fn time_ago(now: Timestamp, time: Timestamp) -> (r: String)
    ensures
        r@ == ago_text(elapsed_secs(now, time)),
{
    let secs = elapsed(now, time);
    let mut v: Vec<char>;
    if secs < 3600 {
        v = decimal_chars(secs / 60);
        push_str(&mut v, "m");
        push_all(&mut v, &decimal_chars(secs % 60));
        push_str(&mut v, "s");
    } else if secs < 172800 {
        v = decimal_chars(secs / 3600);
        push_str(&mut v, " hours ago");
    } else if secs / 86400 < 7 {
        v = decimal_chars(secs / 86400);
        push_str(&mut v, " days ");
        push_all(&mut v, &decimal_chars((secs % 86400) / 3600));
        push_str(&mut v, " hours ago");
    } else {
        v = decimal_chars(secs / 86400);
        push_str(&mut v, " days ago");
    }
    string_of(&v)
}

} // verus!
