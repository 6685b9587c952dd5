use vstd::prelude::*;
use crate::calendar::{CalendarDate, clamped_elapsed, elapsed_days};
use crate::record::{TrainingDetails, decayed};

verus! {

/// The whole persisted state: the day of the last run and the routines.
pub struct DBFile {
    pub last_run: CalendarDate,
    pub trainings: Vec<TrainingDetails>,
}

/// Every record after `elapsed` days.
pub open spec fn all_decayed(s: Seq<TrainingDetails>, elapsed: int) -> Seq<TrainingDetails> {
    Seq::new(s.len(), |i: int| decayed(s[i], elapsed))
}

/// Holds of a record whose cooldown is exactly `k` days.
pub open spec fn rest_is(k: int) -> spec_fn(TrainingDetails) -> bool {
    |t: TrainingDetails| t.rest_days_remaining as int == k
}

/// The records whose cooldown is below `k`, grouped by cooldown in
/// ascending order, each group in the order of `s`.
pub open spec fn grouped_below(s: Seq<TrainingDetails>, k: nat) -> Seq<TrainingDetails>
    decreases k,
{
    if k == 0 {
        Seq::empty()
    } else {
        grouped_below(s, (k - 1) as nat) + s.filter(rest_is(k - 1))
    }
}

/// `s` in ascending order of cooldown, records with equal cooldowns kept in
/// the order of `s`.
pub open spec fn by_rest_days(s: Seq<TrainingDetails>) -> Seq<TrainingDetails> {
    grouped_below(s, 256)
}

/// The routines that are due: no rest left.
pub open spec fn due(s: Seq<TrainingDetails>) -> Seq<TrainingDetails> {
    s.filter(rest_is(0))
}

/// Shrinks every cooldown by `reduce_by` days, floored at zero.
pub fn reduce_training_rest_days_remaining_by(reduce_by: u8, trainings: &mut Vec<TrainingDetails>)
    ensures
        final(trainings)@ == all_decayed(old(trainings)@, reduce_by as int),
{
    let ghost start = trainings@;
    let n = trainings.len();
    let mut i: usize = 0;
    while i < n
        invariant
            trainings@.len() == n,
            n == start.len(),
            i <= n,
            forall|j: int| 0 <= j < i ==> trainings@[j] == decayed(start[j], reduce_by as int),
            forall|j: int| i <= j < n ==> trainings@[j] == start[j],
        decreases n - i,
    {
        let mut t = trainings[i].duplicate();
        t.decay_by(reduce_by);
        trainings.set(i, t);
        i = i + 1;
    }
    assert(trainings@ =~= all_decayed(start, reduce_by as int));
}

/// Shrinks every cooldown by `elapsed` days, floored at zero.
pub fn decay_trainings(elapsed: u64, trainings: &mut Vec<TrainingDetails>)
    ensures
        final(trainings)@ == all_decayed(old(trainings)@, elapsed as int),
{
    let step: u8 = if elapsed > 255 {
        255
    } else {
        elapsed as u8
    };
    reduce_training_rest_days_remaining_by(step, trainings);
    assert(final(trainings)@ =~= all_decayed(old(trainings)@, elapsed as int));
}

/// Starts a run on `today`: decays every cooldown by the whole days since
/// the last run (none where the clock went back) and records `today` as the
/// last run. Returns the days counted, or `None`, with nothing changed, where
/// either date does not exist.
pub fn start_run(db: &mut DBFile, today: CalendarDate) -> (r: Option<u64>)
    ensures
        r is Some <==> old(db).last_run.is_valid() && today.is_valid(),
        r is None ==> *final(db) == *old(db),
        r is Some ==> {
            &&& r.unwrap() as int == clamped_elapsed(
                today.day_number() - old(db).last_run.day_number(),
            )
            &&& final(db).last_run == today
            &&& final(db).trainings@ == all_decayed(old(db).trainings@, r.unwrap() as int)
        },
{
    match elapsed_days(&db.last_run, &today) {
        None => None,
        Some(elapsed) => {
            decay_trainings(elapsed, &mut db.trainings);
            db.last_run = today;
            Some(elapsed)
        },
    }
}

/// The routines in ascending order of remaining rest days; routines with
/// equal rest keep their relative order.
pub fn sorted_by_rest_days(trainings: &Vec<TrainingDetails>) -> (r: Vec<TrainingDetails>)
    ensures
        r@ == by_rest_days(trainings@),
{
    let ghost s = trainings@;
    let mut out: Vec<TrainingDetails> = Vec::new();
    let mut k: u16 = 0;
    while k < 256
        invariant
            k <= 256,
            s == trainings@,
            out@ == grouped_below(s, k as nat),
        decreases 256 - k,
    {
        let mut j: usize = 0;
        while j < trainings.len()
            invariant
                k < 256,
                j <= trainings@.len(),
                s == trainings@,
                out@ == grouped_below(s, k as nat) + s.subrange(0, j as int).filter(rest_is(k as int)),
            decreases trainings@.len() - j,
        {
            proof {
                let pre = s.subrange(0, j as int);
                let post = s.subrange(0, j as int + 1);
                assert(post.drop_last() =~= pre);
                assert(post.last() == s[j as int]);
                reveal(Seq::filter);
            }
            if trainings[j].rest_days_remaining as u16 == k {
                let t = trainings[j].duplicate();
                out.push(t);
            }
            j = j + 1;
        }
        assert(s.subrange(0, s.len() as int) =~= s);
        k = k + 1;
    }
    out
}

/// The routines with no rest left, in the order given.
pub fn due_trainings(trainings: &Vec<TrainingDetails>) -> (r: Vec<TrainingDetails>)
    ensures
        r@ == due(trainings@),
{
    let ghost s = trainings@;
    let mut out: Vec<TrainingDetails> = Vec::new();
    let mut j: usize = 0;
    while j < trainings.len()
        invariant
            j <= trainings@.len(),
            s == trainings@,
            out@ == s.subrange(0, j as int).filter(rest_is(0)),
        decreases trainings@.len() - j,
    {
        proof {
            let pre = s.subrange(0, j as int);
            let post = s.subrange(0, j as int + 1);
            assert(post.drop_last() =~= pre);
            assert(post.last() == s[j as int]);
            reveal(Seq::filter);
        }
        if trainings[j].rest_days_remaining == 0 {
            let t = trainings[j].duplicate();
            out.push(t);
        }
        j = j + 1;
    }
    assert(s.subrange(0, s.len() as int) =~= s);
    out
}

/// Decay by zero days leaves every record as it was.
pub proof fn lemma_zero_decay_keeps_all(s: Seq<TrainingDetails>)
    ensures
        all_decayed(s, 0) == s,
{
    assert(all_decayed(s, 0) =~= s);
}

proof fn lemma_filter_of_uniform(x: Seq<TrainingDetails>, m: int, k: int)
    requires
        forall|i: int| 0 <= i < x.len() ==> #[trigger] x[i].rest_days_remaining as int == m,
    ensures
        x.filter(rest_is(k)) == (if k == m {
            x
        } else {
            Seq::<TrainingDetails>::empty()
        }),
    decreases x.len(),
{
    reveal(Seq::filter);
    if x.len() > 0 {
        lemma_filter_of_uniform(x.drop_last(), m, k);
        if k == m {
            assert(x.drop_last().push(x.last()) =~= x);
        }
    }
}

proof fn lemma_grouped_below(s: Seq<TrainingDetails>, n: nat)
    ensures
        forall|i: int| 0 <= i < grouped_below(s, n).len() ==> #[trigger] grouped_below(s, n)[i].rest_days_remaining < n,
        forall|i: int, j: int|
            0 <= i < j < grouped_below(s, n).len() ==> #[trigger] grouped_below(s, n)[i].rest_days_remaining
                <= #[trigger] grouped_below(s, n)[j].rest_days_remaining,
        forall|k: int| #[trigger] grouped_below(s, n).filter(rest_is(k)) == (if 0 <= k < n {
            s.filter(rest_is(k))
        } else {
            Seq::<TrainingDetails>::empty()
        }),
    decreases n,
{
    broadcast use Seq::lemma_filter_pred;
    reveal(Seq::filter);
    if n > 0 {
        let m = (n - 1) as nat;
        lemma_grouped_below(s, m);
        let a = grouped_below(s, m);
        let b = s.filter(rest_is(m as int));
        assert(forall|i: int| 0 <= i < b.len() ==> #[trigger] b[i].rest_days_remaining as int == m);
        assert forall|k: int| #[trigger] grouped_below(s, n).filter(rest_is(k)) == (if 0 <= k < n {
            s.filter(rest_is(k))
        } else {
            Seq::<TrainingDetails>::empty()
        }) by {
            Seq::filter_distributes_over_add(a, b, rest_is(k));
            lemma_filter_of_uniform(b, m as int, k);
            if k == m {
                assert(Seq::<TrainingDetails>::empty() + b =~= b);
            } else if 0 <= k < m {
                assert(a.filter(rest_is(k)) + Seq::<TrainingDetails>::empty() =~= a.filter(rest_is(k)));
            } else {
                assert(Seq::<TrainingDetails>::empty() + Seq::<TrainingDetails>::empty() =~= Seq::<TrainingDetails>::empty());
            }
        }
    }
}

/// The display order is sorted by remaining rest days, and, for every
/// number of rest days, holds exactly the routines of the input with that
/// number, in their input order: a total, stable order.
pub proof fn lemma_order_is_sorted_and_stable(s: Seq<TrainingDetails>)
    ensures
        forall|i: int, j: int|
            0 <= i < j < by_rest_days(s).len() ==> #[trigger] by_rest_days(s)[i].rest_days_remaining
                <= #[trigger] by_rest_days(s)[j].rest_days_remaining,
        forall|k: u8| #[trigger] by_rest_days(s).filter(rest_is(k as int)) == s.filter(rest_is(k as int)),
{
    lemma_grouped_below(s, 256);
    let r = by_rest_days(s);
    assert forall|k: u8| #[trigger] r.filter(rest_is(k as int)) == s.filter(rest_is(k as int)) by {
        assert(r.filter(rest_is(k as int)) == s.filter(rest_is(k as int)));
    }
}

/// A routine is in the due set of the display order exactly when it has no
/// rest left, and the due set keeps the relative order of the routines.
pub proof fn lemma_due_set(s: Seq<TrainingDetails>)
    ensures
        due(by_rest_days(s)) == due(s),
        forall|i: int| 0 <= i < due(s).len() ==> (#[trigger] due(s)[i]).rest_days_remaining == 0,
        forall|i: int| 0 <= i < s.len() && s[i].rest_days_remaining == 0 ==> #[trigger] due(s).contains(s[i]),
{
    broadcast use Seq::lemma_filter_pred, Seq::lemma_filter_contains;
    lemma_grouped_below(s, 256);
    assert(by_rest_days(s).filter(rest_is(0)) == s.filter(rest_is(0)));
}

} // verus!
