//! The double-entry ledger of one room.
//!
//! Every tick enters one perception and one prediction; collection then drops
//! the entries that the caller marks as below the magnitude threshold.  The
//! magnitudes themselves are floating-point values computed outside this
//! crate, so the ledger is generic over the entry type and takes the outcome
//! of the threshold test as a mask of booleans, one per entry.

use vstd::prelude::*;

verus! {

/// The entries of `s` whose mark in `mask` is set, in their original order
/// (`mask[i]` decides about `s[i]`).
pub open spec fn keep_marked<T>(s: Seq<T>, mask: Seq<bool>) -> Seq<T>
    decreases s.len(),
{
    if s.len() == 0 {
        Seq::empty()
    } else {
        let rest = keep_marked(s.drop_last(), mask);
        if mask[s.len() - 1] {
            rest.push(s.last())
        } else {
            rest
        }
    }
}

/// Keeps the items whose mark is set and drops the others, preserving order.
pub fn retain_marked<T>(items: Vec<T>, keep: &Vec<bool>) -> (kept: Vec<T>)
    requires
        keep@.len() == items@.len(),
    ensures
        kept@ == keep_marked(items@, keep@),
{
    let ghost orig = items@;
    let n = items.len();
    let mut kept: Vec<T> = Vec::new();
    let mut i: usize = 0;
    for x in it: items
        invariant
            it.seq() == orig,
            i == it.index(),
            n == orig.len(),
            keep@.len() == orig.len(),
            kept@ == keep_marked(orig.take(i as int), keep@),
    {
        proof {
            assert(orig.take(i + 1).drop_last() =~= orig.take(i as int));
        }
        if keep[i] {
            kept.push(x);
        }
        i = i + 1;
    }
    proof {
        assert(orig.take(n as int) =~= orig);
    }
    kept
}

} // verus!

verus! {

/// The two columns of a room's ledger: perceptions entered and predictions
/// entered, each in the order of entry.
pub struct Ledger<T> {
    perceptions: Vec<T>,
    predictions: Vec<T>,
}

impl<T> Ledger<T> {
    /// The perception column.
    pub closed spec fn perceived(&self) -> Seq<T> {
        self.perceptions@
    }

    /// The prediction column.
    pub closed spec fn predicted(&self) -> Seq<T> {
        self.predictions@
    }

    /// An empty ledger.
    pub fn new() -> (ledger: Self)
        ensures
            ledger.perceived() == Seq::<T>::empty(),
            ledger.predicted() == Seq::<T>::empty(),
    {
        Ledger { perceptions: Vec::new(), predictions: Vec::new() }
    }

    /// Enters one perception and one prediction: one entry in each column.
    pub fn record(&mut self, perception: T, prediction: T)
        ensures
            final(self).perceived() == old(self).perceived().push(perception),
            final(self).predicted() == old(self).predicted().push(prediction),
    {
        self.perceptions.push(perception);
        self.predictions.push(prediction);
    }

    /// Drops from each column the entries whose mark is not set; `keep_perceptions[i]`
    /// decides about the i-th perception and `keep_predictions[i]` about the i-th
    /// prediction.
    pub fn collect(&mut self, keep_perceptions: &Vec<bool>, keep_predictions: &Vec<bool>)
        requires
            keep_perceptions@.len() == old(self).perceived().len(),
            keep_predictions@.len() == old(self).predicted().len(),
        ensures
            final(self).perceived() == keep_marked(old(self).perceived(), keep_perceptions@),
            final(self).predicted() == keep_marked(old(self).predicted(), keep_predictions@),
    {
        let mut taken: Vec<T> = Vec::new();
        std::mem::swap(&mut taken, &mut self.perceptions);
        self.perceptions = retain_marked(taken, keep_perceptions);
        let mut taken: Vec<T> = Vec::new();
        std::mem::swap(&mut taken, &mut self.predictions);
        self.predictions = retain_marked(taken, keep_predictions);
    }

    /// The perception column.
    pub fn perceptions(&self) -> (column: &Vec<T>)
        ensures
            column@ == self.perceived(),
    {
        &self.perceptions
    }

    /// The prediction column.
    pub fn predictions(&self) -> (column: &Vec<T>)
        ensures
            column@ == self.predicted(),
    {
        &self.predictions
    }
}

} // verus!

verus! {

/// Double entry: a ledger whose two columns hold as many entries each still
/// does after a tick records one perception and one prediction.
pub proof fn lemma_record_keeps_balance<T>(
    before: Ledger<T>,
    after: Ledger<T>,
    perception: T,
    prediction: T,
)
    requires
        before.perceived().len() == before.predicted().len(),
        after.perceived() == before.perceived().push(perception),
        after.predicted() == before.predicted().push(prediction),
    ensures
        after.perceived().len() == after.predicted().len(),
        after.perceived().len() == before.perceived().len() + 1,
{
}

/// Collection never adds entries: what is kept is at most what there was.
pub proof fn lemma_keep_marked_len<T>(s: Seq<T>, mask: Seq<bool>)
    ensures
        keep_marked(s, mask).len() <= s.len(),
    decreases s.len(),
{
    if s.len() > 0 {
        lemma_keep_marked_len(s.drop_last(), mask);
    }
}

/// With every mark set, collection keeps the column exactly as it was.
pub proof fn lemma_keep_marked_all<T>(s: Seq<T>, mask: Seq<bool>)
    requires
        mask.len() == s.len(),
        forall|i: int| 0 <= i < mask.len() ==> mask[i],
    ensures
        keep_marked(s, mask) == s,
{
    lemma_keep_marked_all_prefix(s, mask);
}

/// When each mark is the outcome of one fixed test on its entry, collection
/// keeps exactly the entries that pass the test, in order.
pub proof fn lemma_keep_marked_is_filter<T>(s: Seq<T>, mask: Seq<bool>, passes: spec_fn(T) -> bool)
    requires
        mask.len() == s.len(),
        forall|i: int| 0 <= i < s.len() ==> mask[i] == passes(s[i]),
    ensures
        keep_marked(s, mask) == s.filter(passes),
{
    lemma_keep_marked_is_filter_prefix(s, mask, passes);
}

proof fn lemma_keep_marked_is_filter_prefix<T>(s: Seq<T>, mask: Seq<bool>, passes: spec_fn(T) -> bool)
    requires
        mask.len() >= s.len(),
        forall|i: int| 0 <= i < s.len() ==> mask[i] == passes(s[i]),
    ensures
        keep_marked(s, mask) == s.filter(passes),
    decreases s.len(),
{
    reveal(Seq::filter);
    if s.len() > 0 {
        lemma_keep_marked_is_filter_prefix(s.drop_last(), mask, passes);
    }
}

/// Every entry that survives a collection by a fixed test passes that test.
pub proof fn lemma_kept_entries_pass<T>(s: Seq<T>, mask: Seq<bool>, passes: spec_fn(T) -> bool)
    requires
        mask.len() == s.len(),
        forall|i: int| 0 <= i < s.len() ==> mask[i] == passes(s[i]),
    ensures
        forall|k: int|
            0 <= k < keep_marked(s, mask).len() ==> passes(#[trigger] keep_marked(s, mask)[k]),
{
    lemma_keep_marked_is_filter(s, mask, passes);
    assert forall|k: int| 0 <= k < s.filter(passes).len() implies passes(
        #[trigger] s.filter(passes)[k],
    ) by {
        s.lemma_filter_pred(passes, k);
    }
}

/// Collection is idempotent: collecting a second time by the same test, with
/// the marks recomputed on what survived the first time, removes nothing.
pub proof fn lemma_collect_idempotent<T>(
    s: Seq<T>,
    first: Seq<bool>,
    second: Seq<bool>,
    passes: spec_fn(T) -> bool,
)
    requires
        first.len() == s.len(),
        forall|i: int| 0 <= i < s.len() ==> first[i] == passes(s[i]),
        second.len() == keep_marked(s, first).len(),
        forall|i: int|
            0 <= i < keep_marked(s, first).len() ==> second[i] == passes(keep_marked(s, first)[i]),
    ensures
        keep_marked(keep_marked(s, first), second) == keep_marked(s, first),
{
    let t = keep_marked(s, first);
    lemma_kept_entries_pass(s, first, passes);
    assert forall|i: int| 0 <= i < second.len() implies second[i] by {
        assert(passes(t[i]));
    }
    lemma_keep_marked_all(t, second);
}

/// In a column whose entries all pass the test, one tick (enter an entry, then
/// collect by the same test) keeps every earlier entry and keeps the new one
/// exactly when it passes.
pub proof fn lemma_tick_keeps_history<T>(
    s: Seq<T>,
    entry: T,
    mask: Seq<bool>,
    passes: spec_fn(T) -> bool,
)
    requires
        forall|i: int| 0 <= i < s.len() ==> passes(#[trigger] s[i]),
        mask.len() == s.len() + 1,
        forall|i: int| 0 <= i < s.len() + 1 ==> mask[i] == passes(#[trigger] s.push(entry)[i]),
    ensures
        keep_marked(s.push(entry), mask) == (if passes(entry) {
            s.push(entry)
        } else {
            s
        }),
{
    let t = s.push(entry);
    assert(t.drop_last() =~= s);
    assert forall|i: int| 0 <= i < s.len() implies mask[i] by {
        assert(t[i] == s[i]);
    }
    lemma_keep_marked_all_prefix(s, mask);
    assert(mask[s.len() as int] == passes(entry)) by {
        assert(t[s.len() as int] == entry);
    }
}

proof fn lemma_keep_marked_all_prefix<T>(s: Seq<T>, mask: Seq<bool>)
    requires
        mask.len() >= s.len(),
        forall|i: int| 0 <= i < s.len() ==> mask[i],
    ensures
        keep_marked(s, mask) == s,
    decreases s.len(),
{
    if s.len() > 0 {
        lemma_keep_marked_all_prefix(s.drop_last(), mask);
        assert(s.drop_last().push(s.last()) =~= s);
    }
}

} // verus!
