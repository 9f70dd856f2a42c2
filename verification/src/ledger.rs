//! The failure ledger: one record per domain, counting the consecutive runs in
//! which the domain was seen broken.

use vstd::prelude::*;

verus! {

/// One row of the ledger.
#[derive(Debug)]
pub struct FailureRecord {
    pub url: String,
    pub fails: i64,
    pub epoch: i64,
}

/// What a record stands for in contracts.
pub struct RecordModel {
    pub url: Seq<char>,
    pub fails: int,
    pub epoch: int,
}

impl View for FailureRecord {
    type V = RecordModel;

    open spec fn view(&self) -> RecordModel {
        RecordModel { url: self.url@, fails: self.fails as int, epoch: self.epoch as int }
    }
}

/// The rows of a ledger, each taken by its view.
pub open spec fn rows_of(records: Seq<FailureRecord>) -> Seq<RecordModel> {
    records.map_values(|r: FailureRecord| r@)
}

/// Some row of `rows` is keyed by `url`.
pub open spec fn has_url(rows: Seq<RecordModel>, url: Seq<char>) -> bool {
    exists|i: int| 0 <= i < rows.len() && #[trigger] rows[i].url == url
}

/// The place of the row keyed by `url`, where there is one.
pub open spec fn index_of_url(rows: Seq<RecordModel>, url: Seq<char>) -> int {
    choose|i: int| 0 <= i < rows.len() && #[trigger] rows[i].url == url
}

/// The row keyed by `url`, where there is one.
pub open spec fn row_of(rows: Seq<RecordModel>, url: Seq<char>) -> RecordModel {
    rows[index_of_url(rows, url)]
}

/// No two rows share a url, and no count is negative.
pub open spec fn rows_wf(rows: Seq<RecordModel>) -> bool {
    &&& forall|i: int, j: int|
        0 <= i < rows.len() && 0 <= j < rows.len() && i != j ==> #[trigger] rows[i].url
            != #[trigger] rows[j].url
    &&& forall|i: int| 0 <= i < rows.len() ==> 0 <= (#[trigger] rows[i]).fails <= i64::MAX
    &&& forall|i: int|
        0 <= i < rows.len() ==> i64::MIN <= (#[trigger] rows[i]).epoch <= i64::MAX
}

/// A count one higher, held at the largest value a row can store.
pub open spec fn bump(fails: int) -> int {
    if fails < i64::MAX {
        fails + 1
    } else {
        fails
    }
}

/// The rows after one failure of `url` was recorded in run `epoch`.
pub open spec fn record_failure(rows: Seq<RecordModel>, url: Seq<char>, epoch: int) -> Seq<
    RecordModel,
> {
    if has_url(rows, url) {
        let i = index_of_url(rows, url);
        rows.update(i, RecordModel { url, fails: bump(rows[i].fails), epoch })
    } else {
        rows.push(RecordModel { url, fails: 1, epoch })
    }
}

/// The rows that were written in run `epoch`, in their order.
pub open spec fn prune_stale(rows: Seq<RecordModel>, epoch: int) -> Seq<RecordModel> {
    rows.filter(|r: RecordModel| r.epoch == epoch)
}

/// The urls whose count has reached `threshold`, in the order of their rows.
pub open spec fn domains_at_or_above(rows: Seq<RecordModel>, threshold: int) -> Seq<Seq<char>> {
    rows.filter(|r: RecordModel| r.fails >= threshold).map_values(|r: RecordModel| r.url)
}

/// The rows without those keyed by one of `urls`.
pub open spec fn delete_urls(rows: Seq<RecordModel>, urls: Seq<Seq<char>>) -> Seq<RecordModel> {
    rows.filter(|r: RecordModel| !urls.contains(r.url))
}

/// The urls that a list of strings stands for.
pub open spec fn texts_of(names: Seq<String>) -> Seq<Seq<char>> {
    names.map_values(|s: String| s@)
}

/// The durable failure counter, held in memory between load and store.
pub struct FailureLedger {
    records: Vec<FailureRecord>,
}

impl View for FailureLedger {
    type V = Seq<RecordModel>;

    closed spec fn view(&self) -> Seq<RecordModel> {
        rows_of(self.records@)
    }
}

impl FailureLedger {
    /// The ledger's invariant.
    pub open spec fn wf(&self) -> bool {
        rows_wf(self@)
    }

    /// A ledger without rows.
    pub fn new() -> (ledger: FailureLedger)
        ensures
            ledger.wf(),
            ledger@ == Seq::<RecordModel>::empty(),
    {
        let ledger = FailureLedger { records: Vec::new() };
        assert(ledger@ =~= Seq::<RecordModel>::empty());
        ledger
    }

    /// The ledger that holds the given rows, in their order; `None` where two
    /// rows share a url or a count is negative.
    pub fn from_records(records: Vec<FailureRecord>) -> (restored: Option<FailureLedger>)
        ensures
            restored is Some <==> rows_wf(rows_of(records@)),
            restored matches Some(ledger) ==> ledger.wf() && ledger@ == rows_of(records@),
    {
        let ghost rows = rows_of(records@);
        let mut i: usize = 0;
        while i < records.len()
            invariant
                i <= records.len(),
                rows == rows_of(records@),
                rows_wf(rows.take(i as int)),
            decreases records.len() - i,
        {
            if records[i].fails < 0 {
                assert(rows[i as int].fails < 0);
                return None;
            }
            let mut j: usize = 0;
            while j < i
                invariant
                    j <= i < records.len(),
                    rows == rows_of(records@),
                    forall|k: int| 0 <= k < j ==> (#[trigger] rows[k]).url != rows[i as int].url,
                decreases i - j,
            {
                if records[j].url == records[i].url {
                    assert(rows[j as int].url == rows[i as int].url);
                    return None;
                }
                j += 1;
            }
            assert(rows_wf(rows.take(i + 1))) by {
                let longer = rows.take(i + 1);
                assert forall|a: int, b: int|
                    0 <= a < longer.len() && 0 <= b < longer.len() && a != b implies #[trigger] longer[a].url
                    != #[trigger] longer[b].url by {
                    if a < i && b < i {
                        assert(rows.take(i as int)[a].url != rows.take(i as int)[b].url);
                    }
                }
                assert forall|a: int| 0 <= a < longer.len() implies 0 <= (#[trigger] longer[a]).fails
                    <= i64::MAX && i64::MIN <= longer[a].epoch <= i64::MAX by {
                    if a < i {
                        assert(rows.take(i as int)[a] == longer[a]);
                    }
                }
            }
            i += 1;
        }
        assert(rows.take(records.len() as int) =~= rows);
        Some(FailureLedger { records })
    }

    /// A copy of the rows, in their order.
    pub fn records(&self) -> (rows: Vec<FailureRecord>)
        ensures
            rows_of(rows@) == self@,
    {
        let mut rows: Vec<FailureRecord> = Vec::new();
        let mut i: usize = 0;
        while i < self.records.len()
            invariant
                i <= self.records.len(),
                rows_of(rows@) == self@.take(i as int),
            decreases self.records.len() - i,
        {
            let row = &self.records[i];
            let ghost before = rows@;
            rows.push(FailureRecord { url: row.url.clone(), fails: row.fails, epoch: row.epoch });
            proof {
                self@.lemma_take_succ_push(i as int);
                assert(rows_of(rows@) =~= rows_of(before).push(self@[i as int]));
            }
            i += 1;
        }
        assert(self@.take(self.records.len() as int) =~= self@);
        rows
    }

    /// The number of rows.
    pub fn len(&self) -> (n: usize)
        ensures
            n == self@.len(),
    {
        self.records.len()
    }

    /// The place of the row keyed by `url`, if there is one.
    pub fn find(&self, url: &String) -> (found: Option<usize>)
        ensures
            found.is_some() <==> has_url(self@, url@),
            found matches Some(i) ==> i < self@.len() && self@[i as int].url == url@,
    {
        let mut i: usize = 0;
        while i < self.records.len()
            invariant
                i <= self.records.len(),
                forall|j: int| 0 <= j < i ==> (#[trigger] self@[j]).url != url@,
            decreases self.records.len() - i,
        {
            if self.records[i].url == *url {
                assert(self@[i as int].url == url@);
                return Some(i);
            }
            i += 1;
        }
        None
    }
}

/// Records one failure of `url` in run `epoch`: a row that exists has its count
/// raised by one and its epoch overwritten; otherwise a row with count 1 is
/// added.
pub fn domain_expired(ledger: &mut FailureLedger, url: &String, epoch: i64)
    requires
        old(ledger).wf(),
    ensures
        final(ledger).wf(),
        final(ledger)@ == record_failure(old(ledger)@, url@, epoch as int),
{
    let ghost before = ledger@;
    match ledger.find(url) {
        Some(i) => {
            let fails: i64 = ledger.records[i].fails;
            let raised: i64 = if fails < i64::MAX {
                fails + 1
            } else {
                fails
            };
            ledger.records.set(i, FailureRecord { url: url.clone(), fails: raised, epoch });
            proof {
                assert(index_of_url(before, url@) == i);
                assert(ledger@ =~= record_failure(before, url@, epoch as int));
            }
        },
        None => {
            ledger.records.push(FailureRecord { url: url.clone(), fails: 1, epoch });
            proof {
                assert(ledger@ =~= record_failure(before, url@, epoch as int));
            }
        },
    }
}

/// Whether `name` is one of `names`.
pub fn contains_text(names: &Vec<String>, name: &String) -> (found: bool)
    ensures
        found == texts_of(names@).contains(name@),
{
    let mut i: usize = 0;
    while i < names.len()
        invariant
            i <= names.len(),
            forall|j: int| 0 <= j < i ==> (#[trigger] texts_of(names@)[j]) != name@,
        decreases names.len() - i,
    {
        if names[i] == *name {
            assert(texts_of(names@)[i as int] == name@);
            return true;
        }
        i += 1;
    }
    false
}

/// The domains whose count has reached `fails`, in the order of their rows.
pub fn get_domains_past_threshold(ledger: &FailureLedger, fails: i32) -> (domains: Vec<String>)
    ensures
        texts_of(domains@) == domains_at_or_above(ledger@, fails as int),
{
    let ghost rows = ledger@;
    let ghost reached = |r: RecordModel| r.fails >= fails as int;
    let ghost url_of = |r: RecordModel| r.url;
    let mut domains: Vec<String> = Vec::new();
    let mut i: usize = 0;
    assert(rows.take(0) =~= Seq::<RecordModel>::empty());
    assert(texts_of(domains@) =~= rows.take(0).filter(reached).map_values(url_of)) by {
        reveal(Seq::filter);
    }
    while i < ledger.records.len()
        invariant
            i <= ledger.records.len(),
            rows == ledger@,
            reached == (|r: RecordModel| r.fails >= fails as int),
            url_of == (|r: RecordModel| r.url),
            texts_of(domains@) == rows.take(i as int).filter(reached).map_values(url_of),
        decreases ledger.records.len() - i,
    {
        let ghost seen = rows.take(i as int);
        proof {
            rows.lemma_take_succ_push(i as int);
            seen.lemma_filter_push(rows[i as int], reached);
        }
        if ledger.records[i].fails >= fails as i64 {
            let ghost listed = domains@;
            domains.push(ledger.records[i].url.clone());
            proof {
                seen.filter(reached).lemma_push_map_commute(url_of, rows[i as int]);
                assert(texts_of(domains@) =~= texts_of(listed).push(rows[i as int].url));
            }
        }
        i += 1;
    }
    proof {
        rows.lemma_take_len();
    }
    domains
}

/// Forgets every row that was not written in run `epoch`; the rows of that run
/// stay as they are, in their order.
pub fn remove_good_domains_from_table(ledger: &mut FailureLedger, epoch: i64)
    requires
        old(ledger).wf(),
    ensures
        final(ledger).wf(),
        final(ledger)@ == prune_stale(old(ledger)@, epoch as int),
{
    let ghost rows = ledger@;
    let ghost fresh = |r: RecordModel| r.epoch == epoch as int;
    let mut kept: Vec<FailureRecord> = Vec::new();
    let mut i: usize = 0;
    assert(rows.take(0) =~= Seq::<RecordModel>::empty());
    assert(rows_of(kept@) =~= rows.take(0).filter(fresh)) by {
        reveal(Seq::filter);
    }
    while i < ledger.records.len()
        invariant
            i <= ledger.records.len(),
            rows == ledger@,
            fresh == (|r: RecordModel| r.epoch == epoch as int),
            rows_of(kept@) == rows.take(i as int).filter(fresh),
        decreases ledger.records.len() - i,
    {
        proof {
            rows.lemma_take_succ_push(i as int);
            rows.take(i as int).lemma_filter_push(rows[i as int], fresh);
        }
        if ledger.records[i].epoch == epoch {
            let ghost before = kept@;
            let row = &ledger.records[i];
            kept.push(FailureRecord { url: row.url.clone(), fails: row.fails, epoch: row.epoch });
            assert(rows_of(kept@) =~= rows_of(before).push(rows[i as int]));
        }
        i += 1;
    }
    proof {
        rows.lemma_take_len();
        lemma_filter_keeps_wf(rows, fresh);
    }
    ledger.records = kept;
}

/// Removes the rows of the given domains; the other rows stay as they are, in
/// their order.
pub fn remove_domains_from_table(ledger: &mut FailureLedger, domains: Vec<String>)
    requires
        old(ledger).wf(),
    ensures
        final(ledger).wf(),
        final(ledger)@ == delete_urls(old(ledger)@, texts_of(domains@)),
{
    let ghost rows = ledger@;
    let ghost urls = texts_of(domains@);
    let ghost stays = |r: RecordModel| !urls.contains(r.url);
    let mut kept: Vec<FailureRecord> = Vec::new();
    let mut i: usize = 0;
    assert(rows.take(0) =~= Seq::<RecordModel>::empty());
    assert(rows_of(kept@) =~= rows.take(0).filter(stays)) by {
        reveal(Seq::filter);
    }
    while i < ledger.records.len()
        invariant
            i <= ledger.records.len(),
            rows == ledger@,
            urls == texts_of(domains@),
            stays == (|r: RecordModel| !urls.contains(r.url)),
            rows_of(kept@) == rows.take(i as int).filter(stays),
        decreases ledger.records.len() - i,
    {
        proof {
            rows.lemma_take_succ_push(i as int);
            rows.take(i as int).lemma_filter_push(rows[i as int], stays);
        }
        if !contains_text(&domains, &ledger.records[i].url) {
            let ghost before = kept@;
            let row = &ledger.records[i];
            kept.push(FailureRecord { url: row.url.clone(), fails: row.fails, epoch: row.epoch });
            assert(rows_of(kept@) =~= rows_of(before).push(rows[i as int]));
        }
        i += 1;
    }
    proof {
        rows.lemma_take_len();
        lemma_filter_keeps_wf(rows, stays);
    }
    ledger.records = kept;
}

/// Leaving rows out keeps a ledger's invariant, and what stays was there before.
pub proof fn lemma_filter_keeps_wf(rows: Seq<RecordModel>, keep: spec_fn(RecordModel) -> bool)
    requires
        rows_wf(rows),
    ensures
        rows_wf(rows.filter(keep)),
        forall|r: RecordModel| #[trigger]
            rows.filter(keep).contains(r) ==> rows.contains(r) && keep(r),
        forall|r: RecordModel| #[trigger] rows.contains(r) && keep(r) ==> rows.filter(keep).contains(r),
    decreases rows.len(),
{
    reveal(Seq::filter);
    let kept = rows.filter(keep);
    if rows.len() == 0 {
    } else {
        let front = rows.drop_last();
        let last = rows.last();
        let inner = front.filter(keep);
        lemma_filter_keeps_wf(front, keep);
        assert forall|r: RecordModel| #[trigger] kept.contains(r) implies rows.contains(r) && keep(
            r,
        ) by {
            {
                let k = choose|k: int| 0 <= k < kept.len() && kept[k] == r;
                if k < inner.len() {
                    assert(inner[k] == r);
                    assert(inner.contains(r));
                    let j = choose|j: int| 0 <= j < front.len() && front[j] == r;
                    assert(rows[j] == r);
                } else {
                    assert(r == last);
                    assert(rows[rows.len() - 1] == r);
                }
            }
        }
        assert forall|r: RecordModel| #[trigger] rows.contains(r) && keep(r) implies kept.contains(
            r,
        ) by {
            {
                let j = choose|j: int| 0 <= j < rows.len() && rows[j] == r;
                if j < front.len() {
                    assert(front[j] == r);
                    assert(inner.contains(r));
                    let k = choose|k: int| 0 <= k < inner.len() && inner[k] == r;
                    assert(kept[k] == r);
                } else {
                    assert(kept[kept.len() - 1] == r);
                }
            }
        }
        assert forall|i: int, j: int|
            0 <= i < kept.len() && 0 <= j < kept.len() && i != j implies #[trigger] kept[i].url
            != #[trigger] kept[j].url by {
            if keep(last) {
                if i == inner.len() || j == inner.len() {
                    let k = if i == inner.len() {
                        j
                    } else {
                        i
                    };
                    assert(inner[k] == kept[k]);
                    assert(inner.contains(kept[k]));
                    assert(front.contains(kept[k]));
                    let m = choose|m: int| 0 <= m < front.len() && front[m] == kept[k];
                    assert(rows[m].url != rows[rows.len() - 1].url);
                } else {
                    assert(inner[i] == kept[i] && inner[j] == kept[j]);
                }
            }
        }
        assert forall|i: int| 0 <= i < kept.len() implies 0 <= (#[trigger] kept[i]).fails
            <= i64::MAX && i64::MIN <= kept[i].epoch <= i64::MAX by {
            assert(kept.contains(kept[i]));
            let m = choose|m: int| 0 <= m < rows.len() && rows[m] == kept[i];
        }
    }
}

/// What recording a failure does to the rows: the row of `url` is there
/// afterwards, with a count of 1 if it is new and a count raised by one if it
/// is not, and every other row is as it was.
pub proof fn lemma_record_failure(rows: Seq<RecordModel>, url: Seq<char>, epoch: i64)
    requires
        rows_wf(rows),
    ensures
        rows_wf(record_failure(rows, url, epoch as int)),
        has_url(record_failure(rows, url, epoch as int), url),
        row_of(record_failure(rows, url, epoch as int), url) == (RecordModel {
            url,
            fails: if has_url(rows, url) {
                bump(row_of(rows, url).fails)
            } else {
                1
            },
            epoch: epoch as int,
        }),
        forall|other: Seq<char>|
            other != url ==> has_url(record_failure(rows, url, epoch as int), other) == has_url(
                rows,
                other,
            ),
        forall|other: Seq<char>|
            other != url && has_url(rows, other) ==> row_of(
                record_failure(rows, url, epoch as int),
                other,
            ) == row_of(rows, other),
{
    let after = record_failure(rows, url, epoch as int);
    let at = if has_url(rows, url) {
        index_of_url(rows, url)
    } else {
        rows.len() as int
    };
    assert(after[at].url == url);
    assert(index_of_url(after, url) == at);
    assert forall|other: Seq<char>| other != url implies has_url(after, other) == has_url(
        rows,
        other,
    ) by {
        if has_url(rows, other) {
            let i = index_of_url(rows, other);
            assert(after[i].url == other);
        }
        if has_url(after, other) {
            let i = index_of_url(after, other);
            assert(rows[i].url == other);
        }
    }
    assert forall|other: Seq<char>| other != url && has_url(rows, other) implies row_of(
        after,
        other,
    ) == row_of(rows, other) by {
        let i = index_of_url(rows, other);
        assert(after[i].url == other);
        assert(index_of_url(after, other) == i);
    }
}

/// The rows after a failure of `url` was recorded in each of `epochs`, one
/// after the other.
pub open spec fn record_each(rows: Seq<RecordModel>, url: Seq<char>, epochs: Seq<i64>) -> Seq<
    RecordModel,
>
    decreases epochs.len(),
{
    if epochs.len() == 0 {
        rows
    } else {
        record_failure(record_each(rows, url, epochs.drop_last()), url, epochs.last() as int)
    }
}

/// A domain that the ledger does not know and that fails in each of `k` runs in
/// a row has the count `k` afterwards (held at the largest count a row can
/// store), under the epoch of the last of these runs.
pub proof fn lemma_consecutive_failures_are_counted(
    rows: Seq<RecordModel>,
    url: Seq<char>,
    epochs: Seq<i64>,
)
    requires
        rows_wf(rows),
        !has_url(rows, url),
        epochs.len() >= 1,
    ensures
        rows_wf(record_each(rows, url, epochs)),
        has_url(record_each(rows, url, epochs), url),
        row_of(record_each(rows, url, epochs), url).fails == if epochs.len() <= i64::MAX {
            epochs.len() as int
        } else {
            i64::MAX as int
        },
        row_of(record_each(rows, url, epochs), url).epoch == epochs.last(),
    decreases epochs.len(),
{
    let earlier = record_each(rows, url, epochs.drop_last());
    if epochs.len() == 1 {
        assert(earlier == rows);
    } else {
        lemma_consecutive_failures_are_counted(rows, url, epochs.drop_last());
    }
    lemma_record_failure(earlier, url, epochs.last());
}

/// Pruning keeps exactly the rows of the given run: every row with another
/// epoch is gone, and every row with this epoch is still there, unchanged.
pub proof fn lemma_prune_stale_keeps_the_run(rows: Seq<RecordModel>, epoch: i64)
    requires
        rows_wf(rows),
    ensures
        rows_wf(prune_stale(rows, epoch as int)),
        forall|r: RecordModel| #[trigger]
            prune_stale(rows, epoch as int).contains(r) <==> rows.contains(r) && r.epoch == epoch,
{
    lemma_filter_keeps_wf(rows, |r: RecordModel| r.epoch == epoch as int);
}

/// The threshold query names exactly the domains whose count has reached the
/// threshold.
pub proof fn lemma_at_or_above_is_exact(rows: Seq<RecordModel>, threshold: int, url: Seq<char>)
    requires
        rows_wf(rows),
    ensures
        domains_at_or_above(rows, threshold).contains(url) <==> has_url(rows, url) && row_of(
            rows,
            url,
        ).fails >= threshold,
{
    let reached = |r: RecordModel| r.fails >= threshold;
    let url_of = |r: RecordModel| r.url;
    let kept = rows.filter(reached);
    let named = domains_at_or_above(rows, threshold);
    lemma_filter_keeps_wf(rows, reached);
    if named.contains(url) {
        let k = choose|k: int| 0 <= k < named.len() && named[k] == url;
        assert(kept.contains(kept[k]));
        let i = choose|i: int| 0 <= i < rows.len() && rows[i] == kept[k];
        assert(rows[i].url == url);
        assert(index_of_url(rows, url) == i);
    }
    if has_url(rows, url) && row_of(rows, url).fails >= threshold {
        let i = index_of_url(rows, url);
        assert(rows.contains(rows[i]));
        let k = choose|k: int| 0 <= k < kept.len() && kept[k] == rows[i];
        assert(named[k] == url);
    }
}

/// A higher threshold names no domain that a lower one does not name.
pub proof fn lemma_at_or_above_is_monotonic(
    rows: Seq<RecordModel>,
    lower: int,
    higher: int,
    url: Seq<char>,
)
    requires
        rows_wf(rows),
        lower <= higher,
        domains_at_or_above(rows, higher).contains(url),
    ensures
        domains_at_or_above(rows, lower).contains(url),
{
    lemma_at_or_above_is_exact(rows, higher, url);
    lemma_at_or_above_is_exact(rows, lower, url);
}

/// What leaving rows out does to a single domain: its row is still there
/// exactly if it was there and is kept, and is then unchanged.
pub proof fn lemma_filter_row(
    rows: Seq<RecordModel>,
    keep: spec_fn(RecordModel) -> bool,
    url: Seq<char>,
)
    requires
        rows_wf(rows),
    ensures
        has_url(rows.filter(keep), url) <==> has_url(rows, url) && keep(row_of(rows, url)),
        has_url(rows.filter(keep), url) ==> row_of(rows.filter(keep), url) == row_of(rows, url),
{
    let kept = rows.filter(keep);
    lemma_filter_keeps_wf(rows, keep);
    if has_url(kept, url) {
        let k = index_of_url(kept, url);
        assert(kept.contains(kept[k]));
        let i = choose|i: int| 0 <= i < rows.len() && rows[i] == kept[k];
        assert(rows[i].url == url);
        assert(index_of_url(rows, url) == i);
    }
    if has_url(rows, url) && keep(row_of(rows, url)) {
        let i = index_of_url(rows, url);
        assert(rows.contains(rows[i]));
        let k = choose|k: int| 0 <= k < kept.len() && kept[k] == rows[i];
        assert(kept[k].url == url);
    }
}

} // verus!
