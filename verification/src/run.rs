//! One run of the monitor: from the CDN's list to the ledger and the
//! removals.

use crate::cdn::{
    cloudflare_fetch, is_fetch_failure, is_fetched_within, CloudflareDomainStatus, FetchError, HostnameApi,
    HostnameObservation,
};
use crate::classify::{
    check_domain_status, is_verdict, DomainStatus, HttpClient, TransportError,
};
use crate::ledger::{
    bump, delete_urls, domain_expired, domains_at_or_above, get_domains_past_threshold, has_url,
    index_of_url, lemma_filter_row, lemma_record_failure, prune_stale, record_failure,
    remove_domains_from_table, remove_good_domains_from_table, row_of, rows_wf, texts_of,
    FailureLedger, RecordModel,
};
use crate::removal::{
    is_removal_pass, is_removal_result, lemma_removed_had_a_site, remove_domains, removed_of,
    removed_texts, CommandRunner, MappingFetchError, RemovalAttempt,
};
use vstd::prelude::*;
use vstd::string::StringExecFns;

verus! {

/// The number of runs in a row in which a domain has to fail before it is
/// removed.
pub const REMOVAL_THRESHOLD: i32 = 3;

/// The CDN reports a status that is acted on.
pub open spec fn is_recognized(seen: HostnameObservation) -> bool {
    !(seen.cdn_status is Other)
}

/// The CDN reports that the hostname's certificate has expired.
pub open spec fn is_reported_expired(seen: HostnameObservation) -> bool {
    seen.cdn_status is Expired
}

/// The domains that the CDN reports as expired, in the order of the list.
pub open spec fn reported_expired(seen: Seq<HostnameObservation>) -> Seq<Seq<char>> {
    seen.filter(|o: HostnameObservation| is_reported_expired(o)).map_values(
        |o: HostnameObservation| o.domain@,
    )
}

/// The number of hostnames with a status that is acted on.
pub open spec fn recognized_count(seen: Seq<HostnameObservation>) -> nat {
    seen.filter(|o: HostnameObservation| is_recognized(o)).len()
}

/// The circuit breaker: more than a tenth of the hostnames are reported as
/// expired, which is taken for a fault of the CDN.
pub open spec fn breaker_trips(total: nat, expired: nat) -> bool {
    expired > total / 10
}

/// The CDN's word for a status that is not acted on; no text for a status
/// that is.
pub open spec fn unknown_word(seen: HostnameObservation) -> Seq<char> {
    match seen.cdn_status {
        CloudflareDomainStatus::Other(raw) => raw@,
        _ => Seq::empty(),
    }
}

/// The hostnames with a status that is not acted on, each with the CDN's word
/// for it, in the order of the list.
pub open spec fn passed_over_of(seen: Seq<HostnameObservation>) -> Seq<(Seq<char>, Seq<char>)> {
    seen.filter(|o: HostnameObservation| !is_recognized(o)).map_values(
        |o: HostnameObservation| (o.domain@, unknown_word(o)),
    )
}

/// A hostname that was passed over, with the CDN's word for its status.
#[derive(Debug, Clone, PartialEq, Eq)]
pub struct PassedOver {
    pub domain: String,
    pub status: String,
}

/// What a list of hostnames that were passed over stands for.
pub open spec fn passed_over_texts(list: Seq<PassedOver>) -> Seq<(Seq<char>, Seq<char>)> {
    list.map_values(|p: PassedOver| (p.domain@, p.status@))
}

/// What the CDN's list comes to: how many hostnames have a status that is
/// acted on, which of them are reported as expired, and which hostnames were
/// passed over.
#[derive(Debug, PartialEq, Eq)]
pub struct Triage {
    pub total: usize,
    pub expired: Vec<String>,
    pub passed_over: Vec<PassedOver>,
}

/// Sorts the CDN's list: a hostname with a status that is not known is passed
/// over, the others are counted, and those reported as expired are listed.
pub fn triage(seen: &Vec<HostnameObservation>) -> (sorted: Triage)
    ensures
        sorted.total == recognized_count(seen@),
        texts_of(sorted.expired@) == reported_expired(seen@),
        passed_over_texts(sorted.passed_over@) == passed_over_of(seen@),
{
    let ghost recognized = |o: HostnameObservation| is_recognized(o);
    let ghost unknown = |o: HostnameObservation| !is_recognized(o);
    let ghost expired_one = |o: HostnameObservation| is_reported_expired(o);
    let ghost domain_of = |o: HostnameObservation| o.domain@;
    let ghost word_of = |o: HostnameObservation| (o.domain@, unknown_word(o));
    let mut total: usize = 0;
    let mut expired: Vec<String> = Vec::new();
    let mut passed_over: Vec<PassedOver> = Vec::new();
    let mut i: usize = 0;
    assert(seen@.take(0) =~= Seq::<HostnameObservation>::empty());
    assert(seen@.take(0).filter(recognized).len() == 0 && texts_of(expired@) =~= seen@.take(
        0,
    ).filter(expired_one).map_values(domain_of) && passed_over_texts(passed_over@) =~= seen@.take(
        0,
    ).filter(unknown).map_values(word_of)) by {
        reveal(Seq::filter);
    }
    while i < seen.len()
        invariant
            i <= seen.len(),
            recognized == (|o: HostnameObservation| is_recognized(o)),
            unknown == (|o: HostnameObservation| !is_recognized(o)),
            expired_one == (|o: HostnameObservation| is_reported_expired(o)),
            domain_of == (|o: HostnameObservation| o.domain@),
            word_of == (|o: HostnameObservation| (o.domain@, unknown_word(o))),
            total == seen@.take(i as int).filter(recognized).len(),
            total <= i,
            texts_of(expired@) == seen@.take(i as int).filter(expired_one).map_values(domain_of),
            passed_over_texts(passed_over@) == seen@.take(i as int).filter(unknown).map_values(
                word_of,
            ),
        decreases seen.len() - i,
    {
        let ghost read = seen@.take(i as int);
        proof {
            seen@.lemma_take_succ_push(i as int);
            read.lemma_filter_push(seen@[i as int], recognized);
            read.lemma_filter_push(seen@[i as int], expired_one);
            read.lemma_filter_push(seen@[i as int], unknown);
        }
        match &seen[i].cdn_status {
            CloudflareDomainStatus::Other(raw) => {
                let ghost listed = passed_over_texts(passed_over@);
                passed_over.push(PassedOver { domain: seen[i].domain.clone(), status: raw.clone() });
                proof {
                    read.filter(unknown).lemma_push_map_commute(word_of, seen@[i as int]);
                    assert(passed_over_texts(passed_over@) =~= listed.push(
                        (seen@[i as int].domain@, raw@),
                    ));
                }
            },
            CloudflareDomainStatus::Expired => {
                total += 1;
                let ghost listed = texts_of(expired@);
                expired.push(seen[i].domain.clone());
                proof {
                    read.filter(expired_one).lemma_push_map_commute(domain_of, seen@[i as int]);
                    assert(texts_of(expired@) =~= listed.push(seen@[i as int].domain@));
                }
            },
            _ => {
                total += 1;
            },
        }
        i += 1;
    }
    proof {
        seen@.lemma_take_len();
    }
    Triage { total, expired, passed_over }
}

/// Whether the circuit breaker trips.
pub fn too_many_expired(total: usize, expired: usize) -> (trips: bool)
    ensures
        trips == breaker_trips(total as nat, expired as nat),
{
    expired > total / 10
}

/// The address under which a domain is asked for.
pub fn probe_url(domain: &str) -> (url: String)
    ensures
        url@ == "https://"@ + domain@,
{
    let mut url = String::from_str("https://");
    url.append(domain);
    url
}

/// Asks for the domain's page once and classifies what came back.
pub fn classify(client: &dyn HttpClient, domain: &str) -> (status: DomainStatus)
    ensures
        exists|outcome: Result<(u16, String), TransportError>|
            crate::classify::is_verdict(status, outcome),
{
    check_domain_status(client, probe_url(domain).as_str())
}

/// Whether a domain with this live status counts as failing.
pub fn still_problematic(status: &DomainStatus) -> (failing: bool)
    ensures
        failing == !(*status is Healthy),
{
    match status {
        DomainStatus::Healthy => false,
        _ => true,
    }
}

/// A candidate with what the live check found.
#[derive(Debug, Clone, PartialEq, Eq)]
pub struct LiveCheck {
    pub domain: String,
    pub status: DomainStatus,
}

/// The check is one of `domain`, and its status is what some outcome of a
/// request is classified as.
pub open spec fn is_live_check(check: LiveCheck, domain: Seq<char>) -> bool {
    &&& check.domain@ == domain
    &&& exists|outcome: Result<(u16, String), TransportError>| is_verdict(check.status, outcome)
}

/// The checks are those of the candidates: one for each, in their order.
pub open spec fn is_live_checks(checks: Seq<LiveCheck>, candidates: Seq<Seq<char>>) -> bool {
    &&& checks.len() == candidates.len()
    &&& forall|i: int| 0 <= i < checks.len() ==> is_live_check(#[trigger] checks[i], candidates[i])
}

/// Asks for each candidate once and notes what the live check found.
pub fn live_checks(client: &dyn HttpClient, candidates: &Vec<String>) -> (checks: Vec<LiveCheck>)
    ensures
        is_live_checks(checks@, texts_of(candidates@)),
{
    let mut checks: Vec<LiveCheck> = Vec::new();
    let mut i: usize = 0;
    while i < candidates.len()
        invariant
            i <= candidates.len(),
            checks.len() == i,
            forall|k: int|
                0 <= k < i ==> is_live_check(#[trigger] checks@[k], texts_of(candidates@)[k]),
        decreases candidates.len() - i,
    {
        let status = classify(client, candidates[i].as_str());
        checks.push(LiveCheck { domain: candidates[i].clone(), status });
        i += 1;
    }
    checks
}

/// The candidates that count as failing: those whose live check did not find
/// the platform's content, in the order of the checks. The CDN's report
/// alone is not trusted.
pub open spec fn failing_texts(checks: Seq<LiveCheck>) -> Seq<Seq<char>> {
    checks.filter(|c: LiveCheck| !(c.status is Healthy)).map_values(|c: LiveCheck| c.domain@)
}

/// The candidates that count as failing, in the order of the checks: every
/// candidate but those that the live check found healthy.
pub fn failing_of(checks: &Vec<LiveCheck>) -> (failing: Vec<String>)
    ensures
        texts_of(failing@) == failing_texts(checks@),
{
    let ghost fails = |c: LiveCheck| !(c.status is Healthy);
    let ghost domain_of = |c: LiveCheck| c.domain@;
    let mut failing: Vec<String> = Vec::new();
    let mut i: usize = 0;
    assert(checks@.take(0) =~= Seq::<LiveCheck>::empty());
    assert(texts_of(failing@) =~= checks@.take(0).filter(fails).map_values(domain_of)) by {
        reveal(Seq::filter);
    }
    while i < checks.len()
        invariant
            i <= checks.len(),
            fails == (|c: LiveCheck| !(c.status is Healthy)),
            domain_of == (|c: LiveCheck| c.domain@),
            texts_of(failing@) == checks@.take(i as int).filter(fails).map_values(domain_of),
        decreases checks.len() - i,
    {
        let ghost read = checks@.take(i as int);
        proof {
            checks@.lemma_take_succ_push(i as int);
            read.lemma_filter_push(checks@[i as int], fails);
        }
        if still_problematic(&checks[i].status) {
            let ghost listed = texts_of(failing@);
            failing.push(checks[i].domain.clone());
            proof {
                read.filter(fails).lemma_push_map_commute(domain_of, checks@[i as int]);
                assert(texts_of(failing@) =~= listed.push(checks@[i as int].domain@));
            }
        }
        i += 1;
    }
    proof {
        checks@.lemma_take_len();
    }
    failing
}

/// The rows after one failure of each of `urls` was recorded in run `epoch`,
/// one after the other.
pub open spec fn record_all(rows: Seq<RecordModel>, urls: Seq<Seq<char>>, epoch: int) -> Seq<
    RecordModel,
>
    decreases urls.len(),
{
    if urls.len() == 0 {
        rows
    } else {
        record_failure(record_all(rows, urls.drop_last(), epoch), urls.last(), epoch)
    }
}

/// The rows after the failing domains of run `epoch` were recorded and the
/// rows of earlier runs that were not seen again were forgotten.
pub open spec fn recorded_run(rows: Seq<RecordModel>, urls: Seq<Seq<char>>, epoch: int) -> Seq<
    RecordModel,
> {
    prune_stale(record_all(rows, urls, epoch), epoch)
}

/// Records one failure for each of the domains, forgets the rows that were not
/// written in this run, and names the domains that have now failed often
/// enough to be removed.
pub fn record_run(ledger: &mut FailureLedger, domains: &Vec<String>, epoch: i64) -> (due: Vec<
    String,
>)
    requires
        old(ledger).wf(),
    ensures
        final(ledger).wf(),
        final(ledger)@ == recorded_run(old(ledger)@, texts_of(domains@), epoch as int),
        texts_of(due@) == domains_at_or_above(final(ledger)@, REMOVAL_THRESHOLD as int),
{
    let ghost before = ledger@;
    let mut i: usize = 0;
    assert(texts_of(domains@).take(0) =~= Seq::<Seq<char>>::empty());
    while i < domains.len()
        invariant
            i <= domains.len(),
            ledger.wf(),
            ledger@ == record_all(before, texts_of(domains@).take(i as int), epoch as int),
        decreases domains.len() - i,
    {
        proof {
            let read = texts_of(domains@).take(i + 1);
            assert(read.drop_last() =~= texts_of(domains@).take(i as int));
            assert(read.last() == domains@[i as int]@);
        }
        domain_expired(ledger, &domains[i], epoch);
        i += 1;
    }
    assert(texts_of(domains@).take(domains.len() as int) =~= texts_of(domains@));
    remove_good_domains_from_table(ledger, epoch);
    get_domains_past_threshold(ledger, REMOVAL_THRESHOLD)
}

/// The rows after a run: what was recorded, without the rows of the domains
/// that were removed; all of what was recorded where the removal pass failed
/// as a whole.
pub open spec fn rows_after_removal(
    recorded: Seq<RecordModel>,
    removal: Result<Vec<RemovalAttempt>, MappingFetchError>,
) -> Seq<RecordModel> {
    match removal {
        Ok(attempts) => delete_urls(recorded, removed_texts(attempts@)),
        Err(_) => recorded,
    }
}

/// What a run under a given epoch does, given the response to the request
/// for the feed: the failing domains are recorded, the removal is attempted
/// for the domains that are then due, one attempt for each, and the rows of
/// those that were removed leave the ledger.
pub open spec fn is_processing(
    before: Seq<RecordModel>,
    after: Seq<RecordModel>,
    urls: Seq<Seq<char>>,
    epoch: int,
    removal: Result<Vec<RemovalAttempt>, MappingFetchError>,
    feed: Result<(u16, String), TransportError>,
) -> bool {
    let recorded = recorded_run(before, urls, epoch);
    &&& is_removal_result(removal, domains_at_or_above(recorded, REMOVAL_THRESHOLD as int), feed)
    &&& after == rows_after_removal(recorded, removal)
}

/// The second half of a run, under a given epoch: records the failing
/// domains, forgets what was not seen again, attempts the removal of the
/// domains that are due, and takes those that were removed out of the ledger.
pub fn process_in_epoch(
    ledger: &mut FailureLedger,
    epoch: i64,
    domains: &Vec<String>,
    feed: &dyn HttpClient,
    api: &dyn HostnameApi,
    runner: &dyn CommandRunner,
    zone_id: &str,
) -> (removal: Result<Vec<RemovalAttempt>, MappingFetchError>)
    requires
        old(ledger).wf(),
    ensures
        final(ledger).wf(),
        exists|outcome: Result<(u16, String), TransportError>|
            is_processing(
                old(ledger)@,
                final(ledger)@,
                texts_of(domains@),
                epoch as int,
                removal,
                outcome,
            ),
{
    let ghost before = ledger@;
    let due = record_run(ledger, domains, epoch);
    let removal = remove_domains(feed, api, runner, zone_id, &due);
    match &removal {
        Ok(attempts) => {
            remove_domains_from_table(ledger, removed_of(attempts));
        },
        Err(_) => {},
    }
    proof {
        let outcome = choose|outcome: Result<(u16, String), TransportError>|
            is_removal_result(removal, texts_of(due@), outcome);
        assert(is_processing(
            before,
            ledger@,
            texts_of(domains@),
            epoch as int,
            removal,
            outcome,
        ));
    }
    removal
}

/// `rand::random` for an `i64`: a number that tells this run from the
/// others. Nothing is claimed of it.
#[verifier::external_body]
fn fresh_epoch() -> i64 {
    rand::random::<i64>()
}

/// The second half of a run, under an epoch of its own.
pub fn process_problematic_domains(
    ledger: &mut FailureLedger,
    domains: &Vec<String>,
    feed: &dyn HttpClient,
    api: &dyn HostnameApi,
    runner: &dyn CommandRunner,
    zone_id: &str,
) -> (removal: Result<Vec<RemovalAttempt>, MappingFetchError>)
    requires
        old(ledger).wf(),
    ensures
        final(ledger).wf(),
        exists|epoch: i64, outcome: Result<(u16, String), TransportError>|
            is_processing(
                old(ledger)@,
                final(ledger)@,
                texts_of(domains@),
                epoch as int,
                removal,
                outcome,
            ),
{
    let epoch = fresh_epoch();
    process_in_epoch(ledger, epoch, domains, feed, api, runner, zone_id)
}

/// Why a run was given up before it touched the ledger.
#[derive(Debug, Clone, PartialEq, Eq)]
pub enum RunError {
    /// The CDN's list could not be had.
    Fetch(FetchError),
    /// The circuit breaker tripped.
    TooManyExpired { total: usize, expired: usize },
}

/// What the check of the CDN's list yields: the sorted list, or the numbers
/// on which the circuit breaker tripped.
pub open spec fn is_survey(sorted: Result<Triage, RunError>, seen: Seq<HostnameObservation>)
    -> bool {
    if breaker_trips(recognized_count(seen), reported_expired(seen).len()) {
        sorted matches Err(RunError::TooManyExpired { total, expired }) && total
            == recognized_count(seen) && expired == reported_expired(seen).len()
    } else {
        sorted matches Ok(found) && found.total == recognized_count(seen) && texts_of(
            found.expired@,
        ) == reported_expired(seen) && passed_over_texts(found.passed_over@) == passed_over_of(
            seen,
        )
    }
}

/// Sorts the CDN's list and stops where too much of it is reported as
/// expired.
pub fn sanity_checked(seen: &Vec<HostnameObservation>) -> (sorted: Result<Triage, RunError>)
    ensures
        is_survey(sorted, seen@),
{
    let found = triage(seen);
    if too_many_expired(found.total, found.expired.len()) {
        Err(RunError::TooManyExpired { total: found.total, expired: found.expired.len() })
    } else {
        Ok(found)
    }
}

/// What a run did.
#[derive(Debug, PartialEq, Eq)]
pub struct RunReport {
    /// The number of hostnames with a status that is acted on.
    pub total: usize,
    /// The hostnames that were passed over for a status that is not known.
    pub passed_over: Vec<PassedOver>,
    /// The domains that the CDN reported as expired, each with what the live
    /// check found.
    pub checks: Vec<LiveCheck>,
    /// Those of them that were found failing and recorded.
    pub problematic: Vec<String>,
    /// What was attempted for each domain that was due for removal, or why
    /// no removal was attempted.
    pub removal: Result<Vec<RemovalAttempt>, MappingFetchError>,
}

/// The run went from the ledger `before` to the ledger `after` on these
/// grounds: the list `seen`, fetched whole from the pages `bodies`, passed
/// the circuit breaker; each domain reported as expired was checked live;
/// the failing domains are those that the live check did not find healthy;
/// and they were processed under `epoch`, with `feed` as the response to the
/// request for the feed.
pub open spec fn is_run(
    report: RunReport,
    before: Seq<RecordModel>,
    after: Seq<RecordModel>,
    seen: Seq<HostnameObservation>,
    bodies: Seq<Seq<char>>,
    epoch: int,
    feed: Result<(u16, String), TransportError>,
) -> bool {
    &&& is_fetched_within(seen, bodies, 1)
    &&& !breaker_trips(recognized_count(seen), reported_expired(seen).len())
    &&& report.total == recognized_count(seen)
    &&& passed_over_texts(report.passed_over@) == passed_over_of(seen)
    &&& is_live_checks(report.checks@, reported_expired(seen))
    &&& texts_of(report.problematic@) == failing_texts(report.checks@)
    &&& is_processing(before, after, texts_of(report.problematic@), epoch, report.removal, feed)
}

/// The circuit breaker tripped on a list that was fetched whole.
pub open spec fn is_tripped(
    total: usize,
    expired: usize,
    seen: Seq<HostnameObservation>,
    bodies: Seq<Seq<char>>,
) -> bool {
    &&& is_fetched_within(seen, bodies, 1)
    &&& total == recognized_count(seen)
    &&& expired == reported_expired(seen).len()
    &&& breaker_trips(total as nat, expired as nat)
}

/// One whole run: fetches the CDN's list, sorts it, stops if too much of it
/// is reported as expired, asks for each reported domain, and records,
/// forgets and removes. A run that is given up leaves the ledger as it was.
pub fn run(
    ledger: &mut FailureLedger,
    cdn: &dyn HttpClient,
    probe: &dyn HttpClient,
    feed: &dyn HttpClient,
    api: &dyn HostnameApi,
    runner: &dyn CommandRunner,
    zone_id: &str,
) -> (outcome: Result<RunReport, RunError>)
    requires
        old(ledger).wf(),
    ensures
        final(ledger).wf(),
        outcome is Err ==> final(ledger)@ == old(ledger)@,
        outcome matches Err(RunError::Fetch(failure)) ==> is_fetch_failure(failure, 1),
        outcome matches Err(RunError::TooManyExpired { total, expired }) ==> exists|
            seen: Seq<HostnameObservation>,
            bodies: Seq<Seq<char>>,
        | is_tripped(total, expired, seen, bodies),
        outcome matches Ok(report) ==> exists|
            seen: Seq<HostnameObservation>,
            bodies: Seq<Seq<char>>,
            epoch: i64,
            response: Result<(u16, String), TransportError>,
        | is_run(report, old(ledger)@, final(ledger)@, seen, bodies, epoch as int, response),
{
    let ghost before = ledger@;
    let seen = match cloudflare_fetch(cdn, zone_id) {
        Ok(seen) => seen,
        Err(failure) => { return Err(RunError::Fetch(failure)); },
    };
    let ghost bodies = choose|bodies: Seq<Seq<char>>| is_fetched_within(seen@, bodies, 1);
    let sorted = match sanity_checked(&seen) {
        Ok(sorted) => sorted,
        Err(tripped) => {
            proof {
                if let RunError::TooManyExpired { total, expired } = tripped {
                    assert(is_tripped(total, expired, seen@, bodies));
                }
            }
            let outcome: Result<RunReport, RunError> = Err(tripped);
            return outcome;
        },
    };
    let checks = live_checks(probe, &sorted.expired);
    let problematic = failing_of(&checks);
    let removal = process_problematic_domains(ledger, &problematic, feed, api, runner, zone_id);
    let report = RunReport {
        total: sorted.total,
        passed_over: sorted.passed_over,
        checks,
        problematic,
        removal,
    };
    proof {
        let (epoch, response) = choose|
            epoch: i64,
            response: Result<(u16, String), TransportError>,
        |
            is_processing(
                before,
                ledger@,
                texts_of(report.problematic@),
                epoch as int,
                report.removal,
                response,
            );
        assert(passed_over_texts(report.passed_over@) == passed_over_of(seen@));
        assert(is_live_checks(report.checks@, reported_expired(seen@)));
        assert(is_run(report, before, ledger@, seen@, bodies, epoch as int, response));
    }
    Ok(report)
}

/// The domains of some rows with their counts, in the rows' order.
pub open spec fn counts_of(rows: Seq<RecordModel>) -> Seq<(Seq<char>, int)> {
    rows.map_values(|r: RecordModel| (r.url, r.fails))
}

/// No row was written in run `epoch`.
pub open spec fn is_fresh(rows: Seq<RecordModel>, epoch: int) -> bool {
    forall|i: int| 0 <= i < rows.len() ==> (#[trigger] rows[i]).epoch != epoch
}

/// Two lists of rows that differ only in how the current run is named: the
/// rows agree in domain and count, and a row of the one is of its current run
/// exactly if the row of the other is of its own; the rows of earlier runs
/// agree in their epoch too.
pub open spec fn agree_but_for_epoch(
    a: Seq<RecordModel>,
    b: Seq<RecordModel>,
    first: int,
    second: int,
) -> bool {
    &&& a.len() == b.len()
    &&& forall|i: int|
        0 <= i < a.len() ==> {
            &&& (#[trigger] a[i]).url == b[i].url
            &&& a[i].fails == b[i].fails
            &&& (a[i].epoch == first) == (b[i].epoch == second)
        }
}

proof fn lemma_record_failure_agrees(
    a: Seq<RecordModel>,
    b: Seq<RecordModel>,
    url: Seq<char>,
    first: i64,
    second: i64,
)
    requires
        rows_wf(a),
        rows_wf(b),
        agree_but_for_epoch(a, b, first as int, second as int),
    ensures
        agree_but_for_epoch(
            record_failure(a, url, first as int),
            record_failure(b, url, second as int),
            first as int,
            second as int,
        ),
{
    if has_url(a, url) {
        let i = index_of_url(a, url);
        assert(b[i].url == url);
        assert(index_of_url(b, url) == i);
    } else if has_url(b, url) {
        let i = index_of_url(b, url);
        assert(a[i].url == url);
    }
}

proof fn lemma_record_all_agrees(
    rows: Seq<RecordModel>,
    urls: Seq<Seq<char>>,
    first: i64,
    second: i64,
)
    requires
        rows_wf(rows),
        is_fresh(rows, first as int),
        is_fresh(rows, second as int),
    ensures
        rows_wf(record_all(rows, urls, first as int)),
        rows_wf(record_all(rows, urls, second as int)),
        agree_but_for_epoch(
            record_all(rows, urls, first as int),
            record_all(rows, urls, second as int),
            first as int,
            second as int,
        ),
    decreases urls.len(),
{
    if urls.len() > 0 {
        lemma_record_all_agrees(rows, urls.drop_last(), first, second);
        let a = record_all(rows, urls.drop_last(), first as int);
        let b = record_all(rows, urls.drop_last(), second as int);
        lemma_record_failure(a, urls.last(), first);
        lemma_record_failure(b, urls.last(), second);
        lemma_record_failure_agrees(a, b, urls.last(), first, second);
    }
}

proof fn lemma_filter_agrees(
    a: Seq<RecordModel>,
    b: Seq<RecordModel>,
    keep_a: spec_fn(RecordModel) -> bool,
    keep_b: spec_fn(RecordModel) -> bool,
    first: int,
    second: int,
)
    requires
        agree_but_for_epoch(a, b, first, second),
        forall|i: int| 0 <= i < a.len() ==> keep_a(#[trigger] a[i]) == keep_b(b[i]),
    ensures
        agree_but_for_epoch(a.filter(keep_a), b.filter(keep_b), first, second),
    decreases a.len(),
{
    reveal(Seq::filter);
    if a.len() > 0 {
        let front_a = a.drop_last();
        let front_b = b.drop_last();
        assert forall|i: int| 0 <= i < front_a.len() implies keep_a(#[trigger] front_a[i])
            == keep_b(front_b[i]) by {
            assert(front_a[i] == a[i]);
        }
        assert(agree_but_for_epoch(front_a, front_b, first, second)) by {
            assert forall|i: int| 0 <= i < front_a.len() implies (#[trigger] front_a[i]).url
                == front_b[i].url && front_a[i].fails == front_b[i].fails && (front_a[i].epoch
                == first) == (front_b[i].epoch == second) by {
                assert(front_a[i] == a[i]);
            }
        }
        lemma_filter_agrees(front_a, front_b, keep_a, keep_b, first, second);
        assert(keep_a(a[a.len() - 1]) == keep_b(b[a.len() - 1]));
    }
}

/// How a run is named does not matter. Two runs that start from the same
/// ledger and see the same domains fail, each under an epoch that the ledger
/// does not hold yet, name the same domains as due for removal; and where the
/// same domains are then removed, both leave the same domains with the same
/// counts.
pub proof fn lemma_run_does_not_depend_on_epoch(
    rows: Seq<RecordModel>,
    urls: Seq<Seq<char>>,
    first: i64,
    second: i64,
    removed: Seq<Seq<char>>,
)
    requires
        rows_wf(rows),
        is_fresh(rows, first as int),
        is_fresh(rows, second as int),
    ensures
        domains_at_or_above(recorded_run(rows, urls, first as int), REMOVAL_THRESHOLD as int)
            == domains_at_or_above(
            recorded_run(rows, urls, second as int),
            REMOVAL_THRESHOLD as int,
        ),
        counts_of(delete_urls(recorded_run(rows, urls, first as int), removed)) == counts_of(
            delete_urls(recorded_run(rows, urls, second as int), removed),
        ),
{
    let a = record_all(rows, urls, first as int);
    let b = record_all(rows, urls, second as int);
    lemma_record_all_agrees(rows, urls, first, second);
    let of_first = |r: RecordModel| r.epoch == first as int;
    let of_second = |r: RecordModel| r.epoch == second as int;
    lemma_filter_agrees(a, b, of_first, of_second, first as int, second as int);
    let kept_a = recorded_run(rows, urls, first as int);
    let kept_b = recorded_run(rows, urls, second as int);
    let reached = |r: RecordModel| r.fails >= REMOVAL_THRESHOLD as int;
    lemma_filter_agrees(kept_a, kept_b, reached, reached, first as int, second as int);
    assert(domains_at_or_above(kept_a, REMOVAL_THRESHOLD as int) =~= domains_at_or_above(
        kept_b,
        REMOVAL_THRESHOLD as int,
    ));
    let stays = |r: RecordModel| !removed.contains(r.url);
    lemma_filter_agrees(kept_a, kept_b, stays, stays, first as int, second as int);
    assert(counts_of(delete_urls(kept_a, removed)) =~= counts_of(delete_urls(kept_b, removed)));
}

/// What recording the failing domains of a run does to a single domain.
pub proof fn lemma_record_all_row(
    rows: Seq<RecordModel>,
    urls: Seq<Seq<char>>,
    epoch: i64,
    url: Seq<char>,
)
    requires
        rows_wf(rows),
    ensures
        rows_wf(record_all(rows, urls, epoch as int)),
        has_url(record_all(rows, urls, epoch as int), url) <==> has_url(rows, url)
            || urls.contains(url),
        urls.contains(url) ==> row_of(record_all(rows, urls, epoch as int), url).epoch == epoch,
        !urls.contains(url) && has_url(rows, url) ==> row_of(
            record_all(rows, urls, epoch as int),
            url,
        ) == row_of(rows, url),
    decreases urls.len(),
{
    if urls.len() > 0 {
        let front = urls.drop_last();
        let earlier = record_all(rows, front, epoch as int);
        lemma_record_all_row(rows, front, epoch, url);
        lemma_record_failure(earlier, urls.last(), epoch);
        if urls.contains(url) {
            let k = choose|k: int| 0 <= k < urls.len() && urls[k] == url;
            if k < front.len() {
                assert(front[k] == url);
            }
        }
        if front.contains(url) {
            let k = choose|k: int| 0 <= k < front.len() && front[k] == url;
            assert(urls[k] == url);
        }
        assert(urls[urls.len() - 1] == urls.last());
    }
}

/// After a run under an epoch that the ledger did not hold yet, the ledger
/// holds exactly the domains that failed in this run.
pub proof fn lemma_run_keeps_the_failing_domains(
    rows: Seq<RecordModel>,
    urls: Seq<Seq<char>>,
    epoch: i64,
    url: Seq<char>,
)
    requires
        rows_wf(rows),
        is_fresh(rows, epoch as int),
    ensures
        has_url(recorded_run(rows, urls, epoch as int), url) <==> urls.contains(url),
{
    let recorded = record_all(rows, urls, epoch as int);
    lemma_record_all_row(rows, urls, epoch, url);
    lemma_filter_row(recorded, |r: RecordModel| r.epoch == epoch as int, url);
}

/// A domain that failed once in a run has, after it, a count one above the
/// count it came with, or 1 where the ledger did not know it.
pub proof fn lemma_run_counts_one_failure(
    rows: Seq<RecordModel>,
    urls: Seq<Seq<char>>,
    epoch: i64,
    at: int,
)
    requires
        rows_wf(rows),
        0 <= at < urls.len(),
        forall|k: int| 0 <= k < urls.len() && k != at ==> urls[k] != urls[at],
    ensures
        has_url(recorded_run(rows, urls, epoch as int), urls[at]),
        row_of(recorded_run(rows, urls, epoch as int), urls[at]).fails == if has_url(
            rows,
            urls[at],
        ) {
            bump(row_of(rows, urls[at]).fails)
        } else {
            1
        },
    decreases urls.len(),
{
    let url = urls[at];
    let front = urls.drop_last();
    let earlier = record_all(rows, front, epoch as int);
    let recorded = record_all(rows, urls, epoch as int);
    lemma_record_all_row(rows, front, epoch, url);
    lemma_record_failure(earlier, urls.last(), epoch);
    if at == urls.len() - 1 {
        if front.contains(url) {
            let k = choose|k: int| 0 <= k < front.len() && front[k] == url;
            assert(urls[k] == url);
        }
    } else {
        assert(front[at] == url);
        assert forall|k: int| 0 <= k < front.len() && k != at implies front[k] != front[at] by {
            assert(front[k] == urls[k]);
        }
        lemma_run_counts_one_failure(rows, front, epoch, at);
        lemma_filter_row(earlier, |r: RecordModel| r.epoch == epoch as int, url);
        assert(urls.last() == urls[urls.len() - 1]);
    }
    lemma_record_all_row(rows, urls, epoch, url);
    assert(urls.contains(url));
    lemma_filter_row(recorded, |r: RecordModel| r.epoch == epoch as int, url);
}

/// A domain whose site the mapping does not know is not removed, whatever
/// the CDN answered, and its row stays in the ledger as it is.
pub proof fn lemma_unmapped_domain_is_kept(
    recorded: Seq<RecordModel>,
    attempts: Seq<RemovalAttempt>,
    domains: Seq<Seq<char>>,
    mapping: Map<Seq<char>, Seq<char>>,
    url: Seq<char>,
)
    requires
        rows_wf(recorded),
        is_removal_pass(attempts, domains, mapping),
        !mapping.contains_key(url),
    ensures
        !removed_texts(attempts).contains(url),
        has_url(recorded, url) ==> has_url(delete_urls(recorded, removed_texts(attempts)), url)
            && row_of(delete_urls(recorded, removed_texts(attempts)), url) == row_of(
            recorded,
            url,
        ),
{
    let removed = removed_texts(attempts);
    if removed.contains(url) {
        lemma_removed_had_a_site(attempts, domains, mapping, url);
    }
    lemma_filter_row(recorded, |r: RecordModel| !removed.contains(r.url), url);
}

} // verus!
