//! The CDN's view of the custom hostnames: the status it reports for each, and
//! the requests that list and delete them.

use crate::classify::{HttpClient, TransportError};
use crate::json::{json_parse, member_of, parse_json, text_of, Json};
use crate::text::{chars_of, decimal, decimal_text, same_text};
use vstd::prelude::*;
use vstd::string::StringExecFns;

verus! {

/// The status that the CDN reports for a hostname's certificate.
#[derive(Debug, Clone, PartialEq, Eq)]
pub enum CloudflareDomainStatus {
    Active,
    PendingValidation,
    Expired,
    /// A status that is not acted on, with the CDN's own word for it.
    Other(String),
}

/// The status that a word of the CDN stands for.
pub open spec fn status_of_word(word: Seq<char>, status: CloudflareDomainStatus) -> bool {
    if word == "active"@ {
        status is Active
    } else if word == "pending_validation"@ {
        status is PendingValidation
    } else if word == "expired"@ {
        status is Expired
    } else {
        status matches CloudflareDomainStatus::Other(raw) && raw@ == word
    }
}

impl CloudflareDomainStatus {
    /// Reads the CDN's word for a status; a word that is not known is kept
    /// in `Other`.
    pub fn parse(input: &str) -> (status: CloudflareDomainStatus)
        ensures
            status_of_word(input@, status),
    {
        let word = chars_of(input);
        if same_text(&word, &chars_of("active")) {
            CloudflareDomainStatus::Active
        } else if same_text(&word, &chars_of("pending_validation")) {
            CloudflareDomainStatus::PendingValidation
        } else if same_text(&word, &chars_of("expired")) {
            CloudflareDomainStatus::Expired
        } else {
            CloudflareDomainStatus::Other(String::from_str(input))
        }
    }
}

impl std::str::FromStr for CloudflareDomainStatus {
    type Err = ();

    fn from_str(input: &str) -> (parsed: Result<CloudflareDomainStatus, ()>)
        ensures
            parsed matches Ok(status) && status_of_word(input@, status),
    {
        Ok(CloudflareDomainStatus::parse(input))
    }
}

/// One hostname as the CDN reports it.
#[derive(Debug, Clone, PartialEq, Eq)]
pub struct HostnameObservation {
    pub domain: String,
    pub cdn_status: CloudflareDomainStatus,
}

/// Why the list of hostnames could not be had.
#[derive(Debug, Clone, PartialEq, Eq)]
pub enum FetchError {
    /// A request got no response.
    Transport(String),
    /// A response came with a status code that does not mean success.
    Status(u16),
    /// A response body was not a page of hostnames.
    Malformed,
    /// The list did not end within the pages that can be numbered.
    TooManyPages,
}

/// One entry of a page, as it is written there.
pub struct ListedHostname {
    pub hostname: Seq<char>,
    pub status: Seq<char>,
}

/// The entry that one item of a page stands for: its `hostname` and the
/// `status` under its `ssl`, both texts.
pub open spec fn entry_of(item: Json) -> Option<ListedHostname> {
    match (member_of(item, "hostname"@), member_of(item, "ssl"@)) {
        (Some(name), Some(ssl)) => match (text_of(name), member_of(ssl, "status"@)) {
            (Some(hostname), Some(word)) => match text_of(word) {
                Some(status) => Some(ListedHostname { hostname, status }),
                None => None,
            },
            _ => None,
        },
        _ => None,
    }
}

/// The entries of a page: the items of the array under `result`, each of
/// which has to be an entry.
pub open spec fn page_entries(page: Json) -> Option<Seq<ListedHostname>> {
    match member_of(page, "result"@) {
        Some(Json::Array(items)) => if forall|i: int|
            0 <= i < items@.len() ==> entry_of(#[trigger] items@[i]) is Some {
            Some(items@.map_values(|item: Json| entry_of(item).unwrap()))
        } else {
            None
        },
        _ => None,
    }
}

/// The entries of a page, given as the text of its body.
pub open spec fn page_listing(body: Seq<char>) -> Option<Seq<ListedHostname>> {
    match json_parse(body) {
        Some(page) => page_entries(page),
        None => None,
    }
}

/// The observation says what the entry says.
pub open spec fn observes(seen: HostnameObservation, entry: ListedHostname) -> bool {
    seen.domain@ == entry.hostname && status_of_word(entry.status, seen.cdn_status)
}

/// The observations say what the entries say, one by one.
pub open spec fn observes_all(seen: Seq<HostnameObservation>, entries: Seq<ListedHostname>)
    -> bool {
    &&& seen.len() == entries.len()
    &&& forall|i: int| 0 <= i < seen.len() ==> observes(#[trigger] seen[i], entries[i])
}

/// Reads one item of a page.
pub fn hostname_entry(item: &Json) -> (seen: Option<HostnameObservation>)
    ensures
        seen is Some <==> entry_of(*item) is Some,
        seen matches Some(observation) ==> observes(observation, entry_of(*item).unwrap()),
{
    let name = match item.get("hostname") {
        Some(name) => name,
        None => { return None; },
    };
    let ssl = match item.get("ssl") {
        Some(ssl) => ssl,
        None => { return None; },
    };
    let hostname = match name.as_str() {
        Some(hostname) => hostname,
        None => { return None; },
    };
    let word = match ssl.get("status") {
        Some(word) => word,
        None => { return None; },
    };
    match word.as_str() {
        Some(status) => Some(
            HostnameObservation {
                domain: String::from_str(hostname),
                cdn_status: CloudflareDomainStatus::parse(status),
            },
        ),
        None => None,
    }
}

/// Reads a page of hostnames: every item has to be an entry, else the page
/// is malformed as a whole.
pub fn parse_hostname_page(page: &Json) -> (listed: Result<Vec<HostnameObservation>, FetchError>)
    ensures
        match page_entries(*page) {
            Some(entries) => listed matches Ok(seen) && observes_all(seen@, entries),
            None => listed matches Err(FetchError::Malformed),
        },
{
    let items = match page.get("result") {
        Some(Json::Array(items)) => items,
        _ => { return Err(FetchError::Malformed); },
    };
    let mut seen: Vec<HostnameObservation> = Vec::new();
    let mut i: usize = 0;
    while i < items.len()
        invariant
            i <= items.len(),
            seen.len() == i,
            member_of(*page, "result"@) == Some(Json::Array(*items)),
            forall|j: int| 0 <= j < i ==> entry_of(#[trigger] items@[j]) is Some,
            forall|j: int|
                0 <= j < i ==> observes(#[trigger] seen@[j], entry_of(items@[j]).unwrap()),
        decreases items.len() - i,
    {
        match hostname_entry(&items[i]) {
            Some(observation) => {
                seen.push(observation);
            },
            None => {
                assert(entry_of(items@[i as int]) is None);
                return Err(FetchError::Malformed);
            },
        }
        i += 1;
    }
    assert(seen@.len() == items@.map_values(|item: Json| entry_of(item).unwrap()).len());
    Ok(seen)
}

/// What one response to a listing request yields: the observations of its
/// page, or the reason why there are none.
pub open spec fn is_page_reading(
    listed: Result<Vec<HostnameObservation>, FetchError>,
    outcome: Result<(u16, String), TransportError>,
) -> bool {
    match outcome {
        Err(err) => listed matches Err(FetchError::Transport(detail)) && detail@ == err.detail@,
        Ok((code, body)) => if !(200 <= code <= 299) {
            listed matches Err(FetchError::Status(c)) && c == code
        } else {
            match page_listing(body@) {
                Some(entries) => listed matches Ok(seen) && observes_all(seen@, entries),
                None => listed matches Err(FetchError::Malformed),
            }
        },
    }
}

/// Reads the response to one listing request.
pub fn read_page(outcome: Result<(u16, String), TransportError>) -> (listed: Result<
    Vec<HostnameObservation>,
    FetchError,
>)
    ensures
        is_page_reading(listed, outcome),
{
    match outcome {
        Err(err) => Err(FetchError::Transport(err.detail)),
        Ok((code, body)) => {
            if code < 200 || code > 299 {
                return Err(FetchError::Status(code));
            }
            match parse_json(body.as_str()) {
                Ok(page) => parse_hostname_page(&page),
                Err(_) => Err(FetchError::Malformed),
            }
        },
    }
}

/// The address of one page of the zone's hostnames.
pub open spec fn listing_url_text(zone_id: Seq<char>, page: nat) -> Seq<char> {
    "https://api.cloudflare.com/client/v4/zones/"@ + zone_id
        + "/custom_hostnames?per_page=50&page="@ + decimal(page)
}

/// The address of one page of the zone's hostnames.
pub fn listing_url(zone_id: &str, page: u32) -> (url: String)
    ensures
        url@ == listing_url_text(zone_id@, page as nat),
{
    let mut url = String::from_str("https://api.cloudflare.com/client/v4/zones/");
    url.append(zone_id);
    url.append("/custom_hostnames?per_page=50&page=");
    url.append(decimal_text(page).as_str());
    url
}

/// The entries of some pages, one page after the other; `None` where one of
/// them is not a page of hostnames.
pub open spec fn listing(bodies: Seq<Seq<char>>) -> Option<Seq<ListedHostname>>
    decreases bodies.len(),
{
    if bodies.len() == 0 {
        Some(Seq::empty())
    } else {
        match (listing(bodies.drop_last()), page_listing(bodies.last())) {
            (Some(earlier), Some(entries)) => Some(earlier + entries),
            _ => None,
        }
    }
}

/// The body is a page of hostnames with at least one entry.
pub open spec fn has_entries(body: Seq<char>) -> bool {
    page_listing(body) matches Some(entries) && entries.len() > 0
}

/// The pages are a whole list: each has entries but the last, which has none.
pub open spec fn is_whole_list(bodies: Seq<Seq<char>>) -> bool {
    &&& bodies.len() >= 1
    &&& page_listing(bodies.last()) == Some(Seq::<ListedHostname>::empty())
    &&& forall|i: int| 0 <= i < bodies.len() - 1 ==> has_entries(#[trigger] bodies[i])
}

/// The observations are those of the pages, which are a whole list.
pub open spec fn is_fetched_from(all: Seq<HostnameObservation>, bodies: Seq<Seq<char>>) -> bool {
    &&& is_whole_list(bodies)
    &&& listing(bodies) matches Some(entries) && observes_all(all, entries)
}

/// The body of a response; no text where there was none.
pub open spec fn body_of(outcome: Result<(u16, String), TransportError>) -> Seq<char> {
    match outcome {
        Ok((_, text)) => text@,
        Err(_) => Seq::empty(),
    }
}

/// Where the fetch stands after one more response.
#[derive(Debug, PartialEq, Eq)]
pub enum FetchStep {
    /// The page had entries: the list so far, and the next page is due.
    More(Vec<HostnameObservation>),
    /// The page had no entries: the list is whole.
    Done(Vec<HostnameObservation>),
    /// The response or its page failed: there is no list.
    Failed(FetchError),
}

/// What one more response does to the list gathered so far: a response that
/// fails, or whose page does, fails the fetch, whatever was gathered; a
/// page without entries ends the list as it is; a page with entries adds its
/// observations behind those gathered, in the page's order.
pub open spec fn is_fetch_step(
    step: FetchStep,
    gathered: Seq<HostnameObservation>,
    outcome: Result<(u16, String), TransportError>,
) -> bool {
    match outcome {
        Err(err) => step matches FetchStep::Failed(FetchError::Transport(detail)) && detail@
            == err.detail@,
        Ok((code, body)) => if !(200 <= code <= 299) {
            step matches FetchStep::Failed(FetchError::Status(c)) && c == code
        } else {
            match page_listing(body@) {
                None => step matches FetchStep::Failed(FetchError::Malformed),
                Some(entries) => if entries.len() == 0 {
                    step matches FetchStep::Done(list) && list@ == gathered
                } else {
                    step matches FetchStep::More(list) && list@.len() == gathered.len()
                        + entries.len() && list@.take(gathered.len() as int) == gathered
                        && observes_all(list@.skip(gathered.len() as int), entries)
                },
            }
        },
    }
}

/// Takes one more response into the list gathered so far.
pub fn fetch_step(gathered: Vec<HostnameObservation>, outcome: Result<(u16, String), TransportError>)
    -> (step: FetchStep)
    ensures
        is_fetch_step(step, gathered@, outcome),
{
    let mut list = gathered;
    match read_page(outcome) {
        Err(failure) => FetchStep::Failed(failure),
        Ok(seen) => {
            if seen.len() == 0 {
                FetchStep::Done(list)
            } else {
                let mut seen = seen;
                let ghost page = seen@;
                list.append(&mut seen);
                assert(list@.take(gathered@.len() as int) =~= gathered@);
                assert(list@.skip(gathered@.len() as int) =~= page);
                FetchStep::More(list)
            }
        },
    }
}

/// The page numbers ran out: every page from `first_page` up to the last
/// number that is asked for had entries.
pub open spec fn is_too_many_pages(bodies: Seq<Seq<char>>, first_page: u32) -> bool {
    &&& bodies.len() == u32::MAX - first_page
    &&& forall|i: int| 0 <= i < bodies.len() ==> has_entries(#[trigger] bodies[i])
}

/// What a failed fetch says: that the page numbers ran out, or else the
/// failure of reading one of the responses.
pub open spec fn is_fetch_failure(failure: FetchError, first_page: u32) -> bool {
    if failure is TooManyPages {
        exists|bodies: Seq<Seq<char>>| is_too_many_pages(bodies, first_page)
    } else {
        exists|outcome: Result<(u16, String), TransportError>|
            is_page_reading(Err(failure), outcome)
    }
}

/// The fetch that began at `first_page` ended well with these observations:
/// they are those of a whole list of pages, which is no longer than the page
/// numbers allow.
pub open spec fn is_fetched_within(
    all: Seq<HostnameObservation>,
    bodies: Seq<Seq<char>>,
    first_page: u32,
) -> bool {
    is_fetched_from(all, bodies) && bodies.len() <= u32::MAX - first_page
}

/// The entries of some pages and one more are those of the pages, then
/// those of the last; with entries on every page before, the same holds
/// after a page with entries.
proof fn lemma_listing_push(bodies: Seq<Seq<char>>, body: Seq<char>)
    requires
        listing(bodies) is Some,
        page_listing(body) is Some,
        forall|i: int| 0 <= i < bodies.len() ==> has_entries(#[trigger] bodies[i]),
    ensures
        listing(bodies.push(body)) == Some(listing(bodies).unwrap() + page_listing(body).unwrap()),
        has_entries(body) ==> forall|i: int|
            0 <= i < bodies.push(body).len() ==> has_entries(#[trigger] bodies.push(body)[i]),
{
    let longer = bodies.push(body);
    assert(longer.drop_last() =~= bodies);
    assert forall|i: int| 0 <= i < longer.len() && has_entries(body) implies has_entries(
        #[trigger] longer[i],
    ) by {
        if i < bodies.len() {
            assert(longer[i] == bodies[i]);
        }
    }
}

/// Pages with entries, then one without, are a whole list, and what was
/// gathered from the pages before is the list of all of them.
proof fn lemma_list_is_whole(list: Seq<HostnameObservation>, bodies: Seq<Seq<char>>, body: Seq<char>)
    requires
        listing(bodies) matches Some(entries) && observes_all(list, entries),
        page_listing(body) matches Some(found) && found.len() == 0,
        forall|i: int| 0 <= i < bodies.len() ==> has_entries(#[trigger] bodies[i]),
    ensures
        is_fetched_from(list, bodies.push(body)),
{
    let longer = bodies.push(body);
    let entries = listing(bodies).unwrap();
    let found = page_listing(body).unwrap();
    lemma_listing_push(bodies, body);
    assert(found =~= Seq::<ListedHostname>::empty());
    assert(entries + found =~= entries);
    assert forall|i: int| 0 <= i < longer.len() - 1 implies has_entries(#[trigger] longer[i]) by {
        assert(longer[i] == bodies[i]);
    }
}

/// Observations that say what some entries say, with more behind them that
/// say what more entries say, say what all the entries say.
proof fn lemma_observes_more(
    before: Seq<HostnameObservation>,
    list: Seq<HostnameObservation>,
    entries: Seq<ListedHostname>,
    found: Seq<ListedHostname>,
)
    requires
        observes_all(before, entries),
        list.len() == before.len() + found.len(),
        list.take(before.len() as int) == before,
        observes_all(list.skip(before.len() as int), found),
    ensures
        observes_all(list, entries + found),
{
    assert forall|i: int| 0 <= i < list.len() implies observes(
        #[trigger] list[i],
        (entries + found)[i],
    ) by {
        if i < before.len() {
            assert(list.take(before.len() as int)[i] == list[i]);
        } else {
            assert(list.skip(before.len() as int)[i - before.len()] == list[i]);
        }
    }
}

/// Asks for the zone's hostnames page by page, from the first page on.
pub fn cloudflare_fetch(client: &dyn HttpClient, zone_id: &str) -> (fetched: Result<
    Vec<HostnameObservation>,
    FetchError,
>)
    ensures
        fetched matches Ok(all) ==> exists|bodies: Seq<Seq<char>>|
            is_fetched_within(all@, bodies, 1),
        fetched matches Err(failure) ==> is_fetch_failure(failure, 1),
{
    cloudflare_fetch_from(client, zone_id, 1)
}

/// Asks for the zone's hostnames page by page, from the page with the given
/// number up to the first page without entries, and takes each response into
/// the list with `fetch_step`. A request or a page that fails makes the
/// whole list fail: what earlier pages held is not handed out. The last
/// number that a page can have is not asked for.
pub fn cloudflare_fetch_from(client: &dyn HttpClient, zone_id: &str, first_page: u32) -> (fetched:
    Result<Vec<HostnameObservation>, FetchError>)
    ensures
        first_page == u32::MAX ==> fetched matches Err(FetchError::TooManyPages),
        fetched matches Ok(all) ==> exists|bodies: Seq<Seq<char>>|
            is_fetched_within(all@, bodies, first_page),
        fetched matches Err(failure) ==> is_fetch_failure(failure, first_page),
{
    let mut all: Vec<HostnameObservation> = Vec::new();
    let mut page: u32 = first_page;
    let ghost mut bodies: Seq<Seq<char>> = Seq::empty();
    let ghost mut entries: Seq<ListedHostname> = Seq::empty();
    while page < u32::MAX
        invariant
            first_page <= page,
            bodies.len() == page - first_page,
            listing(bodies) == Some(entries),
            observes_all(all@, entries),
            forall|i: int| 0 <= i < bodies.len() ==> has_entries(#[trigger] bodies[i]),
        decreases u32::MAX - page,
    {
        let url = listing_url(zone_id, page);
        let outcome = client.get(url.as_str());
        let ghost body = body_of(outcome);
        let ghost asked = outcome;
        let ghost before = all@;
        let ghost earlier = bodies;
        match fetch_step(all, outcome) {
            FetchStep::Failed(failure) => {
                proof {
                    assert(!(failure is TooManyPages));
                    assert(is_page_reading(Err(failure), asked));
                }
                return Err(failure);
            },
            FetchStep::Done(list) => {
                proof {
                    bodies = earlier.push(body);
                    lemma_listing_push(earlier, body);
                    lemma_list_is_whole(list@, earlier, body);
                }
                let fetched: Result<Vec<HostnameObservation>, FetchError> = Ok(list);
                assert(fetched matches Ok(whole) && is_fetched_within(whole@, bodies, first_page));
                return fetched;
            },
            FetchStep::More(list) => {
                proof {
                    let found = page_listing(body).unwrap();
                    bodies = earlier.push(body);
                    lemma_listing_push(earlier, body);
                    lemma_observes_more(before, list@, entries, found);
                    entries = entries + found;
                }
                all = list;
            },
        }
        page += 1;
    }
    proof {
        assert(is_too_many_pages(bodies, first_page));
    }
    Err(FetchError::TooManyPages)
}

/// Why one step of a removal failed.
#[derive(Debug, Clone, PartialEq, Eq)]
pub enum RemovalStepError {
    /// The request to the CDN got no response.
    CdnTransport(String),
    /// The CDN answered with a status code that does not mean success.
    CdnStatus(u16),
    /// A maintenance command could not be run, or failed.
    Maintenance(String),
}

/// The CDN's endpoint that deletes: one DELETE, answered by a status code, or
/// not at all.
pub trait HostnameApi {
    fn delete(&self, url: &str) -> Result<u16, TransportError>;
}

/// The address of one hostname of the zone.
pub open spec fn hostname_url_text(zone_id: Seq<char>, domain: Seq<char>) -> Seq<char> {
    "https://api.cloudflare.com/client/v4/zones/"@ + zone_id + "/custom_hostnames/"@ + domain
}

/// The address of one hostname of the zone.
pub fn hostname_url(zone_id: &str, domain: &str) -> (url: String)
    ensures
        url@ == hostname_url_text(zone_id@, domain@),
{
    let mut url = String::from_str("https://api.cloudflare.com/client/v4/zones/");
    url.append(zone_id);
    url.append("/custom_hostnames/");
    url.append(domain);
    url
}

/// What the response to a deletion means: success for a status code from 200
/// to 299, a failure for anything else.
pub open spec fn is_deletion_verdict(
    verdict: Result<(), RemovalStepError>,
    outcome: Result<u16, TransportError>,
) -> bool {
    match outcome {
        Ok(code) => if 200 <= code <= 299 {
            verdict is Ok
        } else {
            verdict matches Err(RemovalStepError::CdnStatus(c)) && c == code
        },
        Err(err) => verdict matches Err(RemovalStepError::CdnTransport(detail)) && detail@
            == err.detail@,
    }
}

/// Reads the response to a deletion.
pub fn deletion_verdict(outcome: Result<u16, TransportError>) -> (verdict: Result<
    (),
    RemovalStepError,
>)
    ensures
        is_deletion_verdict(verdict, outcome),
{
    match outcome {
        Ok(code) => if 200 <= code && code <= 299 {
            Ok(())
        } else {
            Err(RemovalStepError::CdnStatus(code))
        },
        Err(err) => Err(RemovalStepError::CdnTransport(err.detail)),
    }
}

/// Deletes the hostname of `domain` from the zone at the CDN.
pub fn remove_domain_from_cloudflare(api: &dyn HostnameApi, zone_id: &str, domain: &String) -> (verdict:
    Result<(), RemovalStepError>)
    ensures
        exists|outcome: Result<u16, TransportError>| is_deletion_verdict(verdict, outcome),
        verdict matches Err(failure) ==> !(failure is Maintenance),
        verdict matches Err(RemovalStepError::CdnStatus(code)) ==> !(200 <= code <= 299),
{
    let url = hostname_url(zone_id, domain.as_str());
    let outcome = api.delete(url.as_str());
    let verdict = deletion_verdict(outcome);
    assert(is_deletion_verdict(verdict, outcome));
    verdict
}

} // verus!
