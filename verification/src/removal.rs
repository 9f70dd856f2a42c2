//! Removal of a domain: the mapping from domains to sites, the maintenance
//! commands of the platform, and the pass that takes a domain out of both the
//! CDN and the platform.

use crate::cdn::{remove_domain_from_cloudflare, HostnameApi, RemovalStepError};
use crate::classify::{HttpClient, TransportError};
use crate::ledger::texts_of;
use crate::text::{
    begins_with, chars_of, find_char, first_index, lemma_first_index, lines_of, slice, split_lines,
    starts_with, string_of, trim, trim_end_char, trimmed, views_of, without_trailing,
};
use vstd::prelude::*;
use vstd::string::StringExecFns;

verus! {

/// The map that a list of entries stands for: a later entry for a domain
/// replaces an earlier one.
pub open spec fn entries_map(entries: Seq<(String, String)>) -> Map<Seq<char>, Seq<char>>
    decreases entries.len(),
{
    if entries.len() == 0 {
        Map::empty()
    } else {
        entries_map(entries.drop_last()).insert(entries.last().0@, entries.last().1@)
    }
}

/// What the last entry for a domain says is what the map says.
pub proof fn lemma_entries_map(entries: Seq<(String, String)>, domain: Seq<char>, from: int)
    requires
        0 <= from <= entries.len(),
        forall|j: int| from <= j < entries.len() ==> (#[trigger] entries[j]).0@ != domain,
        from > 0 ==> entries[from - 1].0@ == domain,
    ensures
        entries_map(entries).contains_key(domain) == (from > 0),
        from > 0 ==> entries_map(entries)[domain] == entries[from - 1].1@,
    decreases entries.len(),
{
    if entries.len() > 0 && from < entries.len() {
        let front = entries.drop_last();
        assert forall|j: int| from <= j < front.len() implies (#[trigger] front[j]).0@
            != domain by {
            assert(front[j] == entries[j]);
        }
        lemma_entries_map(front, domain, from);
        assert(entries.last().0@ != domain);
    }
}

/// Which site each domain belongs to.
pub struct DomainToSiteMapping {
    entries: Vec<(String, String)>,
}

impl View for DomainToSiteMapping {
    type V = Map<Seq<char>, Seq<char>>;

    closed spec fn view(&self) -> Map<Seq<char>, Seq<char>> {
        entries_map(self.entries@)
    }
}

impl DomainToSiteMapping {
    /// A mapping without entries.
    pub fn new() -> (mapping: DomainToSiteMapping)
        ensures
            mapping@ == Map::<Seq<char>, Seq<char>>::empty(),
    {
        DomainToSiteMapping { entries: Vec::new() }
    }

    /// Sets the site of a domain; what was known of the domain is replaced.
    pub fn insert(&mut self, domain: String, site: String)
        ensures
            final(self)@ == old(self)@.insert(domain@, site@),
    {
        let ghost before = self.entries@;
        self.entries.push((domain, site));
        assert(self.entries@.drop_last() =~= before);
    }

    /// The site of a domain.
    pub fn get(&self, domain: &str) -> (site: Option<&String>)
        ensures
            site is Some <==> self@.contains_key(domain@),
            site matches Some(name) ==> name@ == self@[domain@],
    {
        let wanted = chars_of(domain);
        let mut from: usize = self.entries.len();
        while from > 0
            invariant
                from <= self.entries.len(),
                wanted@ == domain@,
                forall|j: int|
                    from <= j < self.entries.len() ==> (#[trigger] self.entries@[j]).0@ != domain@,
            decreases from,
        {
            if crate::text::same_text(&chars_of(self.entries[from - 1].0.as_str()), &wanted) {
                proof {
                    lemma_entries_map(self.entries@, domain@, from as int);
                }
                return Some(&self.entries[from - 1].1);
            }
            from -= 1;
        }
        proof {
            lemma_entries_map(self.entries@, domain@, 0);
        }
        None
    }
}

/// What one line of the feed says: the site before the first colon, and the
/// domain of the address after it, which has to begin with `https://` and is
/// taken without that and without slashes at its end. `None` for a line that
/// says nothing.
pub open spec fn parse_line(line: Seq<char>) -> Option<(Seq<char>, Seq<char>)> {
    let inner = trim(line);
    match first_index(inner, ':') {
        Some(colon) => {
            let site = trim(inner.take(colon));
            let address = trim(inner.skip(colon + 1));
            if starts_with(address, "https://"@) {
                Some((trim_end_char(address.skip(8), '/'), site))
            } else {
                None
            }
        },
        None => None,
    }
}

/// The mapping that some lines say, a later line replacing an earlier one.
pub open spec fn mapping_of_lines(lines: Seq<Seq<char>>) -> Map<Seq<char>, Seq<char>>
    decreases lines.len(),
{
    if lines.len() == 0 {
        Map::empty()
    } else {
        let earlier = mapping_of_lines(lines.drop_last());
        match parse_line(lines.last()) {
            Some((domain, site)) => earlier.insert(domain, site),
            None => earlier,
        }
    }
}

/// The mapping that the feed says.
pub open spec fn mapping_of(feed: Seq<char>) -> Map<Seq<char>, Seq<char>> {
    mapping_of_lines(split_lines(feed))
}

/// Reads one line of the feed: the domain and its site.
pub fn parse_mapping_line(line: &Vec<char>) -> (entry: Option<(String, String)>)
    ensures
        match parse_line(line@) {
            Some((domain, site)) => entry matches Some(pair) && pair.0@ == domain && pair.1@
                == site,
            None => entry is None,
        },
{
    let inner = trimmed(line);
    assert(inner@.skip(0) =~= inner@);
    let colon = match find_char(&inner, ':', 0) {
        Some(colon) => colon,
        None => { return None; },
    };
    let site = trimmed(&slice(&inner, 0, colon));
    let address = trimmed(&slice(&inner, colon + 1, inner.len()));
    proof {
        reveal_strlit("https://");
        assert(inner@.take(colon as int) =~= inner@.subrange(0, colon as int));
        assert(inner@.skip(colon + 1) =~= inner@.subrange(colon + 1, inner@.len() as int));
    }
    if !begins_with(&address, &chars_of("https://")) {
        return None;
    }
    let rest = slice(&address, 8, address.len());
    assert(rest@ =~= address@.skip(8));
    let domain = without_trailing(&rest, '/');
    Some((string_of(&domain), string_of(&site)))
}

/// Reads the feed of sites and their addresses, line by line.
pub fn parse_mapping(feed: &str) -> (mapping: DomainToSiteMapping)
    ensures
        mapping@ == mapping_of(feed@),
{
    let lines = lines_of(&chars_of(feed));
    let mut mapping = DomainToSiteMapping::new();
    let mut i: usize = 0;
    assert(views_of(lines@).take(0) =~= Seq::<Seq<char>>::empty());
    while i < lines.len()
        invariant
            i <= lines.len(),
            mapping@ == mapping_of_lines(views_of(lines@).take(i as int)),
        decreases lines.len() - i,
    {
        proof {
            let read = views_of(lines@).take(i + 1);
            assert(read.drop_last() =~= views_of(lines@).take(i as int));
            assert(read.last() == lines@[i as int]@);
        }
        match parse_mapping_line(&lines[i]) {
            Some((domain, site)) => {
                mapping.insert(domain, site);
            },
            None => {},
        }
        i += 1;
    }
    assert(views_of(lines@).take(lines.len() as int) =~= views_of(lines@));
    mapping
}

/// Why the mapping could not be had.
#[derive(Debug, Clone, PartialEq, Eq)]
pub struct MappingFetchError {
    pub detail: String,
}

/// The address of the feed.
pub open spec fn feed_url() -> Seq<char> {
    "https://raw.githubusercontent.com/miraheze/ssl/refs/heads/main/wikidiscover_output.yaml"@
}

/// The address of the feed.
pub fn feed_address() -> (url: &'static str)
    ensures
        url@ == feed_url(),
{
    "https://raw.githubusercontent.com/miraheze/ssl/refs/heads/main/wikidiscover_output.yaml"
}

/// What the response to the request for the feed yields: the mapping that
/// its body says, or the failure of the request.
pub open spec fn is_mapping_reading(
    read: Result<DomainToSiteMapping, MappingFetchError>,
    outcome: Result<(u16, String), TransportError>,
) -> bool {
    match outcome {
        Ok((_, body)) => read matches Ok(mapping) && mapping@ == mapping_of(body@),
        Err(err) => read matches Err(failure) && failure.detail@ == err.detail@,
    }
}

/// Reads the response to the request for the feed.
pub fn read_mapping(outcome: Result<(u16, String), TransportError>) -> (read: Result<
    DomainToSiteMapping,
    MappingFetchError,
>)
    ensures
        is_mapping_reading(read, outcome),
{
    match outcome {
        Ok((_, body)) => Ok(parse_mapping(body.as_str())),
        Err(err) => Err(MappingFetchError { detail: err.detail }),
    }
}

/// Fetches the feed and reads the mapping from it.
pub fn get_domain_to_db_name_mapping(client: &dyn HttpClient) -> (read: Result<
    DomainToSiteMapping,
    MappingFetchError,
>)
    ensures
        exists|outcome: Result<(u16, String), TransportError>| is_mapping_reading(read, outcome),
{
    let outcome = client.get(feed_address());
    let read = read_mapping(outcome);
    assert(is_mapping_reading(read, outcome));
    read
}

/// A command of the platform: a program and its arguments.
#[derive(Debug, Clone, PartialEq, Eq)]
pub struct Command {
    pub program: String,
    pub args: Vec<String>,
}

/// What a command that ran left behind: whether it ended in success, what it
/// wrote to its output, if that is text, and what it wrote to its error
/// output.
#[derive(Debug, Clone, PartialEq, Eq)]
pub struct CommandOutput {
    pub success: bool,
    pub stdout: Option<String>,
    pub stderr: String,
}

/// The platform's shell: runs one command to its end, or says why it could
/// not be started.
pub trait CommandRunner {
    fn run(&self, command: &Command) -> Result<CommandOutput, String>;
}

/// The script of the platform's software in one version.
pub open spec fn script_path(version: Seq<char>) -> Seq<char> {
    "/srv/mediawiki/"@ + version + "/maintenance/run.php"@
}

/// The command that tells the version of the software behind a site.
pub fn version_command(db_name: &String) -> (command: Command)
    ensures
        command.program@ == "getMWVersion"@,
        texts_of(command.args@) == seq![db_name@],
{
    let mut args: Vec<String> = Vec::new();
    args.push(db_name.clone());
    assert(texts_of(args@) =~= seq![db_name@]);
    Command { program: String::from_str("getMWVersion"), args }
}

/// The command that takes the custom domain from a site, run as the web
/// server's user with the script of the site's version.
pub fn removal_command(version: &str, db_name: &String) -> (command: Command)
    ensures
        command.program@ == "sudo"@,
        texts_of(command.args@) == seq![
            "-u"@,
            "www-data"@,
            "php"@,
            script_path(version@),
            "MirahezeMagic:RemoveCustomDomain"@,
            "--wiki"@,
            db_name@,
        ],
{
    let mut script = String::from_str("/srv/mediawiki/");
    script.append(version);
    script.append("/maintenance/run.php");
    let mut args: Vec<String> = Vec::new();
    args.push(String::from_str("-u"));
    args.push(String::from_str("www-data"));
    args.push(String::from_str("php"));
    args.push(script);
    args.push(String::from_str("MirahezeMagic:RemoveCustomDomain"));
    args.push(String::from_str("--wiki"));
    args.push(db_name.clone());
    assert(texts_of(args@) =~= seq![
        "-u"@,
        "www-data"@,
        "php"@,
        script_path(version@),
        "MirahezeMagic:RemoveCustomDomain"@,
        "--wiki"@,
        db_name@,
    ]);
    Command { program: String::from_str("sudo"), args }
}

/// The command ran, ended in success and wrote text.
pub open spec fn tells_version(outcome: Result<CommandOutput, String>) -> bool {
    outcome matches Ok(output) && output.success && output.stdout is Some
}

/// What the outcome of the version command yields: the version, which is its
/// output without the white space around it, or the failure.
pub open spec fn is_version_reading(
    read: Result<String, RemovalStepError>,
    outcome: Result<CommandOutput, String>,
) -> bool {
    match outcome {
        Ok(output) => if !output.success {
            read matches Err(RemovalStepError::Maintenance(detail)) && detail@ == output.stderr@
        } else {
            match output.stdout {
                Some(text) => read matches Ok(version) && version@ == trim(text@),
                None => read matches Err(RemovalStepError::Maintenance(_)),
            }
        },
        Err(reason) => read matches Err(RemovalStepError::Maintenance(detail)) && detail@
            == reason@,
    }
}

/// Reads the outcome of the version command.
pub fn detected_version(outcome: Result<CommandOutput, String>) -> (read: Result<
    String,
    RemovalStepError,
>)
    ensures
        is_version_reading(read, outcome),
        read is Ok <==> tells_version(outcome),
{
    match outcome {
        Ok(output) => {
            if !output.success {
                return Err(RemovalStepError::Maintenance(output.stderr));
            }
            match output.stdout {
                Some(text) => Ok(string_of(&trimmed(&chars_of(text.as_str())))),
                None => Err(
                    RemovalStepError::Maintenance(
                        String::from_str("the version command did not write text"),
                    ),
                ),
            }
        },
        Err(reason) => Err(RemovalStepError::Maintenance(reason)),
    }
}

/// What the outcome of the removal command means: success where the command
/// ran and ended in success, a failure otherwise.
pub open spec fn is_maintenance_verdict(
    verdict: Result<(), RemovalStepError>,
    outcome: Result<CommandOutput, String>,
) -> bool {
    match outcome {
        Ok(output) => if output.success {
            verdict is Ok
        } else {
            verdict matches Err(RemovalStepError::Maintenance(detail)) && detail@
                == output.stderr@
        },
        Err(reason) => verdict matches Err(RemovalStepError::Maintenance(detail)) && detail@
            == reason@,
    }
}

/// Reads the outcome of the removal command.
pub fn maintenance_verdict(outcome: Result<CommandOutput, String>) -> (verdict: Result<
    (),
    RemovalStepError,
>)
    ensures
        is_maintenance_verdict(verdict, outcome),
{
    match outcome {
        Ok(output) => if output.success {
            Ok(())
        } else {
            Err(RemovalStepError::Maintenance(output.stderr))
        },
        Err(reason) => Err(RemovalStepError::Maintenance(reason)),
    }
}

/// What the two commands of the maintenance yield together: a failure where
/// the first does not tell the version, else what the second means.
pub open spec fn is_maintenance_result(
    verdict: Result<(), RemovalStepError>,
    first: Result<CommandOutput, String>,
    second: Result<CommandOutput, String>,
) -> bool {
    if tells_version(first) {
        is_maintenance_verdict(verdict, second)
    } else {
        verdict is Err
    }
}

/// Takes the custom domain from a site: asks for the version of the site's
/// software, then runs the removal with the script of that version. The
/// second command is not run where the first fails.
pub fn run_maintenance_script(runner: &dyn CommandRunner, db_name: &String) -> (verdict: Result<
    (),
    RemovalStepError,
>)
    ensures
        exists|first: Result<CommandOutput, String>, second: Result<CommandOutput, String>|
            is_maintenance_result(verdict, first, second),
        verdict matches Err(failure) ==> failure is Maintenance,
{
    let first = runner.run(&version_command(db_name));
    let version = match detected_version(first) {
        Ok(version) => version,
        Err(failure) => {
            let verdict: Result<(), RemovalStepError> = Err(failure);
            assert(is_maintenance_result(verdict, first, first));
            return verdict;
        },
    };
    let second = runner.run(&removal_command(version.as_str(), db_name));
    let verdict = maintenance_verdict(second);
    assert(is_maintenance_result(verdict, first, second));
    verdict
}

/// What was done to remove one domain, step by step. A step that was not
/// reached has no outcome.
#[derive(Debug, PartialEq, Eq)]
pub struct RemovalAttempt {
    /// The domain.
    pub domain: String,
    /// What came of deleting its hostname at the CDN.
    pub cdn: Result<(), RemovalStepError>,
    /// The site that the mapping names for it, looked up once the CDN had
    /// deleted the hostname.
    pub site: Option<String>,
    /// What came of the maintenance on that site.
    pub maintenance: Option<Result<(), RemovalStepError>>,
}

/// The domain was removed: the CDN deleted its hostname, the mapping knew its
/// site, and the maintenance on the site succeeded.
pub open spec fn is_removed(attempt: RemovalAttempt) -> bool {
    attempt.cdn is Ok && attempt.site is Some && attempt.maintenance matches Some(Ok(_))
}

/// The domains that were removed, in the order of the attempts.
pub open spec fn removed_texts(attempts: Seq<RemovalAttempt>) -> Seq<Seq<char>> {
    attempts.filter(|a: RemovalAttempt| is_removed(a)).map_values(|a: RemovalAttempt| a.domain@)
}

/// The domains that were removed: those of the attempts in which all three
/// steps succeeded, in the order of the attempts.
pub fn removed_of(attempts: &Vec<RemovalAttempt>) -> (removed: Vec<String>)
    ensures
        texts_of(removed@) == removed_texts(attempts@),
{
    let ghost done = |a: RemovalAttempt| is_removed(a);
    let ghost domain_of = |a: RemovalAttempt| a.domain@;
    let mut removed: Vec<String> = Vec::new();
    let mut i: usize = 0;
    assert(attempts@.take(0) =~= Seq::<RemovalAttempt>::empty());
    assert(texts_of(removed@) =~= attempts@.take(0).filter(done).map_values(domain_of)) by {
        reveal(Seq::filter);
    }
    while i < attempts.len()
        invariant
            i <= attempts.len(),
            done == (|a: RemovalAttempt| is_removed(a)),
            domain_of == (|a: RemovalAttempt| a.domain@),
            texts_of(removed@) == attempts@.take(i as int).filter(done).map_values(domain_of),
        decreases attempts.len() - i,
    {
        let ghost read = attempts@.take(i as int);
        proof {
            attempts@.lemma_take_succ_push(i as int);
            read.lemma_filter_push(attempts@[i as int], done);
        }
        let attempt = &attempts[i];
        let succeeded = match (&attempt.cdn, &attempt.site, &attempt.maintenance) {
            (Ok(_), Some(_), Some(Ok(_))) => true,
            _ => false,
        };
        if succeeded {
            let ghost listed = texts_of(removed@);
            removed.push(attempt.domain.clone());
            proof {
                read.filter(done).lemma_push_map_commute(domain_of, attempts@[i as int]);
                assert(texts_of(removed@) =~= listed.push(attempts@[i as int].domain@));
            }
        }
        i += 1;
    }
    proof {
        attempts@.lemma_take_len();
    }
    removed
}

/// The attempt is one on `domain` under `mapping`, with its steps in their
/// order: the site is looked up only once the CDN has deleted the hostname,
/// and is the one that the mapping names; the maintenance is run exactly
/// where there is a site. A failure at the CDN is one of the CDN, a failure
/// of the maintenance one of the maintenance.
pub open spec fn is_attempt(
    attempt: RemovalAttempt,
    domain: Seq<char>,
    mapping: Map<Seq<char>, Seq<char>>,
) -> bool {
    &&& attempt.domain@ == domain
    &&& attempt.site is Some <==> attempt.cdn is Ok && mapping.contains_key(domain)
    &&& attempt.site matches Some(site) ==> site@ == mapping[domain]
    &&& attempt.maintenance is Some <==> attempt.site is Some
    &&& attempt.cdn matches Err(failure) ==> !(failure is Maintenance)
    &&& attempt.maintenance matches Some(Err(failure)) ==> failure is Maintenance
}

/// The attempts are those of a pass over `domains`: one for each domain, in
/// the domains' order.
pub open spec fn is_removal_pass(
    attempts: Seq<RemovalAttempt>,
    domains: Seq<Seq<char>>,
    mapping: Map<Seq<char>, Seq<char>>,
) -> bool {
    &&& attempts.len() == domains.len()
    &&& forall|i: int|
        0 <= i < attempts.len() ==> is_attempt(#[trigger] attempts[i], domains[i], mapping)
}

/// Tries to remove one domain: first from the CDN, then, where that
/// succeeded and the mapping names a site for the domain, from that site.
pub fn attempt_removal(
    api: &dyn HostnameApi,
    runner: &dyn CommandRunner,
    zone_id: &str,
    mapping: &DomainToSiteMapping,
    domain: &String,
) -> (attempt: RemovalAttempt)
    ensures
        is_attempt(attempt, domain@, mapping@),
{
    let cdn = remove_domain_from_cloudflare(api, zone_id, domain);
    if cdn.is_err() {
        return RemovalAttempt { domain: domain.clone(), cdn, site: None, maintenance: None };
    }
    match mapping.get(domain.as_str()) {
        None => RemovalAttempt { domain: domain.clone(), cdn, site: None, maintenance: None },
        Some(site) => {
            let maintenance = run_maintenance_script(runner, site);
            RemovalAttempt {
                domain: domain.clone(),
                cdn,
                site: Some(site.clone()),
                maintenance: Some(maintenance),
            }
        },
    }
}

/// Tries to remove each domain in turn. A domain that the CDN does not
/// delete, that the mapping does not know or whose maintenance fails does
/// not stop the pass: it goes on with the next.
pub fn remove_mapped_domains(
    api: &dyn HostnameApi,
    runner: &dyn CommandRunner,
    zone_id: &str,
    mapping: &DomainToSiteMapping,
    domains: &Vec<String>,
) -> (attempts: Vec<RemovalAttempt>)
    ensures
        is_removal_pass(attempts@, texts_of(domains@), mapping@),
{
    let mut attempts: Vec<RemovalAttempt> = Vec::new();
    let mut i: usize = 0;
    while i < domains.len()
        invariant
            i <= domains.len(),
            attempts.len() == i,
            forall|k: int|
                0 <= k < i ==> is_attempt(
                    #[trigger] attempts@[k],
                    texts_of(domains@)[k],
                    mapping@,
                ),
        decreases domains.len() - i,
    {
        let attempt = attempt_removal(api, runner, zone_id, mapping, &domains[i]);
        attempts.push(attempt);
        i += 1;
    }
    attempts
}

/// What a removal pass yields, given the response to its request for the
/// feed: the attempts under the mapping that the feed says, or the failure
/// of the request, in which case nothing was attempted.
pub open spec fn is_removal_result(
    result: Result<Vec<RemovalAttempt>, MappingFetchError>,
    domains: Seq<Seq<char>>,
    feed: Result<(u16, String), TransportError>,
) -> bool {
    match feed {
        Ok((_, body)) => result matches Ok(attempts) && is_removal_pass(
            attempts@,
            domains,
            mapping_of(body@),
        ),
        Err(err) => result matches Err(failure) && failure.detail@ == err.detail@,
    }
}

/// Fetches the mapping, then tries to remove each of the domains from the
/// CDN and from its site. `removed_of` names the domains that were removed.
pub fn remove_domains(
    feed: &dyn HttpClient,
    api: &dyn HostnameApi,
    runner: &dyn CommandRunner,
    zone_id: &str,
    domains: &Vec<String>,
) -> (result: Result<Vec<RemovalAttempt>, MappingFetchError>)
    ensures
        exists|outcome: Result<(u16, String), TransportError>|
            is_removal_result(result, texts_of(domains@), outcome),
{
    let outcome = feed.get(feed_address());
    let result: Result<Vec<RemovalAttempt>, MappingFetchError> = match read_mapping(outcome) {
        Ok(mapping) => Ok(remove_mapped_domains(api, runner, zone_id, &mapping, domains)),
        Err(failure) => Err(failure),
    };
    assert(is_removal_result(result, texts_of(domains@), outcome));
    result
}

/// A domain that was removed is one of the pass, and the mapping knew its
/// site.
pub proof fn lemma_removed_had_a_site(
    attempts: Seq<RemovalAttempt>,
    domains: Seq<Seq<char>>,
    mapping: Map<Seq<char>, Seq<char>>,
    url: Seq<char>,
)
    requires
        is_removal_pass(attempts, domains, mapping),
        removed_texts(attempts).contains(url),
    ensures
        domains.contains(url),
        mapping.contains_key(url),
{
    let done = |a: RemovalAttempt| is_removed(a);
    let kept = attempts.filter(done);
    let k = choose|k: int| 0 <= k < removed_texts(attempts).len() && removed_texts(attempts)[k] == url;
    assert(kept[k].domain@ == url);
    assert(kept.contains(kept[k]));
    attempts.lemma_filter_contains_rev(done, kept[k]);
    attempts.lemma_filter_pred(done, k);
    let i = choose|i: int| 0 <= i < attempts.len() && attempts[i] == kept[k];
    assert(is_attempt(attempts[i], domains[i], mapping));
}

} // verus!
