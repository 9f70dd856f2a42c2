use domain_health::cdn::{HostnameApi, RemovalStepError};
use domain_health::classify::{HttpClient, TransportError};
use domain_health::removal::{
    detected_version, get_domain_to_db_name_mapping, maintenance_verdict, parse_mapping,
    parse_mapping_line, read_mapping, remove_domains, remove_mapped_domains, removal_command,
    removed_of, run_maintenance_script, version_command, Command, CommandOutput, CommandRunner,
    DomainToSiteMapping, MappingFetchError, RemovalAttempt,
};
use std::cell::RefCell;

struct Feed {
    answer: Result<(u16, String), TransportError>,
    asked: RefCell<Vec<String>>,
}

impl Feed {
    fn of(body: &str) -> Feed {
        Feed { answer: Ok((200, body.to_string())), asked: RefCell::new(Vec::new()) }
    }
}

impl HttpClient for Feed {
    fn get(&self, url: &str) -> Result<(u16, String), TransportError> {
        self.asked.borrow_mut().push(url.to_string());
        self.answer.clone()
    }
}

const FEED: &str = "strinovawiki: https://strinova.org\n\
atlaswiki: https://atlas.starworld.zone/\n\
\n\
# a comment\n\
plainwiki: http://plain.example\n\
  spacedwiki  :   https://spaced.example//  \r\n\
hostwiki: https://host.example:8443/\n\
lastwiki: https://strinova.org";

#[test]
fn test_strinova_org_mapping() {
    let feed = Feed::of("strinovawiki: https://strinova.org\nother: https://other.example\n");
    let mapping = get_domain_to_db_name_mapping(&feed).expect("Failed to fetch mapping");
    assert_eq!(mapping.get("strinova.org"), Some(&"strinovawiki".to_string()));
    assert_eq!(
        *feed.asked.borrow(),
        vec!["https://raw.githubusercontent.com/miraheze/ssl/refs/heads/main/wikidiscover_output.yaml"]
    );
}

#[test]
fn feed_is_read_line_by_line() {
    let mapping = parse_mapping(FEED);
    assert_eq!(mapping.get("atlas.starworld.zone"), Some(&"atlaswiki".to_string()));
    assert_eq!(mapping.get("spaced.example"), Some(&"spacedwiki".to_string()));
    assert_eq!(mapping.get("host.example:8443"), Some(&"hostwiki".to_string()));
    assert_eq!(mapping.get("plain.example"), None);
    assert_eq!(mapping.get("atlas.starworld.zone/"), None);
    assert_eq!(mapping.get(""), None);
}

#[test]
fn later_line_replaces_an_earlier_one() {
    let mapping = parse_mapping(FEED);
    assert_eq!(mapping.get("strinova.org"), Some(&"lastwiki".to_string()));
}

#[test]
fn lines_that_say_nothing_are_passed_over() {
    let line = |s: &str| parse_mapping_line(&s.chars().collect());
    assert_eq!(line(""), None);
    assert_eq!(line("   "), None);
    assert_eq!(line("no colon here"), None);
    assert_eq!(line("key: value"), None);
    assert_eq!(line("key: HTTPS://upper.example"), None);
    assert_eq!(line("key:https://tight.example"), Some(("tight.example".to_string(), "key".to_string())));
    assert_eq!(line(": https://nokey.example"), Some(("nokey.example".to_string(), String::new())));
    assert_eq!(line("k: https://"), Some((String::new(), "k".to_string())));
    assert_eq!(line("k: https:////"), Some((String::new(), "k".to_string())));
    assert_eq!(
        line("\u{3000}k\u{a0}: \thttps://a.example/path/ \u{2003}"),
        Some(("a.example/path".to_string(), "k".to_string()))
    );
    assert_eq!(line("a:b: https://x.example"), None);
    assert_eq!(
        line("a: https://x.example/?q=a:b"),
        Some(("x.example/?q=a:b".to_string(), "a".to_string()))
    );
}

#[test]
fn mapping_keeps_the_last_site_of_a_domain() {
    let mut mapping = DomainToSiteMapping::new();
    assert_eq!(mapping.get("a"), None);
    mapping.insert("a".to_string(), "one".to_string());
    mapping.insert("b".to_string(), "two".to_string());
    mapping.insert("a".to_string(), "three".to_string());
    assert_eq!(mapping.get("a"), Some(&"three".to_string()));
    assert_eq!(mapping.get("b"), Some(&"two".to_string()));
}

#[test]
fn failed_request_for_the_feed_is_an_error() {
    let read = read_mapping(Err(TransportError { detail: "offline".to_string() }));
    assert_eq!(read.err(), Some(MappingFetchError { detail: "offline".to_string() }));
    let read = read_mapping(Ok((404, "not found".to_string())));
    assert!(read.is_ok_and(|m| m.get("not found").is_none()));
}

#[test]
fn commands_are_exact() {
    assert_eq!(
        version_command(&"testwiki".to_string()),
        Command { program: "getMWVersion".to_string(), args: vec!["testwiki".to_string()] }
    );
    let args: Vec<String> = [
        "-u",
        "www-data",
        "php",
        "/srv/mediawiki/1.43/maintenance/run.php",
        "MirahezeMagic:RemoveCustomDomain",
        "--wiki",
        "testwiki",
    ]
    .iter()
    .map(|s| s.to_string())
    .collect();
    assert_eq!(
        removal_command("1.43", &"testwiki".to_string()),
        Command { program: "sudo".to_string(), args }
    );
}

fn output(success: bool, stdout: Option<&str>, stderr: &str) -> Result<CommandOutput, String> {
    Ok(CommandOutput {
        success,
        stdout: stdout.map(|s| s.to_string()),
        stderr: stderr.to_string(),
    })
}

#[test]
fn version_is_the_trimmed_output() {
    assert_eq!(detected_version(output(true, Some(" 1.43\n"), "")), Ok("1.43".to_string()));
    assert_eq!(detected_version(output(true, Some(""), "")), Ok(String::new()));
    assert_eq!(
        detected_version(output(false, Some("1.43"), "no such wiki")),
        Err(RemovalStepError::Maintenance("no such wiki".to_string()))
    );
    assert!(detected_version(output(true, None, "")).is_err());
    assert_eq!(
        detected_version(Err("not found".to_string())),
        Err(RemovalStepError::Maintenance("not found".to_string()))
    );
}

#[test]
fn maintenance_succeeds_only_on_success() {
    assert_eq!(maintenance_verdict(output(true, None, "warning")), Ok(()));
    assert_eq!(
        maintenance_verdict(output(false, Some("x"), "fatal")),
        Err(RemovalStepError::Maintenance("fatal".to_string()))
    );
    assert_eq!(
        maintenance_verdict(Err("sudo: not found".to_string())),
        Err(RemovalStepError::Maintenance("sudo: not found".to_string()))
    );
}

struct Shell {
    version: Result<CommandOutput, String>,
    failing_site: &'static str,
    ran: RefCell<Vec<Command>>,
}

impl Shell {
    fn new(failing_site: &'static str) -> Shell {
        Shell { version: output(true, Some("1.44\n"), ""), failing_site, ran: RefCell::new(Vec::new()) }
    }
}

impl CommandRunner for Shell {
    fn run(&self, command: &Command) -> Result<CommandOutput, String> {
        self.ran.borrow_mut().push(command.clone());
        if command.program == "getMWVersion" {
            self.version.clone()
        } else if command.args.last().map(|s| s.as_str()) == Some(self.failing_site) {
            output(false, None, "failed")
        } else {
            output(true, Some("done"), "")
        }
    }
}

struct Cdn {
    refused: &'static str,
    asked: RefCell<Vec<String>>,
}

impl HostnameApi for Cdn {
    fn delete(&self, url: &str) -> Result<u16, TransportError> {
        self.asked.borrow_mut().push(url.to_string());
        if url.ends_with(self.refused) {
            Ok(404)
        } else {
            Ok(200)
        }
    }
}

#[test]
fn maintenance_runs_both_commands_in_order() {
    let shell = Shell::new("nothing");
    assert_eq!(run_maintenance_script(&shell, &"testwiki".to_string()), Ok(()));
    let ran = shell.ran.borrow();
    assert_eq!(ran.len(), 2);
    assert_eq!(ran[0], version_command(&"testwiki".to_string()));
    assert_eq!(ran[1], removal_command("1.44", &"testwiki".to_string()));
}

#[test]
fn maintenance_stops_when_the_version_is_not_told() {
    let mut shell = Shell::new("nothing");
    shell.version = output(false, None, "unknown wiki");
    assert_eq!(
        run_maintenance_script(&shell, &"testwiki".to_string()),
        Err(RemovalStepError::Maintenance("unknown wiki".to_string()))
    );
    assert_eq!(shell.ran.borrow().len(), 1);
}

fn names(list: &[&str]) -> Vec<String> {
    list.iter().map(|s| s.to_string()).collect()
}

fn attempt(
    domain: &str,
    cdn: Result<(), RemovalStepError>,
    site: Option<&str>,
    maintenance: Option<Result<(), RemovalStepError>>,
) -> RemovalAttempt {
    RemovalAttempt {
        domain: domain.to_string(),
        cdn,
        site: site.map(|s| s.to_string()),
        maintenance,
    }
}

#[test]
fn only_attempts_in_which_every_step_succeeded_count_as_removed() {
    let failed = || RemovalStepError::Maintenance("failed".to_string());
    let attempts = vec![
        attempt("a.example", Ok(()), Some("awiki"), Some(Ok(()))),
        attempt("b.example", Err(RemovalStepError::CdnStatus(404)), None, None),
        attempt("c.example", Ok(()), None, None),
        attempt("d.example", Ok(()), Some("dwiki"), Some(Err(failed()))),
        attempt("e.example", Ok(()), Some("ewiki"), Some(Ok(()))),
        attempt("f.example", Ok(()), Some("fwiki"), None),
        attempt("g.example", Err(RemovalStepError::CdnStatus(500)), Some("gwiki"), Some(Ok(()))),
        attempt("h.example", Ok(()), None, Some(Ok(()))),
    ];
    assert_eq!(removed_of(&attempts), names(&["a.example", "e.example"]));
    assert_eq!(removed_of(&vec![]), Vec::<String>::new());
}

#[test]
fn domain_without_a_site_is_not_reported() {
    let mapping = parse_mapping("awiki: https://a.example\ncwiki: https://c.example\n");
    let cdn = Cdn { refused: "/none", asked: RefCell::new(Vec::new()) };
    let shell = Shell::new("nothing");
    let attempts = remove_mapped_domains(
        &cdn,
        &shell,
        "z",
        &mapping,
        &names(&["a.example", "b.example", "c.example"]),
    );
    assert_eq!(
        attempts,
        vec![
            attempt("a.example", Ok(()), Some("awiki"), Some(Ok(()))),
            attempt("b.example", Ok(()), None, None),
            attempt("c.example", Ok(()), Some("cwiki"), Some(Ok(()))),
        ]
    );
    assert_eq!(removed_of(&attempts), names(&["a.example", "c.example"]));
    assert_eq!(cdn.asked.borrow().len(), 3);
    assert!(cdn.asked.borrow()[1].ends_with("/custom_hostnames/b.example"));
    let sites: Vec<String> =
        shell.ran.borrow().iter().map(|c| c.args.last().cloned().unwrap()).collect();
    assert_eq!(sites, names(&["awiki", "awiki", "cwiki", "cwiki"]));
}

#[test]
fn domain_that_the_cdn_keeps_is_not_reported() {
    let mapping = parse_mapping("awiki: https://a.example\nbwiki: https://b.example\n");
    let cdn = Cdn { refused: "/a.example", asked: RefCell::new(Vec::new()) };
    let shell = Shell::new("nothing");
    let attempts =
        remove_mapped_domains(&cdn, &shell, "z", &mapping, &names(&["a.example", "b.example"]));
    assert_eq!(
        attempts,
        vec![
            attempt("a.example", Err(RemovalStepError::CdnStatus(404)), None, None),
            attempt("b.example", Ok(()), Some("bwiki"), Some(Ok(()))),
        ]
    );
    assert_eq!(removed_of(&attempts), names(&["b.example"]));
    assert_eq!(shell.ran.borrow().len(), 2);
}

#[test]
fn domain_whose_maintenance_fails_is_not_reported() {
    let mapping = parse_mapping("awiki: https://a.example\nbwiki: https://b.example\n");
    let cdn = Cdn { refused: "/none", asked: RefCell::new(Vec::new()) };
    let shell = Shell::new("bwiki");
    let attempts =
        remove_mapped_domains(&cdn, &shell, "z", &mapping, &names(&["b.example", "a.example"]));
    assert_eq!(
        attempts[0],
        attempt(
            "b.example",
            Ok(()),
            Some("bwiki"),
            Some(Err(RemovalStepError::Maintenance("failed".to_string())))
        )
    );
    assert_eq!(removed_of(&attempts), names(&["a.example"]));
}

#[test]
fn one_of_three_candidates_passes_every_step() {
    let mapping = parse_mapping("cwiki: https://c.example\n");
    let cdn = Cdn { refused: "/a.example", asked: RefCell::new(Vec::new()) };
    let shell = Shell::new("nothing");
    let attempts = remove_mapped_domains(
        &cdn,
        &shell,
        "z",
        &mapping,
        &names(&["a.example", "b.example", "c.example"]),
    );
    assert_eq!(removed_of(&attempts), vec!["c.example".to_string()]);
    assert_eq!(attempts.len(), 3);
    let sites: Vec<String> =
        shell.ran.borrow().iter().map(|c| c.args.last().cloned().unwrap()).collect();
    assert_eq!(sites, names(&["cwiki", "cwiki"]));
}

#[test]
fn removal_pass_fetches_the_feed_first() {
    let feed = Feed::of("awiki: https://a.example\n");
    let cdn = Cdn { refused: "/none", asked: RefCell::new(Vec::new()) };
    let shell = Shell::new("nothing");
    let attempts =
        remove_domains(&feed, &cdn, &shell, "z", &names(&["a.example", "x.example"])).unwrap();
    assert_eq!(removed_of(&attempts), names(&["a.example"]));
    assert_eq!(attempts[1], attempt("x.example", Ok(()), None, None));
    let offline = Feed {
        answer: Err(TransportError { detail: "offline".to_string() }),
        asked: RefCell::new(Vec::new()),
    };
    let cdn = Cdn { refused: "/none", asked: RefCell::new(Vec::new()) };
    let removed = remove_domains(&offline, &cdn, &shell, "z", &names(&["a.example"]));
    assert_eq!(removed, Err(MappingFetchError { detail: "offline".to_string() }));
    assert_eq!(cdn.asked.borrow().len(), 0);
}
