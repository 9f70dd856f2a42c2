use domain_health::classify::{
    check_domain_status, check_page_content, classify_error, classify_page, classify_response,
    DomainStatus, HttpClient, TransportError,
};

const PLATFORM_PAGE: &str = "<html><head><title>Main Page</title></head>\
<body class=\"mediawiki ltr sitedir-ltr skin-vector\"><div id=\"footer-mirahezeico\"></div></body></html>";
const FOREIGN_PAGE: &str = "<html><head><title>Wikipedia</title></head>\
<body class=\"skin-vector mediawiki ltr\"><p>The free encyclopedia</p></body></html>";
const NOT_FOUND_PAGE: &str =
    "<html><head><title>Wiki not found</title></head><body><h1>Sorry</h1></body></html>";
const PLAIN_PAGE: &str = "<html><head><title>Shop</title></head><body>Buy things</body></html>";

struct FakeClient {
    pages: Vec<(&'static str, Result<(u16, &'static str), &'static str>)>,
}

impl HttpClient for FakeClient {
    fn get(&self, url: &str) -> Result<(u16, String), TransportError> {
        for (known, answer) in &self.pages {
            if *known == url {
                return match answer {
                    Ok((code, body)) => Ok((*code, body.to_string())),
                    Err(detail) => Err(TransportError { detail: detail.to_string() }),
                };
            }
        }
        Err(TransportError { detail: "connection refused".to_string() })
    }
}

fn assert_url_status(url: &str, expected: DomainStatus) {
    let client = FakeClient {
        pages: vec![
            ("https://en.wikipedia.org", Ok((200, FOREIGN_PAGE))),
            ("https://strinova.org", Ok((200, PLATFORM_PAGE))),
            (
                "https://atlas.starworld.zone",
                Err("reqwest::Error { kind: Request, source: hyper_util::client::legacy::Error(Connect, ConnectError(\"dns error\", Custom { kind: Uncategorized, error: \"failed to lookup address information\" })) }"),
            ),
        ],
    };
    assert_eq!(check_domain_status(&client, url), expected);
}

#[test]
fn custom_domain_checker_test_integration() {
    assert_url_status("https://en.wikipedia.org", DomainStatus::MediaWikiWebsite);
    assert_url_status("https://strinova.org", DomainStatus::Healthy);
    assert_url_status("https://atlas.starworld.zone", DomainStatus::Expired);
}

#[test]
fn page_with_body_class_and_footer_mark_is_healthy() {
    assert_eq!(check_page_content(200, PLATFORM_PAGE), DomainStatus::Healthy);
    let with_meta = "<body class=\"mediawiki\"><a href=\"https://meta.miraheze.org/\">Meta</a></body>";
    assert_eq!(check_page_content(200, with_meta), DomainStatus::Healthy);
}

#[test]
fn page_with_body_class_without_platform_mark_is_foreign() {
    assert_eq!(check_page_content(200, FOREIGN_PAGE), DomainStatus::MediaWikiWebsite);
}

#[test]
fn page_with_wiki_not_found_title() {
    assert_eq!(check_page_content(404, NOT_FOUND_PAGE), DomainStatus::WikiNotFound);
}

#[test]
fn page_without_marks_is_a_website() {
    assert_eq!(check_page_content(200, PLAIN_PAGE), DomainStatus::Website);
    assert_eq!(check_page_content(200, ""), DomainStatus::Website);
}

#[test]
fn keywords_are_found_whatever_their_case() {
    assert_eq!(
        check_page_content(200, "<h1>Domain Misconfigured</h1>"),
        DomainStatus::DomainMisconfigured
    );
    assert_eq!(check_page_content(200, "This domain has EXPIRED."), DomainStatus::Expired);
}

#[test]
fn earlier_checks_win_over_later_ones() {
    let both = "<title>Wiki not found</title> domain misconfigured expired";
    assert_eq!(check_page_content(200, both), DomainStatus::WikiNotFound);
    let two = "Domain misconfigured: certificate expired";
    assert_eq!(check_page_content(200, two), DomainStatus::DomainMisconfigured);
    let wiki = "<body class=\"mediawiki\">expired <title>Wiki not found</title></body>";
    assert_eq!(check_page_content(200, wiki), DomainStatus::MediaWikiWebsite);
    let title_case = "<title>wiki not found</title>";
    assert_eq!(check_page_content(200, title_case), DomainStatus::Website);
}

#[test]
fn body_pattern_is_matched_as_a_pattern() {
    let near = "<body class=\"skin\"><p>mediawiki</p></body>";
    assert_eq!(check_page_content(200, near), DomainStatus::Website);
    let no_class = "<body id=\"x\" class=\"mediawiki\">footer-mirahezeico</body>";
    assert_eq!(check_page_content(200, no_class), DomainStatus::Website);
    let far = format!("<body class=\"{}mediawiki\">", "a".repeat(1001));
    assert_eq!(check_page_content(200, &far), DomainStatus::Website);
    let close = format!("<body class=\"{}mediawiki\">", "a".repeat(999));
    assert_eq!(check_page_content(200, &close), DomainStatus::MediaWikiWebsite);
}

#[test]
fn classify_page_takes_the_pattern_result_as_given() {
    assert_eq!(classify_page(true, PLAIN_PAGE), DomainStatus::MediaWikiWebsite);
    assert_eq!(classify_page(true, "meta.miraheze.org"), DomainStatus::Healthy);
    assert_eq!(classify_page(false, PLATFORM_PAGE), DomainStatus::Website);
    assert_eq!(classify_page(false, "Expired"), DomainStatus::Expired);
}

#[test]
fn dns_failure_means_expired() {
    let err = TransportError { detail: "error sending request: dns error: no such host".to_string() };
    assert_eq!(classify_error(err), DomainStatus::Expired);
}

#[test]
fn other_failure_is_unknown_with_its_detail() {
    let err = TransportError { detail: "connection reset by peer".to_string() };
    assert_eq!(
        classify_error(err),
        DomainStatus::Unknown("connection reset by peer".to_string())
    );
    let upper = TransportError { detail: "DNS ERROR".to_string() };
    assert_eq!(classify_error(upper), DomainStatus::Unknown("DNS ERROR".to_string()));
}

#[test]
fn response_is_classified_by_its_kind() {
    assert_eq!(
        classify_response(Ok((500, NOT_FOUND_PAGE.to_string()))),
        DomainStatus::WikiNotFound
    );
    assert_eq!(
        classify_response(Err(TransportError { detail: "dns error".to_string() })),
        DomainStatus::Expired
    );
}

#[test]
fn unknown_url_fails_in_transport() {
    let client = FakeClient { pages: vec![] };
    assert_eq!(
        check_domain_status(&client, "https://nowhere.example"),
        DomainStatus::Unknown("connection refused".to_string())
    );
}
