use tranco::endpoint::{list_date_url, list_url, ranks_url, API_BASE};
use tranco::listfile::{complete_lines_len, parse_line, parse_list, DownloadListError, RankedDomain};
use tranco::model::{
    same_text, CombinationMethod, ConfigurationFields, CruxMonth, CruxType, FilterTldOption,
    ListPrefix, Provider, ToggleOption,
};

fn record(rank: u64, domain: &str) -> RankedDomain {
    RankedDomain { rank, domain: domain.to_string() }
}

fn bare_fields() -> ConfigurationFields {
    ConfigurationFields {
        providers: vec![Provider::Crux, Provider::Majestic],
        start_date: "2025-03-01".to_string(),
        end_date: "2025-03-30".to_string(),
        combination_method: CombinationMethod::Dowdall,
        list_prefix: ListPrefix::Full,
        filter_pld: None,
        inclusion_days: None,
        inclusion_days_value: None,
        inclusion_lists: None,
        inclusion_lists_value: None,
        filter_tld: None,
        filter_tld_value: None,
        filter_organization: None,
        filter_subdomain: None,
        filter_subdomain_value: None,
        filter_safe_browsing: None,
        filter_crux: None,
        filter_crux_month: None,
        filter_crux_type: None,
        filter_crux_value: None,
    }
}

#[test]
fn record_line_round_trips() {
    let cases: Vec<(u64, &str)> = vec![
        (0, "a.com"),
        (1, "example.com"),
        (42, ""),
        (1000000, "sub.domain.example.co.uk"),
        (u64::MAX, "last.org"),
        (7, "bücher.de"),
    ];
    for (rank, domain) in cases {
        let line = format!("{rank},{domain}");
        let parsed = parse_line(&line).unwrap();
        assert_eq!(parsed, record(rank, domain));
    }
}

#[test]
fn empty_rank_field_is_missing_rank() {
    assert!(matches!(parse_line(",example.com"), Err(DownloadListError::MissingRank)));
    assert!(matches!(parse_line(""), Err(DownloadListError::MissingRank)));
    assert!(matches!(parse_line(","), Err(DownloadListError::MissingRank)));
}

#[test]
fn non_numeric_rank_is_invalid_rank() {
    assert!(matches!(parse_line("abc,example.com"), Err(DownloadListError::InvalidRank(_))));
    assert!(matches!(parse_line("-1,example.com"), Err(DownloadListError::InvalidRank(_))));
    assert!(matches!(parse_line("+,example.com"), Err(DownloadListError::InvalidRank(_))));
    assert!(matches!(
        parse_line("18446744073709551616,example.com"),
        Err(DownloadListError::InvalidRank(_))
    ));
    assert!(matches!(parse_line("abc"), Err(DownloadListError::InvalidRank(_))));
}

#[test]
fn line_without_comma_is_missing_domain() {
    assert!(matches!(parse_line("42"), Err(DownloadListError::MissingDomain)));
}

#[test]
fn rank_accepts_plus_sign_and_largest_value() {
    assert_eq!(parse_line("+5,x.org").unwrap(), record(5, "x.org"));
    assert_eq!(parse_line("007,x.org").unwrap(), record(7, "x.org"));
    assert_eq!(
        parse_line("18446744073709551615,x.org").unwrap(),
        record(u64::MAX, "x.org")
    );
}

#[test]
fn fields_after_the_domain_are_ignored() {
    assert_eq!(parse_line("3,a.com,extra,more").unwrap(), record(3, "a.com"));
    assert_eq!(parse_line("3,,b.com").unwrap(), record(3, ""));
}

#[test]
fn list_body_reads_in_file_order() {
    let body = b"1,example.com\n2,test.org\n";
    let list = parse_list(body).unwrap();
    assert_eq!(list, vec![record(1, "example.com"), record(2, "test.org")]);
}

#[test]
fn list_body_line_breaks() {
    assert_eq!(parse_list(b"").unwrap(), Vec::<RankedDomain>::new());
    assert_eq!(
        parse_list(b"1,a.com\r\n2,b.com").unwrap(),
        vec![record(1, "a.com"), record(2, "b.com")]
    );
    assert_eq!(parse_list(b"1,a.com\r").unwrap(), vec![record(1, "a.com\r")]);
    assert!(matches!(parse_list(b"1,a.com\n\n"), Err(DownloadListError::MissingRank)));
}

#[test]
fn list_body_stops_at_first_bad_line() {
    assert!(matches!(
        parse_list(b"1,a.com\nbad\n3\n"),
        Err(DownloadListError::InvalidRank(_))
    ));
    assert!(matches!(
        parse_list(b"1,a.com\n2\nx,y\n"),
        Err(DownloadListError::MissingDomain)
    ));
}

#[test]
fn list_body_line_that_is_not_text() {
    let body: Vec<u8> = vec![b'1', b',', 0xff, 0xfe, b'\n'];
    match parse_list(&body) {
        Err(DownloadListError::ReadLine(e)) => {
            assert_eq!(e.kind(), std::io::ErrorKind::InvalidData)
        }
        other => panic!("unexpected {other:?}"),
    }
}

#[test]
fn list_prefix_decoding() {
    assert_eq!(ListPrefix::from_text("full").unwrap(), ListPrefix::Full);
    assert_eq!(ListPrefix::from_integer(100), Some(ListPrefix::Length(100)));
    assert_eq!(ListPrefix::from_text("100").unwrap(), ListPrefix::Length(100));
    assert!(ListPrefix::from_text("abc").is_err());
    assert!(ListPrefix::from_text("Full").is_err());
    assert!(ListPrefix::from_text("4294967296").is_err());
    assert_eq!(ListPrefix::from_integer(4294967295), Some(ListPrefix::Length(u32::MAX)));
    assert_eq!(ListPrefix::from_integer(0), Some(ListPrefix::Length(0)));
    assert_eq!(ListPrefix::from_integer(4294967296), None);
    assert_eq!(ListPrefix::from_integer(4294967296 + 5), None);
    assert_eq!(ListPrefix::from_integer(u64::MAX), None);
}

#[test]
fn crux_month_decoding() {
    assert_eq!(CruxMonth::from_text("latest"), Some(CruxMonth::Latest));
    assert_eq!(
        CruxMonth::from_text("202503"),
        Some(CruxMonth::Specific("202503".to_string()))
    );
    assert_eq!(
        CruxMonth::from_text("202513"),
        Some(CruxMonth::Specific("202513".to_string()))
    );
    assert_eq!(CruxMonth::from_text("2025"), None);
    assert_eq!(CruxMonth::from_text("latest2"), None);
    assert_eq!(CruxMonth::from_text("20250a"), None);
    assert_eq!(CruxMonth::from_text("２０２５０３"), None);
}

#[test]
fn absent_toggles_default_to_off() {
    let c = bare_fields().into_configuration();
    assert_eq!(c.filter_pld, ToggleOption::Off);
    assert_eq!(c.inclusion_days, ToggleOption::Off);
    assert_eq!(c.inclusion_days_value, None);
    assert_eq!(c.inclusion_lists, ToggleOption::Off);
    assert_eq!(c.inclusion_lists_value, None);
    assert_eq!(c.filter_tld, None);
    assert_eq!(c.filter_tld_value, None);
    assert_eq!(c.filter_organization, ToggleOption::Off);
    assert_eq!(c.filter_subdomain, ToggleOption::Off);
    assert_eq!(c.filter_subdomain_value, None);
    assert_eq!(c.filter_safe_browsing, ToggleOption::Off);
    assert_eq!(c.filter_crux, ToggleOption::Off);
    assert_eq!(c.filter_crux_month, None);
    assert_eq!(c.filter_crux_type, None);
    assert_eq!(c.filter_crux_value, None);
    assert_eq!(c.providers, vec![Provider::Crux, Provider::Majestic]);
    assert_eq!(c.start_date, "2025-03-01");
}

#[test]
fn given_toggles_are_kept() {
    let mut f = bare_fields();
    f.filter_pld = Some(ToggleOption::On);
    f.filter_crux = Some(ToggleOption::On);
    f.filter_crux_month = Some(CruxMonth::Latest);
    f.filter_crux_type = Some(CruxType::Country);
    f.filter_tld = Some(FilterTldOption::Include);
    f.inclusion_days = Some(ToggleOption::Off);
    let c = f.into_configuration();
    assert_eq!(c.filter_pld, ToggleOption::On);
    assert_eq!(c.filter_crux, ToggleOption::On);
    assert_eq!(c.filter_crux_month, Some(CruxMonth::Latest));
    assert_eq!(c.filter_crux_type, Some(CruxType::Country));
    assert_eq!(c.filter_tld, Some(FilterTldOption::Include));
    assert_eq!(c.inclusion_days, ToggleOption::Off);
    assert_eq!(c.filter_safe_browsing, ToggleOption::Off);
}

#[test]
fn toggle_default_is_off() {
    assert_eq!(ToggleOption::default(), ToggleOption::Off);
}

#[test]
fn request_addresses() {
    assert_eq!(API_BASE, "https://tranco-list.eu/api");
    assert_eq!(
        ranks_url("google.com"),
        "https://tranco-list.eu/api/ranks/domain/google.com"
    );
    assert_eq!(list_url("LJL44"), "https://tranco-list.eu/api/lists/id/LJL44");
    assert_eq!(
        list_date_url(2025, 4, 7, None),
        "https://tranco-list.eu/api/lists/date/20250407"
    );
    assert_eq!(
        list_date_url(2025, 12, 31, Some(true)),
        "https://tranco-list.eu/api/lists/date/20251231?subdomains=true"
    );
    assert_eq!(
        list_date_url(7, 0, 13, None),
        "https://tranco-list.eu/api/lists/date/00070013"
    );
    assert_eq!(
        list_date_url(65535, 255, 255, None),
        "https://tranco-list.eu/api/lists/date/65535255255"
    );
}

#[test]
fn dated_list_then_download() {
    assert_eq!(
        list_date_url(2025, 4, 7, Some(false)),
        "https://tranco-list.eu/api/lists/date/20250407?subdomains=false"
    );
    let list = parse_list(b"1,example.com\n2,test.org\n").unwrap();
    assert_eq!(list, vec![record(1, "example.com"), record(2, "test.org")]);
}

#[test]
fn text_comparison() {
    assert!(same_text("full", "full"));
    assert!(!same_text("full", "ful"));
    assert!(!same_text("full", "fulL"));
    assert!(same_text("", ""));
}

#[test]
fn list_body_read_in_pieces() {
    let body: &[u8] = b"1,example.com\r\n2,test.org\n3,last.net";
    let whole = parse_list(body).unwrap();
    for cut in 0..=body.len() {
        let mut pending: Vec<u8> = body[..cut].to_vec();
        let complete = complete_lines_len(&pending);
        let mut records = parse_list(&pending[..complete]).unwrap();
        pending.drain(..complete);
        pending.extend_from_slice(&body[cut..]);
        records.extend(parse_list(&pending).unwrap());
        assert_eq!(records, whole);
    }
    assert_eq!(complete_lines_len(b"1,a\n2,b"), 4);
    assert_eq!(complete_lines_len(b"1,a"), 0);
    assert_eq!(complete_lines_len(b"1,a\n"), 4);
    assert_eq!(complete_lines_len(b""), 0);
}
