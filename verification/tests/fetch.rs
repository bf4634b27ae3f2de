use crw::error::CrwError;
use crw::fetch::{robots_url, FetchStep, MAX_ROBOTS_BYTES};
use crw::robots::RobotsTxt;

fn chunks(text: &str) -> Vec<Result<Vec<u8>, String>> {
    text.as_bytes().chunks(1000).map(|c| Ok(c.to_vec())).collect()
}

/// A site with no robots.txt forbids nothing; an origin that cannot serve the file reports an
/// error.
#[test]
fn fetch_classifies_unavailable_and_unreachable_statuses() {
    let absent =
        RobotsTxt::fetch(Ok(404), Vec::new()).expect("a missing robots.txt is not an error");
    assert!(absent.is_allowed("/anything"), "no file means no rules");

    assert!(matches!(
        RobotsTxt::fetch(Ok(503), Vec::new()),
        Err(CrwError::TargetUnreachable(_))
    ));

    assert!(matches!(
        RobotsTxt::fetch(Err("operation timed out".to_string()), chunks("")),
        Err(CrwError::TargetUnreachable(_))
    ));
    assert!(RobotsTxt::fetch(Ok(200), Vec::new()).unwrap().is_allowed("/anything"));
}

#[test]
fn fetch_caps_the_decoded_gzip_body() {
    let mut text = "User-agent: crw\nDisallow: /blocked\n".to_string();
    text.push_str(&"x".repeat(MAX_ROBOTS_BYTES - text.len()));
    text.push_str("\nAllow: /blocked\n");
    let robots = RobotsTxt::fetch(Ok(200), chunks(&text)).unwrap();
    assert!(!robots.is_allowed("/blocked"));
}

#[test]
fn messages_name_what_failed() {
    let message = |r: Result<RobotsTxt, CrwError>| match r {
        Err(CrwError::TargetUnreachable(m)) => m,
        other => panic!("{:?}", other),
    };
    assert_eq!(
        message(RobotsTxt::fetch(Err("dns".to_string()), Vec::new())),
        "robots.txt request failed: dns"
    );
    assert_eq!(
        message(RobotsTxt::fetch(Ok(503), Vec::new())),
        "robots.txt returned HTTP 503"
    );
    assert_eq!(
        message(RobotsTxt::fetch(Ok(7), Vec::new())),
        "robots.txt returned HTTP 7"
    );
    assert_eq!(
        message(RobotsTxt::fetch(Ok(200), vec![Err("reset".to_string())])),
        "robots.txt body failed: reset"
    );
}

#[test]
fn the_edges_of_the_status_classes() {
    let ends = |status: u16| match RobotsTxt::on_reply(Ok(status)) {
        FetchStep::ReadBody => "read",
        FetchStep::Done(Ok(_)) => "no rules",
        FetchStep::Done(Err(_)) => "failed",
    };
    assert_eq!(ends(199), "failed");
    assert_eq!(ends(200), "read");
    assert_eq!(ends(299), "read");
    assert_eq!(ends(300), "failed");
    assert_eq!(ends(399), "failed");
    assert_eq!(ends(400), "no rules");
    assert_eq!(ends(499), "no rules");
    assert_eq!(ends(500), "failed");
}

/// A file that lands exactly on the cap loses nothing.
#[test]
fn a_file_of_exactly_the_cap_keeps_its_last_rule() {
    let rule = "\nUser-agent: crw\nDisallow: /last";
    let text = format!("{}{}", "#".repeat(MAX_ROBOTS_BYTES - rule.len()), rule);
    assert_eq!(text.len(), MAX_ROBOTS_BYTES);
    let robots = RobotsTxt::fetch(Ok(200), chunks(&text)).unwrap();
    assert!(!robots.is_allowed("/last"));
    let robots = RobotsTxt::fetch(Ok(200), chunks(&format!("{}er", text))).unwrap();
    assert!(robots.is_allowed("/last"), "a half-read rule is no rule");
}

/// Wherever the cut falls, inside a character too, the lines before it count and no other.
#[test]
fn a_cut_body_reads_as_its_whole_lines() {
    let full = "User-agent: *\nDisallow: /ä\nDisallow: /ö".as_bytes();
    for n in 0..=full.len() {
        let robots = RobotsTxt::from_body(full[..n].to_vec(), true);
        let lines = full[..n].iter().filter(|b| **b == b'\n').count();
        assert_eq!(robots.is_allowed("/ä"), lines < 2, "{}", n);
        assert!(robots.is_allowed("/ö"));
    }
}

#[test]
fn invalid_bytes_are_replaced() {
    let robots = RobotsTxt::from_body(b"User-agent: *\nDisallow: /a\xff\n".to_vec(), false);
    assert!(!robots.is_allowed("/a\u{fffd}b"));
    assert!(robots.is_allowed("/a"));
}

#[test]
fn the_file_stands_at_the_root() {
    assert_eq!(robots_url("https://e.test"), "https://e.test/robots.txt");
    assert_eq!(robots_url("https://e.test//"), "https://e.test/robots.txt");
    assert_eq!(robots_url(""), "/robots.txt");
}
