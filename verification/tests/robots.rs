use crw::page_url::PageUrl;
use crw::pattern::{effective_pattern_len, matches_pattern};
use crw::robots::{directive_value, RobotsTxt};

#[test]
fn exact_group_suppresses_wildcard_rules() {
    let robots = RobotsTxt::parse(
        "User-agent: *\nAllow: /private\nUser-agent: crw\nDisallow: /private\n",
    );
    assert!(!robots.is_allowed("/private"));

    let robots =
        RobotsTxt::parse("User-agent: *\nDisallow: /public\nUser-agent: CRW\nAllow: /public\n");
    assert!(robots.is_allowed("/public"));
}

#[test]
fn multiple_exact_groups_are_combined() {
    let robots =
        RobotsTxt::parse("User-agent: crw\nDisallow: /one\nUser-agent: CRW\nDisallow: /two\n");
    assert!(!robots.is_allowed("/one"));
    assert!(!robots.is_allowed("/two"));
}

#[test]
fn substring_agent_does_not_match_crw() {
    let robots = RobotsTxt::parse("User-agent: *\nAllow: /\nUser-agent: notcrwbot\nDisallow: /\n");
    assert!(robots.is_allowed("/page"));
}

#[test]
fn empty_exact_group_still_suppresses_wildcard_rules() {
    let robots = RobotsTxt::parse(
        "User-agent: *\nDisallow: /private\nUser-agent: crw\nSitemap: https://e.test/map.xml\n",
    );
    assert!(robots.is_allowed("/private"));
}

#[test]
fn directives_before_the_first_group_are_ignored() {
    let robots = RobotsTxt::parse("Disallow: /\nUser-agent: *\nAllow: /\n");
    assert!(robots.is_allowed("/page"));
}

/// A run of consecutive `User-agent:` lines heads one group, and the group applies if any of them
/// matches.
#[test]
fn consecutive_user_agent_lines_form_one_group() {
    let r = RobotsTxt::parse("User-agent: *\nUser-agent: BadBot\nDisallow: /\n");
    assert!(!r.is_allowed("/anything"), "the `*` group was discarded");
}

/// The same shape with our own name last must also apply.
#[test]
fn consecutive_user_agent_lines_match_on_any_member() {
    let r = RobotsTxt::parse("User-agent: SomeBot\nUser-agent: crw\nDisallow: /private\n");
    assert!(!r.is_allowed("/private/x"));
    assert!(r.is_allowed("/public"));
}

/// A rule line closes the run, so the next `User-agent:` starts a fresh group.
#[test]
fn a_rule_line_closes_the_agent_run() {
    let r = RobotsTxt::parse(
        "User-agent: *\nDisallow: /everyone\nUser-agent: OtherBot\nDisallow: /theirs\n",
    );
    assert!(!r.is_allowed("/everyone"), "our own group still applies");
    assert!(
        r.is_allowed("/theirs"),
        "a group naming only OtherBot must not bind us"
    );
}

/// `Sitemap:` may appear anywhere, so it must not close the run.
#[test]
fn a_sitemap_line_does_not_close_the_agent_run() {
    let r = RobotsTxt::parse(
        "User-agent: *\nSitemap: https://e.test/sitemap.xml\nUser-agent: BadBot\nDisallow: /\n",
    );
    assert_eq!(r.sitemaps, vec!["https://e.test/sitemap.xml".to_string()]);
    assert!(!r.is_allowed("/anything"));
}

#[test]
fn directive_parsing_does_not_panic_on_length_changing_unicode() {
    for line in [
        "İser-agent: *",
        "\u{212A}isallow: /x",
        "Ｕser-agent: *",
        "é",
        "",
        ":",
        "user-agent",
    ] {
        let _ = directive_value(line, "user-agent:");
        let _ = directive_value(line, "disallow:");
        let _ = directive_value(line, "sitemap:");
    }
    let r = RobotsTxt::parse("İser-agent: *\n\u{212A}isallow: /x\nUser-agent: *\nDisallow: /y\n");
    assert!(!r.is_allowed("/y"));
}

/// Directive prefixes are case-insensitive.
#[test]
fn directive_prefixes_remain_case_insensitive() {
    let r = RobotsTxt::parse("USER-AGENT: *\nDISALLOW: /admin\nSITEMAP: https://e.test/s.xml\n");
    assert!(!r.is_allowed("/admin/x"));
    assert_eq!(r.sitemaps, vec!["https://e.test/s.xml".to_string()]);
}

#[test]
fn parses_robots_txt() {
    let text = r#"
User-agent: *
Disallow: /admin/
Disallow: /private/

Sitemap: https://example.com/sitemap.xml
"#;
    let robots = RobotsTxt::parse(text);
    assert!(!robots.is_allowed("/admin/page"));
    assert!(robots.is_allowed("/public/page"));
    assert_eq!(robots.sitemaps, vec!["https://example.com/sitemap.xml"]);
}

#[test]
fn handles_edge_cases() {
    let text = "User-agent:\nDisallow:\nSitemap:\n";
    let robots = RobotsTxt::parse(text);
    assert!(robots.is_allowed("/anything"));
    assert!(robots.sitemaps.is_empty());
}

#[test]
fn wildcard_pattern_matching() {
    let text = "User-agent: *\nDisallow: /*.pdf\n";
    let robots = RobotsTxt::parse(text);
    assert!(!robots.is_allowed("/document.pdf"));
    assert!(!robots.is_allowed("/path/to/file.pdf"));
    assert!(robots.is_allowed("/document.html"));
}

#[test]
fn dollar_end_anchor() {
    let text = "User-agent: *\nDisallow: /*.pdf$\n";
    let robots = RobotsTxt::parse(text);
    assert!(!robots.is_allowed("/document.pdf"));
    assert!(robots.is_allowed("/document.pdf?query=1"));
}

#[test]
fn allow_overrides_disallow() {
    let text = r#"
User-agent: *
Disallow: /private/
Allow: /private/public-page
"#;
    let robots = RobotsTxt::parse(text);
    assert!(!robots.is_allowed("/private/secret"));
    assert!(robots.is_allowed("/private/public-page"));
}

#[test]
fn specificity_longer_pattern_wins() {
    let text = r#"
User-agent: *
Disallow: /
Allow: /public/
"#;
    let robots = RobotsTxt::parse(text);
    assert!(!robots.is_allowed("/private"));
    assert!(robots.is_allowed("/public/page"));
}

#[test]
fn equal_length_allow_wins() {
    let text = r#"
User-agent: *
Disallow: /path
Allow: /path
"#;
    let robots = RobotsTxt::parse(text);
    assert!(robots.is_allowed("/path"));
}

/// `*` is any sequence of characters, so an anchored pattern may have to pass over an earlier
/// occurrence of its last part.
#[test]
fn an_anchored_wildcard_reaches_the_end() {
    assert!(matches_pattern("/a.pdf.pdf", "/*.pdf$"));
    assert!(matches_pattern("/anything", "/*$"));
    assert!(matches_pattern("/a/b/c/b", "/a*b$"));
    assert!(!matches_pattern("/a/b/c", "/a*b$"));
}

#[test]
fn wildcards_match_any_run() {
    assert!(matches_pattern("", "*"));
    assert!(matches_pattern("/x", "*"));
    assert!(matches_pattern("/ab", "/a*b"));
    assert!(matches_pattern("/a-and-b-more", "/a**b"));
    assert!(!matches_pattern("/a-only", "/a*z"));
    assert!(matches_pattern("/größe/ü", "/gr*e/ü$"));
}

#[test]
fn patterns_without_wildcards_are_prefixes_or_equal() {
    assert!(matches_pattern("/path/more", "/path"));
    assert!(!matches_pattern("/pat", "/path"));
    assert!(matches_pattern("/path", "/path$"));
    assert!(!matches_pattern("/path/", "/path$"));
    assert!(matches_pattern("", "$"));
    assert!(matches_pattern("/a$b", "/a$b"), "only a final `$` is an anchor");
    assert!(matches_pattern("/anything", ""));
}

#[test]
fn a_final_star_is_implied() {
    for path in ["/a", "/ab", "/b", ""] {
        assert_eq!(matches_pattern(path, "/a*"), matches_pattern(path, "/a"));
    }
}

#[test]
fn wildcards_and_anchors_do_not_count() {
    assert_eq!(effective_pattern_len("/*.pdf$"), 5);
    assert_eq!(effective_pattern_len("*$"), 0);
    assert_eq!(effective_pattern_len("/ü"), 2);
    assert_eq!(effective_pattern_len("a$b*c"), 3);
}

/// A rule made of nothing but `*` is the least specific one, but it is a rule.
#[test]
fn a_bare_star_covers_everything() {
    let robots = RobotsTxt::parse("User-agent: *\nDisallow: *\n");
    assert!(!robots.is_allowed("/page"));
    let robots = RobotsTxt::parse("User-agent: *\nDisallow: *\nAllow: /page\n");
    assert!(robots.is_allowed("/page/x"));
    assert!(!robots.is_allowed("/other"));
}

#[test]
fn order_of_rules_is_irrelevant() {
    let a = RobotsTxt::parse("User-agent: *\nDisallow: /a\nAllow: /a/b\nDisallow: /a/b/c\n");
    let b = RobotsTxt::parse("User-agent: *\nDisallow: /a/b/c\nAllow: /a/b\nDisallow: /a\n");
    for path in ["/a", "/a/b", "/a/b/c", "/z"] {
        assert_eq!(a.is_allowed(path), b.is_allowed(path));
    }
    assert!(!a.is_allowed("/a/b/c"));
    assert!(a.is_allowed("/a/b"));
}

#[test]
fn one_more_rule_moves_the_verdict_one_way() {
    let base = RobotsTxt::parse("User-agent: *\nDisallow: /a\n");
    let allow = RobotsTxt::parse("User-agent: *\nDisallow: /a\nAllow: /a/b\n");
    let disallow = RobotsTxt::parse("User-agent: *\nDisallow: /a\nDisallow: /c\n");
    for path in ["/a", "/a/b", "/c", "/d"] {
        assert!(!base.is_allowed(path) || allow.is_allowed(path));
        assert!(base.is_allowed(path) || !disallow.is_allowed(path));
    }
}

#[test]
fn blank_and_comment_lines_do_not_close_the_agent_run() {
    let r = RobotsTxt::parse("User-agent: *\n\n# them too\nUser-agent: BadBot\nDisallow: /x\n");
    assert!(!r.is_allowed("/x"));
}

/// Any group member closes the run, one that means nothing to us too.
#[test]
fn an_unknown_directive_closes_the_agent_run() {
    let r = RobotsTxt::parse("User-agent: *\nCrawl-delay: 5\nUser-agent: BadBot\nDisallow: /x\n");
    assert!(r.is_allowed("/x"));
}

#[test]
fn agent_lines_of_a_run_may_change_places() {
    let a = RobotsTxt::parse("User-agent: crw\nUser-agent: BadBot\nDisallow: /x\n");
    let b = RobotsTxt::parse("User-agent: BadBot\nUser-agent: crw\nDisallow: /x\n");
    assert!(!a.is_allowed("/x"));
    assert!(!b.is_allowed("/x"));
}

/// A group that names both us and `*` is ours, not everyone's.
#[test]
fn a_group_for_us_and_everyone_is_ours() {
    let r = RobotsTxt::parse("User-agent: *\nUser-agent: crw\nDisallow: /x\n");
    assert!(!r.is_allowed("/x"));
}

#[test]
fn line_endings_and_surrounding_space_do_not_matter() {
    let r = RobotsTxt::parse("\u{3000}User-agent: *\r\n\tDisallow:\u{a0}/x \r\nSitemap: s\r");
    assert!(!r.is_allowed("/x"));
    assert!(r.is_allowed("/y"));
    assert_eq!(r.sitemaps, vec!["s"]);
}

/// Blank lines, comments, white space round a line, CRLF line ends and the case of directive names
/// mean nothing.
#[test]
fn layout_means_nothing() {
    let plain = "User-agent: BadBot\nUser-agent: crw\nDisallow: /a\nAllow: /a/b\n\
                 Sitemap: https://e.test/Map.xml\nUser-agent: *\nDisallow: /c\n";
    let spaced = "\n  # head\nUser-agent: BadBot\n\n\tUSER-AGENT: crw  \n   \n#: x\n \
                  disAllow: /a\t\nALLOW: /a/b\n# and\nsiteMAP: https://e.test/Map.xml\n\
                  user-agent: *\nDISALLOW: /c";
    let crlf = spaced.replace('\n', "\r\n");
    let expected = RobotsTxt::parse(plain);
    assert_eq!(expected.sitemaps, vec!["https://e.test/Map.xml"]);
    assert!(!expected.is_allowed("/a"));
    for text in [spaced, crlf.as_str()] {
        let robots = RobotsTxt::parse(text);
        assert_eq!(format!("{:?}", robots), format!("{:?}", expected));
    }
    // The case of a value is no matter of layout.
    let robots = RobotsTxt::parse(&plain.replace("/a\n", "/A\n"));
    assert!(robots.is_allowed("/a"));
}

#[test]
fn inline_comments_are_stripped() {
    assert_eq!(directive_value("Disallow: /admin # admin panel", "disallow:"), Some("/admin"));
    assert_eq!(directive_value("Disallow:#", "disallow:"), Some(""));
    assert_eq!(directive_value("DisALLOW:  ä ", "disallow:"), Some("ä"));
    assert_eq!(directive_value("Disallow /x", "disallow:"), None);
    assert_eq!(directive_value("Disallo", "disallow:"), None);
    assert_eq!(directive_value("Ähm: x", "äHM:"), None);
    assert_eq!(directive_value("ähm: x", "äHM:"), Some("x"));
}

#[test]
fn no_rules_allow_everything() {
    assert!(RobotsTxt::default().is_allowed("/anything"));
    assert!(RobotsTxt::default().sitemaps.is_empty());
    assert!(RobotsTxt::parse("").is_allowed("/anything"));
}

/// Rules routinely key on the query.
#[test]
fn rules_keyed_on_the_query_bind() {
    let r = RobotsTxt::parse("User-Agent: *\nDisallow: /hide?\nDisallow: /vote?\n");
    let hide = PageUrl::parse("https://news.example/hide?id=1&goto=news").unwrap();
    let item = PageUrl::parse("https://news.example/item?id=1").unwrap();
    let bare = PageUrl::parse("https://news.example/hide").unwrap();
    assert!(!r.is_url_allowed(&hide));
    assert!(r.is_url_allowed(&item));
    assert!(r.is_url_allowed(&bare));
    assert!(r.is_allowed("/hide"));

    assert!(matches_pattern("/a*b?x", "/a*b?"));
    assert!(!matches_pattern("/a*b", "/a*b?"));

    let r = RobotsTxt::parse("User-agent: crw\nDisallow: /Hide?Token=\n");
    assert!(!r.is_url_allowed(&PageUrl::parse("https://e.test/Hide?Token=AbC").unwrap()));
    assert!(r.is_url_allowed(&PageUrl::parse("https://e.test/hide?Token=AbC").unwrap()));
}

#[test]
fn page_urls_hold_path_and_query() {
    let url = PageUrl::parse("https://example.com/countries/việt nam?page=2#top").unwrap();
    assert_eq!(url.path, "/countries/vi%E1%BB%87t%20nam");
    assert_eq!(url.query.as_deref(), Some("page=2"));
    assert_eq!(url.path_and_query(), "/countries/vi%E1%BB%87t%20nam?page=2");
    let url = PageUrl::parse("https://example.com").unwrap();
    assert_eq!(url.path_and_query(), "/");
    let url = PageUrl::parse("https://example.com/a?").unwrap();
    assert_eq!(url.path_and_query(), "/a?");
    assert!(PageUrl::parse("/not/absolute").is_none());
}
