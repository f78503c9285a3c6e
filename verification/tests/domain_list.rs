use focus::domains::{domain_entries, domain_entry, parse_domains, DEFAULT_DOMAINS};

fn names(items: &[&str]) -> Vec<String> {
    items.iter().map(|item| item.to_string()).collect()
}

#[test]
fn the_default_list_names_six_domains() {
    assert_eq!(
        parse_domains(DEFAULT_DOMAINS),
        names(&[
            "instagram.com",
            "www.instagram.com",
            "x.com",
            "www.x.com",
            "twitter.com",
            "www.twitter.com"
        ])
    );
}

#[test]
fn the_default_list_begins_with_its_comments() {
    assert!(DEFAULT_DOMAINS.starts_with("# Add one domain per line\n# Lines starting with # are comments\n# Example:\n# instagram.com\n# twitter.com\ninstagram.com\n"));
    assert!(DEFAULT_DOMAINS.ends_with("\nwww.twitter.com\n"));
    assert_eq!(DEFAULT_DOMAINS.lines().count(), 11);
}

#[test]
fn an_entry_is_a_trimmed_line() {
    assert_eq!(domain_entry("a.com"), Some("a.com".to_string()));
    assert_eq!(domain_entry("  a.com\t"), Some("a.com".to_string()));
    assert_eq!(domain_entry("a.com # not a comment"), Some("a.com # not a comment".to_string()));
    assert_eq!(domain_entry("a#b"), Some("a#b".to_string()));
    assert_eq!(domain_entry("\u{3000}a b\u{a0}"), Some("a b".to_string()));
}

#[test]
fn empty_lines_and_comments_are_no_entries() {
    assert_eq!(domain_entry(""), None);
    assert_eq!(domain_entry("   "), None);
    assert_eq!(domain_entry("\t\r"), None);
    assert_eq!(domain_entry("#"), None);
    assert_eq!(domain_entry("# a.com"), None);
    assert_eq!(domain_entry("   #a.com"), None);
    assert_eq!(domain_entry("#!"), None);
}

#[test]
fn entries_keep_order_and_repetitions() {
    assert_eq!(
        domain_entries(&names(&["b.com", "", "# c", " a.com ", "b.com", "  ", "B.com"])),
        names(&["b.com", "a.com", "b.com", "B.com"])
    );
    assert_eq!(domain_entries(&names(&[])), names(&[]));
    assert_eq!(domain_entries(&names(&["#", " "])), names(&[]));
}

#[test]
fn parsing_reads_the_text_line_by_line() {
    assert_eq!(parse_domains(""), names(&[]));
    assert_eq!(parse_domains("\n\n"), names(&[]));
    assert_eq!(parse_domains("a.com"), names(&["a.com"]));
    assert_eq!(parse_domains("a.com\nb.com\n"), names(&["a.com", "b.com"]));
    assert_eq!(parse_domains("a.com\r\nb.com\r\n"), names(&["a.com", "b.com"]));
    assert_eq!(parse_domains("a.com\r"), names(&["a.com"]));
    assert_eq!(
        parse_domains("# list\n\n  z.org  \n#a.com\na.com\n\t# b\nz.org\n"),
        names(&["z.org", "a.com", "z.org"])
    );
    assert_eq!(parse_domains("a\rb\n"), names(&["a\rb"]));
}

#[test]
fn parsing_is_what_the_standard_library_spells() {
    for text in [DEFAULT_DOMAINS, "", " a \n#b\n\nc\r\n d#e \n#\n", "x\r\ry\r\n\u{85}z\u{2009}\n# FOCUS-MODE-BLOCK START"] {
        let expected: Vec<String> = text
            .lines()
            .map(|line| line.trim().to_string())
            .filter(|line| !line.is_empty() && !line.starts_with('#'))
            .collect();
        assert_eq!(parse_domains(text), expected, "{:?}", text);
        let lines: Vec<String> = text.lines().map(|line| line.to_string()).collect();
        assert_eq!(domain_entries(&lines), expected, "{:?}", text);
    }
}
