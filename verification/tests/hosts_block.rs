use focus::hosts::{
    apply_block, focus_off, focus_on, is_focus_active, remove_block, FocusOff, FocusOn,
    BLOCK_MARKER_END, BLOCK_MARKER_START, HOSTS_FILE, LOOPBACK_PREFIX,
};

fn names(items: &[&str]) -> Vec<String> {
    items.iter().map(|item| item.to_string()).collect()
}

/// Removal as the standard library's string functions spell it.
fn removal_by_std(content: &str) -> String {
    let mut kept = String::new();
    let mut inside = false;
    for line in content.lines() {
        if line.contains(BLOCK_MARKER_START) {
            inside = true;
            continue;
        }
        if line.contains(BLOCK_MARKER_END) {
            inside = false;
            continue;
        }
        if !inside {
            kept.push_str(line);
            kept.push('\n');
        }
    }
    kept.trim_end().to_string() + "\n"
}

#[test]
fn constants_have_their_values() {
    assert_eq!(HOSTS_FILE, "/etc/hosts");
    assert_eq!(BLOCK_MARKER_START, "# FOCUS-MODE-BLOCK START");
    assert_eq!(BLOCK_MARKER_END, "# FOCUS-MODE-BLOCK END");
    assert_eq!(LOOPBACK_PREFIX, "127.0.0.1 ");
}

#[test]
fn applying_appends_the_region_after_the_content() {
    let applied = apply_block("foo.com\nbar.com\n", &names(&["a.com", "b.com"]));
    assert_eq!(
        applied,
        "foo.com\nbar.com\n\n# FOCUS-MODE-BLOCK START\n127.0.0.1 a.com\n127.0.0.1 b.com\n# FOCUS-MODE-BLOCK END\n"
    );
}

#[test]
fn removing_after_applying_gives_the_content_back() {
    let applied = apply_block("foo.com\nbar.com\n", &names(&["a.com", "b.com"]));
    assert_eq!(remove_block(&applied), "foo.com\nbar.com\n");
}

#[test]
fn applying_to_an_empty_file() {
    let applied = apply_block("", &names(&["a.com"]));
    assert_eq!(applied, "\n# FOCUS-MODE-BLOCK START\n127.0.0.1 a.com\n# FOCUS-MODE-BLOCK END\n");
    assert_eq!(remove_block(&applied), "\n");
}

#[test]
fn applying_activates() {
    for content in ["", "\n", "127.0.0.1 localhost\n", "no line ending", "a\r\nb\r\n"] {
        assert!(!is_focus_active(content));
        let applied = apply_block(content, &names(&["a.com"]));
        assert!(is_focus_active(&applied));
    }
}

#[test]
fn applying_keeps_order_and_repetitions() {
    let applied = apply_block("x\n", &names(&["b.com", "a.com", "b.com", "A.com"]));
    assert_eq!(
        applied,
        "x\n\n# FOCUS-MODE-BLOCK START\n127.0.0.1 b.com\n127.0.0.1 a.com\n127.0.0.1 b.com\n127.0.0.1 A.com\n# FOCUS-MODE-BLOCK END\n"
    );
}

#[test]
fn applying_takes_a_domain_as_it_is() {
    let applied = apply_block("x\n", &names(&[" spaced out ", "ünï.example"]));
    assert_eq!(
        applied,
        "x\n\n# FOCUS-MODE-BLOCK START\n127.0.0.1  spaced out \n127.0.0.1 ünï.example\n# FOCUS-MODE-BLOCK END\n"
    );
}

#[test]
fn removing_restores_settled_files() {
    for content in [
        "\n",
        "a\n",
        "127.0.0.1 localhost\n::1 localhost\n",
        "# a comment\n\n\tindented\n  two\n",
        "first\n\n\nlast\n",
        "bare\rreturn\n",
    ] {
        let applied = apply_block(content, &names(&["a.com", "b.com", "a.com"]));
        assert_eq!(remove_block(&applied), content);
    }
}

#[test]
fn removing_settles_other_files() {
    let domains = names(&["a.com"]);
    assert_eq!(remove_block(&apply_block("", &domains)), "\n");
    assert_eq!(remove_block(&apply_block("no line ending", &domains)), "no line ending\n");
    assert_eq!(remove_block(&apply_block("a\n\n\n", &domains)), "a\n");
    assert_eq!(remove_block(&apply_block("a  \t\n", &domains)), "a\n");
    assert_eq!(remove_block(&apply_block("a\r\nb\r\n", &domains)), "a\nb\n");
    assert_eq!(remove_block(&apply_block("a\u{3000}\n", &domains)), "a\n");
}

#[test]
fn removing_keeps_what_follows_a_domain_with_the_end_marker() {
    let applied = apply_block("a\n", &names(&["x # FOCUS-MODE-BLOCK END", "y.com"]));
    assert_eq!(remove_block(&applied), "a\n\n127.0.0.1 y.com\n");
    let closing_last = apply_block("a\n", &names(&["y.com", "x # FOCUS-MODE-BLOCK END"]));
    assert_eq!(remove_block(&closing_last), "a\n");
}

#[test]
fn removing_drops_a_domain_with_a_line_feed() {
    let applied = apply_block("a\n", &names(&["x\ny", "# FOCUS-MODE-BLOCK START"]));
    assert_eq!(remove_block(&applied), "a\n");
}

#[test]
fn removing_drops_the_region_in_the_middle() {
    let content = "before\n# FOCUS-MODE-BLOCK START\n127.0.0.1 a.com\n# FOCUS-MODE-BLOCK END\nafter\n";
    assert_eq!(remove_block(content), "before\nafter\n");
}

#[test]
fn removing_collapses_nested_start_markers() {
    let content = "one\ntwo\n# FOCUS-MODE-BLOCK START\n127.0.0.1 a.com\n# FOCUS-MODE-BLOCK START\n127.0.0.1 b.com\n# FOCUS-MODE-BLOCK END\nthree\nfour\n";
    assert_eq!(remove_block(content), "one\ntwo\nthree\nfour\n");
}

#[test]
fn removing_drops_two_regions() {
    let content = "a\n# FOCUS-MODE-BLOCK START\nx\n# FOCUS-MODE-BLOCK END\nb\n# FOCUS-MODE-BLOCK START\ny\n# FOCUS-MODE-BLOCK END\nc\n";
    assert_eq!(remove_block(content), "a\nb\nc\n");
}

#[test]
fn removing_drops_all_after_an_unterminated_start_marker() {
    assert_eq!(remove_block("a\n# FOCUS-MODE-BLOCK START\nb\nc\n"), "a\n");
    assert_eq!(remove_block("# FOCUS-MODE-BLOCK START"), "\n");
    assert_eq!(remove_block("# FOCUS-MODE-BLOCK START\n127.0.0.1 a.com\n"), "\n");
}

#[test]
fn removing_drops_a_stray_end_marker_line() {
    let content = "a\n# FOCUS-MODE-BLOCK END\nb\n# FOCUS-MODE-BLOCK START\nc\n# FOCUS-MODE-BLOCK END\nd\n";
    assert_eq!(remove_block(content), "a\nb\nd\n");
}

#[test]
fn removing_goes_by_substring() {
    let content = "a\nsee # FOCUS-MODE-BLOCK START here\nb\n   # FOCUS-MODE-BLOCK END trailing\nc\n";
    assert_eq!(remove_block(content), "a\nc\n");
}

#[test]
fn a_line_with_both_markers_opens_a_region() {
    let content = "a\n# FOCUS-MODE-BLOCK END # FOCUS-MODE-BLOCK START\nb\n# FOCUS-MODE-BLOCK END\nc\n";
    assert_eq!(remove_block(content), "a\nc\n");
}

#[test]
fn removing_reads_lines_that_end_with_carriage_return_and_line_feed() {
    let content = "a\r\n# FOCUS-MODE-BLOCK START\r\nb\r\n# FOCUS-MODE-BLOCK END\r\nc\r\n";
    assert_eq!(remove_block(content), "a\nc\n");
    assert_eq!(remove_block("# FOCUS-MODE-BLOCK START\n# FOCUS-MODE-BLOCK END\nlast\r"), "last\n");
}

#[test]
fn removing_trims_white_space_at_the_end_only() {
    let content = "  a  \n\n# FOCUS-MODE-BLOCK START\nx\n# FOCUS-MODE-BLOCK END\n \t \n\u{2003}\n";
    assert_eq!(remove_block(content), "  a\n");
}

#[test]
fn removing_agrees_with_the_standard_library() {
    let samples = [
        "# FOCUS-MODE-BLOCK START",
        "a\n# FOCUS-MODE-BLOCK START\nb\n# FOCUS-MODE-BLOCK END\nc",
        "a\r\n\r\n# FOCUS-MODE-BLOCK START\r\nb\r\n# FOCUS-MODE-BLOCK END\r\nc\r",
        "\n\n# FOCUS-MODE-BLOCK START\n\n# FOCUS-MODE-BLOCK END\n\n",
        "x # FOCUS-MODE-BLOCK STAR\n# FOCUS-MODE-BLOCK START\ny\n# FOCUS-MODE-BLOCK EN\nz # FOCUS-MODE-BLOCK END z\nw \u{a0}\u{85}",
        "# FOCUS-MODE-BLOCK END\n# FOCUS-MODE-BLOCK START\n# FOCUS-MODE-BLOCK START# FOCUS-MODE-BLOCK END\nkept?\n# FOCUS-MODE-BLOCK END\nkept!\r\r\n",
        "ünï\n# FOCUS-MODE-BLOCK START\n日本語\n# FOCUS-MODE-BLOCK END\n\u{1680}ogham\u{1680}\n",
    ];
    for content in samples {
        assert_eq!(remove_block(content), removal_by_std(content));
    }
}

#[test]
fn detection_follows_the_start_marker() {
    assert!(!is_focus_active("127.0.0.1 localhost\n"));
    assert!(is_focus_active("127.0.0.1 localhost\n# FOCUS-MODE-BLOCK START\n"));
    assert!(is_focus_active("x # FOCUS-MODE-BLOCK START y"));
    assert!(is_focus_active("# FOCUS-MODE-BLOCK START"));
    assert!(!is_focus_active("# FOCUS-MODE-BLOCK END\n"));
    assert!(!is_focus_active("# FOCUS-MODE-BLOCK STAR"));
    assert!(!is_focus_active("# focus-mode-block start"));
    assert!(!is_focus_active("# FOCUS-MODE-BLOCK\nSTART"));
    assert!(!is_focus_active(""));
}

#[test]
fn detection_gives_the_same_answer_again() {
    for content in ["", "a\n", "# FOCUS-MODE-BLOCK START\n", "a\n# FOCUS-MODE-BLOCK START"] {
        let first = is_focus_active(content);
        assert_eq!(is_focus_active(content), first);
        assert_eq!(is_focus_active(content), first);
        assert_eq!(first, content.contains(BLOCK_MARKER_START));
    }
}

#[test]
fn focus_on_leaves_an_active_file() {
    assert!(matches!(
        focus_on("# FOCUS-MODE-BLOCK START\n", &names(&["a.com"])),
        FocusOn::AlreadyActive
    ));
    assert!(matches!(focus_on("# FOCUS-MODE-BLOCK START\n", &names(&[])), FocusOn::AlreadyActive));
}

#[test]
fn focus_on_needs_a_domain() {
    assert!(matches!(focus_on("a\n", &names(&[])), FocusOn::NoDomains));
    assert!(matches!(focus_on("", &names(&[])), FocusOn::NoDomains));
}

#[test]
fn focus_off_leaves_an_inactive_file() {
    assert!(matches!(focus_off("a\n"), FocusOff::NotActive));
    assert!(matches!(focus_off("# FOCUS-MODE-BLOCK END\n"), FocusOff::NotActive));
    assert!(matches!(focus_off(""), FocusOff::NotActive));
}

#[test]
fn focus_on_then_off_goes_round() {
    match focus_on("a\n", &names(&["x.org"])) {
        FocusOn::Activated(content) => {
            assert_eq!(
                content,
                "a\n\n# FOCUS-MODE-BLOCK START\n127.0.0.1 x.org\n# FOCUS-MODE-BLOCK END\n"
            );
            assert!(matches!(focus_on(&content, &names(&["x.org"])), FocusOn::AlreadyActive));
            match focus_off(&content) {
                FocusOff::Deactivated(restored) => {
                    assert_eq!(restored, "a\n");
                    assert!(matches!(focus_off(&restored), FocusOff::NotActive));
                }
                FocusOff::NotActive => panic!("the region was not detected"),
            }
        }
        _ => panic!("the region was not appended"),
    }
}
