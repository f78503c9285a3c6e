//! The block region of a hosts file: detecting it, appending it and removing
//! it.
//!
//! A hosts file is a text. Focus mode is active exactly when the text holds
//! the start marker. Activating appends a region of one redirect line per
//! domain, framed by the two marker lines; deactivating drops every line from
//! a line with the start marker up to the next line with the end marker.

use crate::laws::{lemma_apply_activates, lemma_remove_deactivates};
use crate::text::{
    contains, contains_chars, join_lines, lemma_join_lines_push, line_views, lines_of, push_all,
    split_lines, string_of, string_views, to_chars, trim_end, trim_end_at,
};
use vstd::prelude::*;

verus! {

/// Where the hosts file is.
pub const HOSTS_FILE: &'static str = "/etc/hosts";

/// The line that opens the block region.
pub const BLOCK_MARKER_START: &'static str = "# FOCUS-MODE-BLOCK START";

/// The line that closes the block region.
pub const BLOCK_MARKER_END: &'static str = "# FOCUS-MODE-BLOCK END";

/// What stands before the domain in a redirect line: the loopback address and
/// a space.
pub const LOOPBACK_PREFIX: &'static str = "127.0.0.1 ";

/// The start marker as a text.
pub open spec fn start_marker() -> Seq<char> {
    BLOCK_MARKER_START@
}

/// The end marker as a text.
pub open spec fn end_marker() -> Seq<char> {
    BLOCK_MARKER_END@
}

/// Whether focus mode is active in a hosts file with this content: whether the
/// start marker is a substring of it.
pub open spec fn is_active(content: Seq<char>) -> bool {
    contains(content, start_marker())
}

/// The line that redirects `domain` to the loopback address.
pub open spec fn host_entry(domain: Seq<char>) -> Seq<char> {
    LOOPBACK_PREFIX@ + domain
}

/// The lines of the region for `domains`: the start marker, one redirect line
/// per domain in the order given, the end marker.
pub open spec fn region_lines(domains: Seq<Seq<char>>) -> Seq<Seq<char>> {
    seq![start_marker()] + domains.map_values(|domain: Seq<char>| host_entry(domain))
        + seq![end_marker()]
}

/// The text that activating appends: a line feed, then the lines of the
/// region, each followed by a line feed.
pub open spec fn block_text(domains: Seq<Seq<char>>) -> Seq<char> {
    seq!['\n'] + join_lines(region_lines(domains))
}

/// The content of a hosts file after the region for `domains` was appended.
pub open spec fn with_block(content: Seq<char>, domains: Seq<Seq<char>>) -> Seq<char> {
    content + block_text(domains)
}

/// Whether removal is inside a region after it has read `line`, having been
/// inside or not before it. A line with the start marker opens a region, also
/// where it holds the end marker too; any other line with the end marker
/// closes it.
pub open spec fn inside_after(line: Seq<char>, inside: bool) -> bool {
    if contains(line, start_marker()) {
        true
    } else if contains(line, end_marker()) {
        false
    } else {
        inside
    }
}

/// Whether removal keeps `line`: it is outside a region and holds no marker.
pub open spec fn is_kept(line: Seq<char>, inside: bool) -> bool {
    !inside && !contains(line, start_marker()) && !contains(line, end_marker())
}

/// The lines that removal keeps of `lines`, in their order, when it starts
/// inside a region or not.
pub open spec fn kept_lines(lines: Seq<Seq<char>>, inside: bool) -> Seq<Seq<char>>
    decreases lines.len(),
{
    if lines.len() == 0 {
        Seq::empty()
    } else {
        let rest = kept_lines(lines.skip(1), inside_after(lines[0], inside));
        if is_kept(lines[0], inside) {
            seq![lines[0]] + rest
        } else {
            rest
        }
    }
}

/// The content of a hosts file after removal: the kept lines, each followed
/// by a line feed, then without trailing white space, then one line feed.
pub open spec fn without_block(content: Seq<char>) -> Seq<char> {
    trim_end(join_lines(kept_lines(lines_of(content), false))) + seq!['\n']
}

/// Whether focus mode is active in a hosts file with this content.
pub fn is_focus_active(content: &str) -> (active: bool)
    ensures
        active == is_active(content@),
{
    let text = to_chars(content);
    let start = to_chars(BLOCK_MARKER_START);
    contains_chars(&text, &start)
}

/// The content of the hosts file with the region for `domains` appended to
/// it.
pub fn apply_block(content: &str, domains: &Vec<String>) -> (r: String)
    requires
        !is_active(content@),
        domains.len() > 0,
    ensures
        r@ == with_block(content@, string_views(domains@)),
        is_active(r@),
{
    let start = to_chars(BLOCK_MARKER_START);
    let end = to_chars(BLOCK_MARKER_END);
    let prefix = to_chars(LOOPBACK_PREFIX);
    let ghost names = string_views(domains@);
    let ghost entries = names.map_values(|domain: Seq<char>| host_entry(domain));
    let ghost head = seq![start_marker()];
    let mut text = to_chars(content);
    text.push('\n');
    push_all(&mut text, &start);
    text.push('\n');
    proof {
        lemma_join_lines_push(Seq::empty(), start_marker());
        assert(Seq::<Seq<char>>::empty().push(start_marker()) =~= head + entries.take(0));
    }
    let mut i: usize = 0;
    while i < domains.len()
        invariant
            i <= domains.len(),
            prefix@ == LOOPBACK_PREFIX@,
            names == string_views(domains@),
            entries == names.map_values(|domain: Seq<char>| host_entry(domain)),
            head == seq![start_marker()],
            text@ == content@ + seq!['\n'] + join_lines(head + entries.take(i as int)),
        decreases domains.len() - i,
    {
        let domain = to_chars(domains[i].as_str());
        push_all(&mut text, &prefix);
        push_all(&mut text, &domain);
        text.push('\n');
        proof {
            let before = head + entries.take(i as int);
            assert(entries[i as int] == host_entry(domain@));
            lemma_join_lines_push(before, entries[i as int]);
            assert(before.push(entries[i as int]) =~= head + entries.take(i + 1));
        }
        i += 1;
    }
    push_all(&mut text, &end);
    text.push('\n');
    proof {
        assert(entries.take(i as int) =~= entries);
        lemma_join_lines_push(head + entries, end_marker());
        assert((head + entries).push(end_marker()) =~= region_lines(names));
        assert(text@ =~= with_block(content@, names));
        lemma_apply_activates(content@, names);
    }
    string_of(&text)
}

/// The content of the hosts file without its block region.
pub fn remove_block(content: &str) -> (r: String)
    requires
        is_active(content@),
    ensures
        r@ == without_block(content@),
        !is_active(r@),
{
    let start = to_chars(BLOCK_MARKER_START);
    let end = to_chars(BLOCK_MARKER_END);
    let text = to_chars(content);
    let lines = split_lines(&text);
    let ghost all = lines_of(content@);
    let ghost mut kept_so_far: Seq<Seq<char>> = Seq::empty();
    let mut kept: Vec<char> = Vec::new();
    let mut in_block = false;
    let mut i: usize = 0;
    assert(all.skip(0) =~= all);
    while i < lines.len()
        invariant
            i <= lines.len(),
            line_views(lines@) == all,
            start@ == start_marker(),
            end@ == end_marker(),
            kept@ == join_lines(kept_so_far),
            kept_lines(all, false) =~= kept_so_far + kept_lines(all.skip(i as int), in_block),
        decreases lines.len() - i,
    {
        let line = &lines[i];
        proof {
            assert(line@ == all[i as int]);
            assert(all.skip(i as int)[0] == all[i as int]);
            assert(all.skip(i as int).skip(1) =~= all.skip(i + 1));
        }
        if contains_chars(line, &start) {
            in_block = true;
        } else if contains_chars(line, &end) {
            in_block = false;
        } else if !in_block {
            proof {
                lemma_join_lines_push(kept_so_far, line@);
                kept_so_far = kept_so_far.push(line@);
            }
            push_all(&mut kept, line);
            kept.push('\n');
        }
        i += 1;
    }
    let stop = trim_end_at(&kept, 0);
    proof {
        assert(kept@.skip(0) =~= kept@);
    }
    kept.truncate(stop);
    kept.push('\n');
    proof {
        lemma_remove_deactivates(content@);
    }
    string_of(&kept)
}

/// What turning focus mode on comes to.
#[derive(Debug)]
pub enum FocusOn {
    /// The hosts file holds the start marker already; it is left as it is.
    AlreadyActive,
    /// There is no domain to block; the hosts file is left as it is.
    NoDomains,
    /// The hosts file is to be rewritten with this content.
    Activated(String),
}

/// What turning focus mode off comes to.
#[derive(Debug)]
pub enum FocusOff {
    /// The hosts file does not hold the start marker; it is left as it is.
    NotActive,
    /// The hosts file is to be rewritten with this content.
    Deactivated(String),
}

/// Turns focus mode on for a hosts file with the content `hosts`: appends the
/// region for `domains` unless the file is active already or no domain is
/// given.
pub fn focus_on(hosts: &str, domains: &Vec<String>) -> (outcome: FocusOn)
    ensures
        is_active(hosts@) ==> outcome is AlreadyActive,
        !is_active(hosts@) && domains.len() == 0 ==> outcome is NoDomains,
        !is_active(hosts@) && domains.len() > 0 ==> (outcome matches FocusOn::Activated(content)
            && content@ == with_block(hosts@, string_views(domains@)) && is_active(content@)),
{
    if is_focus_active(hosts) {
        FocusOn::AlreadyActive
    } else if domains.len() == 0 {
        FocusOn::NoDomains
    } else {
        FocusOn::Activated(apply_block(hosts, domains))
    }
}

/// Turns focus mode off for a hosts file with the content `hosts`: removes the
/// block region unless the file is not active.
pub fn focus_off(hosts: &str) -> (outcome: FocusOff)
    ensures
        !is_active(hosts@) ==> outcome is NotActive,
        is_active(hosts@) ==> (outcome matches FocusOff::Deactivated(content) && content@
            == without_block(hosts@) && !is_active(content@)),
{
    if is_focus_active(hosts) {
        FocusOff::Deactivated(remove_block(hosts))
    } else {
        FocusOff::NotActive
    }
}

} // verus!
