//! The domain list: a text with one domain per line.
//!
//! Each line is trimmed. A trimmed line that is empty, or that begins with
//! `#`, is no entry. The entries keep the order of their lines, and an entry
//! that occurs twice is listed twice.

use crate::text::{
    copy_range, line_views, lines_of, split_lines, string_of, string_views, to_chars, trim,
    trim_end_at, trim_start_at,
};
use vstd::prelude::*;

verus! {

/// The domain list that a new installation starts with.
pub const DEFAULT_DOMAINS: &'static str =
    "# Add one domain per line\n# Lines starting with # are comments\n# Example:\n# instagram.com\n# twitter.com\ninstagram.com\nwww.instagram.com\nx.com\nwww.x.com\ntwitter.com\nwww.twitter.com\n";

/// Whether a trimmed line is a domain entry: it is not empty and is no
/// comment.
pub open spec fn is_domain_entry(trimmed: Seq<char>) -> bool {
    trimmed.len() > 0 && trimmed[0] != '#'
}

/// The domain entries among `lines`: each line trimmed, and of these the ones
/// that are entries, in their order.
pub open spec fn domain_entries_of(lines: Seq<Seq<char>>) -> Seq<Seq<char>> {
    lines.map_values(|line: Seq<char>| trim(line)).filter(
        |trimmed: Seq<char>| is_domain_entry(trimmed),
    )
}

/// The domain entries of a domain list with this content.
pub open spec fn domains_of(content: Seq<char>) -> Seq<Seq<char>> {
    domain_entries_of(lines_of(content))
}

/// The entries of a list of lines with one more line are those of the list,
/// followed by the trimmed line where it is an entry.
pub proof fn lemma_domain_entries_push(lines: Seq<Seq<char>>, line: Seq<char>)
    ensures
        domain_entries_of(lines.push(line)) == if is_domain_entry(trim(line)) {
            domain_entries_of(lines).push(trim(line))
        } else {
            domain_entries_of(lines)
        },
{
    reveal(Seq::filter);
    let to_trimmed = |line: Seq<char>| trim(line);
    let all = lines.push(line).map_values(to_trimmed);
    assert(all.drop_last() =~= lines.map_values(to_trimmed));
    assert(all.last() == trim(line));
}

/// The domain entry on `line`, if it holds one.
fn entry_on(line: &Vec<char>) -> (entry: Option<Vec<char>>)
    ensures
        is_domain_entry(trim(line@)) ==> (entry matches Some(domain) && domain@ == trim(line@)),
        !is_domain_entry(trim(line@)) ==> entry is None,
{
    let start = trim_start_at(line);
    let end = trim_end_at(line, start);
    if start < end && line[start] != '#' {
        Some(copy_range(line, start, end))
    } else {
        None
    }
}

/// The domain entry on `line`, if it holds one: the trimmed line, unless that
/// is empty or a comment.
pub fn domain_entry(line: &str) -> (entry: Option<String>)
    ensures
        is_domain_entry(trim(line@)) ==> (entry matches Some(domain) && domain@ == trim(line@)),
        !is_domain_entry(trim(line@)) ==> entry is None,
{
    let chars = to_chars(line);
    match entry_on(&chars) {
        Some(domain) => Some(string_of(&domain)),
        None => None,
    }
}

/// The domain entries among `lines`.
pub fn domain_entries(lines: &Vec<String>) -> (domains: Vec<String>)
    ensures
        string_views(domains@) == domain_entries_of(string_views(lines@)),
{
    let ghost all = string_views(lines@);
    let mut domains: Vec<String> = Vec::new();
    let mut i: usize = 0;
    assert(string_views(domains@) =~= domain_entries_of(all.take(0))) by {
        reveal(Seq::filter);
    }
    while i < lines.len()
        invariant
            i <= lines.len(),
            all == string_views(lines@),
            string_views(domains@) =~= domain_entries_of(all.take(i as int)),
        decreases lines.len() - i,
    {
        proof {
            lemma_domain_entries_push(all.take(i as int), all[i as int]);
            assert(all.take(i as int).push(all[i as int]) =~= all.take(i + 1));
        }
        let ghost before = domains@;
        match domain_entry(lines[i].as_str()) {
            Some(domain) => {
                domains.push(domain);
                assert(string_views(domains@) =~= string_views(before).push(domain@));
            },
            None => {},
        }
        i += 1;
    }
    assert(all.take(i as int) =~= all);
    domains
}

/// The domain entries of a domain list with this content.
pub fn parse_domains(content: &str) -> (domains: Vec<String>)
    ensures
        string_views(domains@) == domains_of(content@),
{
    let text = to_chars(content);
    let lines = split_lines(&text);
    let ghost all = lines_of(content@);
    let mut domains: Vec<String> = Vec::new();
    let mut i: usize = 0;
    assert(string_views(domains@) =~= domain_entries_of(all.take(0))) by {
        reveal(Seq::filter);
    }
    while i < lines.len()
        invariant
            i <= lines.len(),
            all == line_views(lines@),
            string_views(domains@) =~= domain_entries_of(all.take(i as int)),
        decreases lines.len() - i,
    {
        proof {
            lemma_domain_entries_push(all.take(i as int), all[i as int]);
            assert(all.take(i as int).push(all[i as int]) =~= all.take(i + 1));
        }
        let ghost before = domains@;
        match entry_on(&lines[i]) {
            Some(domain) => {
                let entry = string_of(&domain);
                domains.push(entry);
                assert(string_views(domains@) =~= string_views(before).push(entry@));
            },
            None => {},
        }
        i += 1;
    }
    assert(all.take(i as int) =~= all);
    domains
}

} // verus!
