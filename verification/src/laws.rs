//! Laws of the block region: what detecting, appending and removing have to
//! do with one another.

use crate::hosts::{
    block_text, end_marker, host_entry, inside_after, is_active, is_kept, kept_lines,
    region_lines, start_marker, with_block, without_block, LOOPBACK_PREFIX,
};
use crate::text::{
    contains, is_blank, is_whitespace, join_lines, lemma_join_lines_concat, line_break, lines_of,
    occurs_at, trim_end,
};
use crate::text_proofs::{
    differs_at, ends_lines, is_crlf_free, is_line, lemma_contains_after_prefix,
    lemma_contains_before_line_feed, lemma_contains_in_part, lemma_join_contains,
    lemma_join_of_lines, lemma_join_of_lines_drops_cr, lemma_lines_are_parts,
    lemma_lines_of_concat, lemma_lines_of_join, lemma_prefixed_line,
    lemma_trim_end_ignores_blank_end, lemma_trim_end_splits,
};
use vstd::prelude::*;

verus! {

/// Whether `line` holds neither marker.
pub open spec fn is_plain(line: Seq<char>) -> bool {
    !contains(line, start_marker()) && !contains(line, end_marker())
}

/// Whether `line` closes a region: it holds the end marker and not the start
/// marker.
pub open spec fn closes_region(line: Seq<char>) -> bool {
    !contains(line, start_marker()) && contains(line, end_marker())
}

/// Whether removal is inside a region after it has read `lines`, having been
/// inside or not before them.
pub open spec fn inside_after_lines(lines: Seq<Seq<char>>, inside: bool) -> bool
    decreases lines.len(),
{
    if lines.len() == 0 {
        inside
    } else {
        inside_after_lines(lines.skip(1), inside_after(lines[0], inside))
    }
}

/// Whether a hosts file has the shape that removal leaves behind: it is its
/// own content without trailing white space, followed by one line feed, and no
/// carriage return in it stands before a line feed.
pub open spec fn is_settled(content: Seq<char>) -> bool {
    &&& content =~= trim_end(content) + seq!['\n']
    &&& is_crlf_free(content)
}

/// What removal keeps of the region for `domains` when it reads the region
/// back: the kept lines, each followed by a line feed.
pub open spec fn region_residue(domains: Seq<Seq<char>>) -> Seq<char> {
    join_lines(kept_lines(lines_of(join_lines(region_lines(domains))), false))
}

/// The markers: their lengths, their first characters, that each reads back
/// as one line, and that the end marker does not hold the start marker.
pub proof fn lemma_markers()
    ensures
        start_marker().len() == 24,
        end_marker().len() == 22,
        start_marker()[0] == '#',
        end_marker()[0] == '#',
        is_line(start_marker()),
        is_line(end_marker()),
        contains(start_marker(), start_marker()),
        contains(end_marker(), end_marker()),
        !contains(end_marker(), start_marker()),
{
    reveal_strlit("# FOCUS-MODE-BLOCK START");
    reveal_strlit("# FOCUS-MODE-BLOCK END");
    assert(occurs_at(start_marker(), start_marker(), 0));
    assert(occurs_at(end_marker(), end_marker(), 0));
}

/// What stands before the domain in a redirect line reads back as part of
/// one line and holds no `#`, the first character of both markers.
pub proof fn lemma_loopback_prefix()
    ensures
        is_line(LOOPBACK_PREFIX@),
        forall|k: int| 0 <= k < LOOPBACK_PREFIX@.len() ==> #[trigger] LOOPBACK_PREFIX@[k] != '#',
{
    reveal_strlit("127.0.0.1 ");
}

/// An empty line holds neither marker.
pub proof fn lemma_empty_line_is_plain()
    ensures
        is_plain(Seq::<char>::empty()),
{
    lemma_markers();
}

/// The joined lines are empty or end with a line feed.
pub proof fn lemma_join_ends_lines(lines: Seq<Seq<char>>)
    ensures
        ends_lines(join_lines(lines)),
    decreases lines.len(),
{
    if lines.len() > 0 {
        lemma_join_ends_lines(lines.skip(1));
    }
}

/// Removal reads two lists of lines one after the other: what it keeps of
/// both is what it keeps of the first, followed by what it keeps of the second
/// in the state that the first left it in.
pub proof fn lemma_kept_lines_concat(a: Seq<Seq<char>>, b: Seq<Seq<char>>, inside: bool)
    ensures
        kept_lines(a + b, inside) =~= kept_lines(a, inside) + kept_lines(
            b,
            inside_after_lines(a, inside),
        ),
        inside_after_lines(a + b, inside) == inside_after_lines(b, inside_after_lines(a, inside)),
    decreases a.len(),
{
    if a.len() == 0 {
        assert(a + b =~= b);
    } else {
        assert((a + b).skip(1) =~= a.skip(1) + b);
        lemma_kept_lines_concat(a.skip(1), b, inside_after(a[0], inside));
    }
}

/// Outside a region, removal keeps lines without markers as they are and
/// stays outside.
pub proof fn lemma_plain_lines_are_kept(lines: Seq<Seq<char>>)
    requires
        forall|i: int| 0 <= i < lines.len() ==> is_plain(#[trigger] lines[i]),
    ensures
        kept_lines(lines, false) =~= lines,
        !inside_after_lines(lines, false),
    decreases lines.len(),
{
    if lines.len() > 0 {
        let rest = lines.skip(1);
        assert(is_plain(lines[0]));
        assert forall|i: int| 0 <= i < rest.len() implies is_plain(#[trigger] rest[i]) by {
            assert(rest[i] == lines[i + 1]);
        }
        lemma_plain_lines_are_kept(rest);
        assert(seq![lines[0]] + rest =~= lines);
    }
}

/// Every line that removal keeps holds neither marker.
pub proof fn lemma_kept_lines_are_plain(lines: Seq<Seq<char>>, inside: bool)
    ensures
        forall|i: int|
            0 <= i < kept_lines(lines, inside).len() ==> is_plain(
                #[trigger] kept_lines(lines, inside)[i],
            ),
    decreases lines.len(),
{
    if lines.len() > 0 {
        let rest = kept_lines(lines.skip(1), inside_after(lines[0], inside));
        lemma_kept_lines_are_plain(lines.skip(1), inside_after(lines[0], inside));
        assert forall|i: int| 0 <= i < kept_lines(lines, inside).len() implies is_plain(
            #[trigger] kept_lines(lines, inside)[i],
        ) by {
            if is_kept(lines[0], inside) && i > 0 {
                assert(kept_lines(lines, inside)[i] == rest[i - 1]);
            }
        }
    }
}

/// Of lines none of which closes a region, removal keeps nothing and ends
/// inside a region, where it starts inside one or the first line holds the
/// start marker.
pub proof fn lemma_open_region_keeps_nothing(lines: Seq<Seq<char>>, inside: bool)
    requires
        forall|i: int| 0 <= i < lines.len() ==> !closes_region(#[trigger] lines[i]),
        inside || (lines.len() > 0 && contains(lines[0], start_marker())),
    ensures
        kept_lines(lines, inside) =~= Seq::<Seq<char>>::empty(),
        inside_after_lines(lines, inside),
    decreases lines.len(),
{
    if lines.len() > 0 {
        let rest = lines.skip(1);
        assert(!closes_region(lines[0]));
        assert forall|i: int| 0 <= i < rest.len() implies !closes_region(#[trigger] rest[i]) by {
            assert(rest[i] == lines[i + 1]);
        }
        lemma_open_region_keeps_nothing(rest, true);
    }
}

/// The end marker in a redirect line stands in the domain.
pub proof fn lemma_end_marker_in_entry(domain: Seq<char>)
    requires
        contains(host_entry(domain), end_marker()),
    ensures
        contains(domain, end_marker()),
{
    lemma_loopback_prefix();
    lemma_markers();
    lemma_contains_after_prefix(LOOPBACK_PREFIX@, domain, end_marker());
}

/// Detection after appending: a hosts file to which a region was appended is
/// active, whatever it held before and whatever the domains are.
pub proof fn lemma_apply_activates(content: Seq<char>, domains: Seq<Seq<char>>)
    ensures
        is_active(with_block(content, domains)),
{
    let region = region_lines(domains);
    let text = with_block(content, domains);
    let at: int = content.len() as int + 1;
    assert(region[0] == start_marker());
    assert(join_lines(region) == region[0] + seq!['\n'] + join_lines(region.skip(1)));
    assert(text.subrange(at, at + start_marker().len()) =~= start_marker());
    assert(occurs_at(text, start_marker(), at));
}

/// Detection depends on the content alone: as long as the content stays the
/// same, so does the answer.
pub proof fn lemma_detection_is_stable(first: Seq<char>, second: Seq<char>)
    requires
        first =~= second,
    ensures
        is_active(first) == is_active(second),
{
}

/// The region lists the domains in the order given, each once for each time
/// it was given, between the two markers.
pub proof fn lemma_region_lists_domains_in_order(domains: Seq<Seq<char>>)
    ensures
        region_lines(domains).len() == domains.len() + 2,
        region_lines(domains)[0] == start_marker(),
        forall|i: int|
            0 <= i < domains.len() ==> #[trigger] region_lines(domains)[i + 1] == host_entry(
                domains[i],
            ),
        region_lines(domains).last() == end_marker(),
{
}

/// Where each domain reads back as one line, the appended text reads back as
/// an empty line followed by the lines of the region, one line per domain.
pub proof fn lemma_region_reads_back(domains: Seq<Seq<char>>)
    requires
        forall|i: int| 0 <= i < domains.len() ==> is_line(#[trigger] domains[i]),
    ensures
        lines_of(block_text(domains)) =~= seq![Seq::<char>::empty()] + region_lines(domains),
{
    lemma_loopback_prefix();
    lemma_markers();
    let region = region_lines(domains);
    assert forall|i: int| 0 <= i < region.len() implies is_line(#[trigger] region[i]) by {
        if 0 < i <= domains.len() {
            assert(is_line(domains[i - 1]));
            lemma_prefixed_line(LOOPBACK_PREFIX@, domains[i - 1]);
        }
    }
    lemma_lines_of_join(region);
    let text = block_text(domains);
    assert(line_break(text) == 0);
    assert(text.take(0) =~= Seq::<char>::empty());
    assert(text.skip(1) =~= join_lines(region));
}

/// Removal drops a region with further start markers in it as a whole: of the
/// lines before a region, the region and the lines after it, removal keeps the
/// lines before and after. The region begins with a line that holds the start
/// marker, ends with a line that closes it, and no line between closes it.
pub proof fn lemma_region_is_dropped(
    before: Seq<Seq<char>>,
    region: Seq<Seq<char>>,
    after: Seq<Seq<char>>,
)
    requires
        forall|i: int| 0 <= i < before.len() ==> is_plain(#[trigger] before[i]),
        region.len() >= 2,
        contains(region[0], start_marker()),
        forall|i: int| 0 <= i < region.len() - 1 ==> !closes_region(#[trigger] region[i]),
        closes_region(region.last()),
        forall|i: int| 0 <= i < after.len() ==> is_plain(#[trigger] after[i]),
    ensures
        kept_lines(before + region + after, false) =~= before + after,
        !inside_after_lines(before + region + after, false),
{
    let open = region.drop_last();
    let close = seq![region.last()];
    assert(region =~= open + close);
    assert(before + region + after =~= before + (region + after));
    lemma_plain_lines_are_kept(before);
    lemma_kept_lines_concat(before, region + after, false);
    lemma_kept_lines_concat(region, after, false);
    lemma_kept_lines_concat(open, close, false);
    assert(open[0] == region[0]);
    assert forall|i: int| 0 <= i < open.len() implies !closes_region(#[trigger] open[i]) by {
        assert(open[i] == region[i]);
    }
    lemma_open_region_keeps_nothing(open, false);
    assert(kept_lines(close, true) =~= Seq::<Seq<char>>::empty() && !inside_after_lines(
        close,
        true,
    )) by {
        reveal_with_fuel(kept_lines, 2);
        reveal_with_fuel(inside_after_lines, 2);
    }
    lemma_plain_lines_are_kept(after);
}

/// Several start markers and one end marker: removal leaves the text before
/// the first start marker and the text after the end marker, and nothing of
/// what stands between, the marker lines included.
pub proof fn lemma_removal_collapses_nested_starts(
    before: Seq<Seq<char>>,
    region: Seq<Seq<char>>,
    after: Seq<Seq<char>>,
)
    requires
        forall|i: int| 0 <= i < before.len() ==> is_plain(#[trigger] before[i]),
        forall|i: int| 0 <= i < before.len() ==> is_line(#[trigger] before[i]),
        region.len() >= 2,
        contains(region[0], start_marker()),
        forall|i: int| 0 <= i < region.len() - 1 ==> !closes_region(#[trigger] region[i]),
        closes_region(region.last()),
        forall|i: int| 0 <= i < region.len() ==> is_line(#[trigger] region[i]),
        forall|i: int| 0 <= i < after.len() ==> is_plain(#[trigger] after[i]),
        forall|i: int| 0 <= i < after.len() ==> is_line(#[trigger] after[i]),
    ensures
        without_block(join_lines(before + region + after)) == trim_end(join_lines(before + after))
            + seq!['\n'],
{
    let all = before + region + after;
    assert forall|i: int| 0 <= i < all.len() implies is_line(#[trigger] all[i]) by {
        if i < before.len() {
            assert(all[i] == before[i]);
        } else if i < before.len() + region.len() {
            assert(all[i] == region[i - before.len()]);
        } else {
            assert(all[i] == after[i - before.len() - region.len()]);
        }
    }
    lemma_lines_of_join(all);
    lemma_region_is_dropped(before, region, after);
}

/// A start marker without an end marker after it: removal drops the line with
/// the start marker and all that follows it.
pub proof fn lemma_unterminated_region_drops_the_rest(
    before: Seq<Seq<char>>,
    rest: Seq<Seq<char>>,
)
    requires
        forall|i: int| 0 <= i < before.len() ==> is_plain(#[trigger] before[i]),
        forall|i: int| 0 <= i < before.len() ==> is_line(#[trigger] before[i]),
        rest.len() > 0,
        contains(rest[0], start_marker()),
        forall|i: int| 0 <= i < rest.len() ==> !closes_region(#[trigger] rest[i]),
        forall|i: int| 0 <= i < rest.len() ==> is_line(#[trigger] rest[i]),
    ensures
        without_block(join_lines(before + rest)) == trim_end(join_lines(before)) + seq!['\n'],
{
    let all = before + rest;
    assert forall|i: int| 0 <= i < all.len() implies is_line(#[trigger] all[i]) by {
        if i < before.len() {
            assert(all[i] == before[i]);
        } else {
            assert(all[i] == rest[i - before.len()]);
        }
    }
    lemma_lines_of_join(all);
    lemma_plain_lines_are_kept(before);
    lemma_kept_lines_concat(before, rest, false);
    lemma_open_region_keeps_nothing(rest, false);
    assert(kept_lines(all, false) =~= before);
}

/// Where no domain holds the end marker, removal keeps nothing of the region
/// for the domains.
pub proof fn lemma_plain_domains_leave_no_residue(domains: Seq<Seq<char>>)
    requires
        forall|i: int| 0 <= i < domains.len() ==> !contains(#[trigger] domains[i], end_marker()),
    ensures
        region_residue(domains) =~= Seq::<char>::empty(),
{
    lemma_markers();
    let entries = domains.map_values(|domain: Seq<char>| host_entry(domain));
    let head = seq![start_marker()];
    let foot = seq![end_marker()];
    let opening = join_lines(head);
    let middle = join_lines(entries);
    let closing = join_lines(foot);
    assert(region_lines(domains) =~= head + (entries + foot));
    lemma_join_lines_concat(head, entries + foot);
    lemma_join_lines_concat(entries, foot);
    lemma_join_ends_lines(head);
    lemma_join_ends_lines(entries);
    lemma_lines_of_concat(opening, middle + closing);
    lemma_lines_of_concat(middle, closing);
    lemma_lines_of_join(head);
    lemma_lines_of_join(foot);
    assert forall|j: int| 0 <= j < entries.len() implies !contains(
        #[trigger] entries[j],
        end_marker(),
    ) by {
        if contains(entries[j], end_marker()) {
            assert(!contains(domains[j], end_marker()));
            lemma_end_marker_in_entry(domains[j]);
        }
    }
    lemma_join_contains(entries, end_marker());
    lemma_lines_are_parts(middle, end_marker());
    let between = lines_of(middle);
    let read_back = lines_of(join_lines(region_lines(domains)));
    assert(read_back =~= head + (between + foot));
    lemma_kept_lines_concat(head, between + foot, false);
    lemma_kept_lines_concat(between, foot, true);
    assert(kept_lines(head, false) =~= Seq::<Seq<char>>::empty() && inside_after_lines(
        head,
        false,
    )) by {
        reveal_with_fuel(kept_lines, 2);
        reveal_with_fuel(inside_after_lines, 2);
    }
    lemma_open_region_keeps_nothing(between, true);
    assert(kept_lines(foot, true) =~= Seq::<Seq<char>>::empty()) by {
        reveal_with_fuel(kept_lines, 2);
    }
    assert(kept_lines(read_back, false) =~= Seq::<Seq<char>>::empty());
}

/// After removal the hosts file is not active, and holds no end marker
/// either.
pub proof fn lemma_remove_deactivates(content: Seq<char>)
    ensures
        !is_active(without_block(content)),
        !contains(without_block(content), end_marker()),
{
    lemma_markers();
    let kept = kept_lines(lines_of(content), false);
    let kept_text = join_lines(kept);
    let body = trim_end(kept_text);
    lemma_kept_lines_are_plain(lines_of(content), false);
    lemma_join_contains(kept, start_marker());
    lemma_join_contains(kept, end_marker());
    lemma_trim_end_splits(kept_text);
    assert(body =~= kept_text.subrange(0, body.len() as int));
    if contains(body + seq!['\n'], start_marker()) {
        lemma_contains_before_line_feed(body, start_marker());
        lemma_contains_in_part(kept_text, 0, body.len() as int, start_marker());
    }
    if contains(body + seq!['\n'], end_marker()) {
        lemma_contains_before_line_feed(body, end_marker());
        lemma_contains_in_part(kept_text, 0, body.len() as int, end_marker());
    }
}

/// What removal keeps of a hosts file to which a region was appended, where
/// the file ended with a line feed and held no marker: the lines of the file,
/// an empty line, and what it keeps of the region.
pub proof fn lemma_kept_of_applied(content: Seq<char>, domains: Seq<Seq<char>>)
    requires
        ends_lines(content),
        !is_active(content),
        !contains(content, end_marker()),
    ensures
        join_lines(kept_lines(lines_of(with_block(content, domains)), false)) =~= join_lines(
            lines_of(content),
        ) + seq!['\n'] + region_residue(domains),
{
    lemma_empty_line_is_plain();
    let joined = join_lines(region_lines(domains));
    let tail = block_text(domains);
    let applied = with_block(content, domains);
    let empty_line = Seq::<char>::empty();
    let own = lines_of(content);
    let read_back = lines_of(joined);
    let residue_lines = kept_lines(read_back, false);

    lemma_lines_of_concat(content, tail);
    assert(line_break(tail) == 0);
    assert(tail.take(0) =~= empty_line);
    assert(tail.skip(1) =~= joined);
    assert(lines_of(tail) =~= seq![empty_line] + read_back);

    lemma_lines_are_parts(content, start_marker());
    lemma_lines_are_parts(content, end_marker());
    lemma_plain_lines_are_kept(own);
    lemma_kept_lines_concat(own, seq![empty_line] + read_back, false);
    assert((seq![empty_line] + read_back).skip(1) =~= read_back);
    assert(kept_lines(seq![empty_line] + read_back, false) =~= seq![empty_line] + residue_lines);
    assert(kept_lines(lines_of(applied), false) =~= own + (seq![empty_line] + residue_lines));

    lemma_join_lines_concat(own, seq![empty_line] + residue_lines);
    lemma_join_lines_concat(seq![empty_line], residue_lines);
    assert(join_lines(seq![empty_line]) =~= seq!['\n']) by {
        reveal_with_fuel(join_lines, 2);
    }
}

/// Removing after appending gives the hosts file back as it was, character
/// for character. This holds of a file that was not active and holds no end
/// marker, that has the shape that removal leaves behind, and of domains of
/// whose region removal keeps nothing but white space.
pub proof fn lemma_remove_after_apply_restores(content: Seq<char>, domains: Seq<Seq<char>>)
    requires
        !is_active(content),
        !contains(content, end_marker()),
        is_settled(content),
        is_blank(region_residue(domains)),
    ensures
        is_active(with_block(content, domains)),
        without_block(with_block(content, domains)) == content,
{
    lemma_apply_activates(content, domains);
    let line_feed = seq!['\n'];
    let residue = region_residue(domains);
    lemma_kept_of_applied(content, domains);
    lemma_join_of_lines(content);
    lemma_trim_end_ignores_blank_end(content + line_feed, residue);
    assert(is_whitespace('\n'));
    assert((content + line_feed).drop_last() =~= content);
    assert(trim_end(content + line_feed) == trim_end(content));
}

/// Removing after appending gives the hosts file back only on the terms of
/// `lemma_remove_after_apply_restores`: a file that was not active and comes
/// back character for character holds no end marker, has the shape that
/// removal leaves behind, and of the region for the domains removal keeps
/// nothing but white space.
pub proof fn lemma_restoring_needs_a_settled_file(content: Seq<char>, domains: Seq<Seq<char>>)
    requires
        !is_active(content),
        without_block(with_block(content, domains)) == content,
    ensures
        !contains(content, end_marker()),
        is_settled(content),
        is_blank(region_residue(domains)),
{
    let applied = with_block(content, domains);
    let line_feed = seq!['\n'];
    let own_text = join_lines(lines_of(content));
    let residue = region_residue(domains);
    let kept_text = join_lines(kept_lines(lines_of(applied), false));
    let body = trim_end(kept_text);

    lemma_remove_deactivates(applied);
    assert(content == body + line_feed);
    assert(content.last() == '\n');
    assert(content.drop_last() =~= body);
    lemma_trim_end_splits(kept_text);
    lemma_kept_of_applied(content, domains);
    assert(kept_text =~= own_text + line_feed + residue);

    if !is_crlf_free(content) {
        lemma_join_of_lines_drops_cr(content);
        let p = choose|p: int| differs_at(own_text, content, p);
        assert(content[p] == body[p]);
        assert(body[p] == kept_text.take(body.len() as int)[p]);
        assert(kept_text[p] == own_text[p]);
        assert(false);
    }
    assert(is_whitespace('\n'));
    assert(trim_end(content) == trim_end(body));
    assert(content =~= trim_end(content) + line_feed);

    lemma_join_of_lines(content);
    let blank_end = kept_text.skip(body.len() as int);
    assert forall|i: int| 0 <= i < residue.len() implies is_whitespace(#[trigger] residue[i]) by {
        assert(residue[i] == blank_end[i + 2]);
    }
}

} // verus!
