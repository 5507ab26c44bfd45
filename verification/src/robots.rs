//! What a robots.txt file says to this crawler: the Crawl-delay it asks for
//! and which URLs it allows.

use vstd::prelude::*;
use crate::text::{
    chars_eq, chars_eq_ignore_ascii_case, chars_to_string, eq_ignore_ascii_case, has_prefix,
    is_space, slice_chars, starts_with, to_chars, trim, trim_chars, trim_end, trim_start, views,
};
use robotstxt::matcher::{LongestMatchRobotsMatchStrategy, RobotsMatcher};

verus! {

/// The user agent under which the crawler reads robots.txt.
pub const USER_AGENT: &'static str = "muse-crawler";

/// The pieces of `s` between line feeds, in order: one more piece than `s`
/// has line feeds.
pub open spec fn split_lines(s: Seq<char>) -> Seq<Seq<char>>
    decreases s.len(),
{
    if s.len() == 0 {
        seq![Seq::empty()]
    } else {
        let prev = split_lines(s.drop_last());
        if s.last() == '\n' {
            prev.push(Seq::empty())
        } else {
            prev.drop_last().push(prev.last().push(s.last()))
        }
    }
}

/// What one line of robots.txt does to the scan: the new value of "this
/// section applies to us", and the Crawl-delay value the line offers, if any.
///
/// A blank line or a comment changes nothing; `User-agent:` opens a section
/// that applies when its agent is `*` or this crawler's name (ASCII case
/// ignored); `Crawl-delay:` inside such a section offers its trimmed value.
pub open spec fn scan_line(in_section: bool, line: Seq<char>) -> (bool, Option<Seq<char>>) {
    let t = trim(line);
    if t.len() == 0 || t[0] == '#' {
        (in_section, None)
    } else if has_prefix(t, "User-agent:"@) {
        let agent = trim(t.skip("User-agent:"@.len() as int));
        (agent == "*"@ || eq_ignore_ascii_case(agent, USER_AGENT@), None)
    } else if in_section && has_prefix(t, "Crawl-delay:"@) {
        (in_section, Some(trim(t.skip("Crawl-delay:"@.len() as int))))
    } else {
        (in_section, None)
    }
}

/// The scan over `lines` from the start of the file: whether the last section
/// applies to us, and the Crawl-delay values offered so far, in order.
pub open spec fn scan_lines(lines: Seq<Seq<char>>) -> (bool, Seq<Seq<char>>)
    decreases lines.len(),
{
    if lines.len() == 0 {
        (false, Seq::empty())
    } else {
        let (st, vals) = scan_lines(lines.drop_last());
        let (st2, v) = scan_line(st, lines.last());
        (
            st2,
            match v {
                Some(x) => vals.push(x),
                None => vals,
            },
        )
    }
}

/// The Crawl-delay values that a robots.txt body offers this crawler, in the
/// order of the file.
pub open spec fn crawl_delay_values(body: Seq<char>) -> Seq<Seq<char>> {
    scan_lines(split_lines(body)).1
}

/// Whether `robots_body` lets `user_agent` fetch `url`, as the robotstxt
/// crate's longest-match matcher decides.
pub uninterp spec fn robots_allow(robots_body: Seq<char>, user_agent: Seq<char>, url: Seq<char>) -> bool;

/// The bytes that `c` takes in UTF-8.
pub open spec fn utf8_len(c: char) -> int {
    let u = c as u32;
    if u < 0x80 {
        1
    } else if u < 0x800 {
        2
    } else if u < 0x10000 {
        3
    } else {
        4
    }
}

/// The robotstxt parser keeps at most this many bytes of a line; it skips
/// the rest of the line, counting characters where it means bytes.
pub open spec fn robots_line_limit() -> int {
    16663
}

/// Whether the robotstxt parser reads `s` without miscounting, given that
/// `run` bytes of the current line are already kept: every character it
/// skips, past the limit of a line (lines end at `\n` or `\r`), is ASCII.
pub open spec fn line_cut_exact(s: Seq<char>, run: int) -> bool
    decreases s.len(),
{
    if s.len() == 0 {
        true
    } else {
        let c = s[0];
        if c == '\n' || c == '\r' {
            line_cut_exact(s.drop_first(), 0)
        } else if run < robots_line_limit() {
            line_cut_exact(s.drop_first(), run + utf8_len(c))
        } else {
            (c as u32) < 0x80 && line_cut_exact(s.drop_first(), run)
        }
    }
}

/// Whether the robotstxt crate can read `body`. On a body where it skips a
/// non-ASCII character past a line's byte limit it cuts the text off its
/// character boundaries: it panics or reads shifted lines.
pub open spec fn robots_body_readable(body: Seq<char>) -> bool {
    line_cut_exact(body, 0)
}

fn utf8_len_of(c: char) -> (res: usize)
    ensures
        res == utf8_len(c),
{
    let u = c as u32;
    if u < 0x80 {
        1
    } else if u < 0x800 {
        2
    } else if u < 0x10000 {
        3
    } else {
        4
    }
}

/// Whether the robotstxt crate can read `body` (see [`robots_body_readable`]).
pub fn robots_body_is_readable(body: &str) -> (res: bool)
    ensures
        res == robots_body_readable(body@),
{
    let chars = to_chars(body);
    let mut run: usize = 0;
    let mut i: usize = 0;
    assert(chars@.skip(0) =~= chars@);
    while i < chars.len()
        invariant
            i <= chars@.len(),
            chars@ == body@,
            run <= 16663 + 4,
            robots_body_readable(body@) == line_cut_exact(chars@.skip(i as int), run as int),
        decreases chars.len() - i,
    {
        let c = chars[i];
        assert(chars@.skip(i as int).drop_first() =~= chars@.skip(i + 1));
        assert(chars@.skip(i as int)[0] == c);
        if c == '\n' || c == '\r' {
            run = 0;
        } else if run < 16663 {
            run = run + utf8_len_of(c);
        } else if (c as u32) >= 0x80 {
            return false;
        }
        i = i + 1;
    }
    true
}

/// Calls `RobotsMatcher::<LongestMatchRobotsMatchStrategy>::one_agent_allowed_by_robots`
/// on a fresh matcher. Its answer depends on the three texts alone; this
/// contract names it and claims nothing more of it. It is called only on
/// bodies that the crate's parser reads without cutting a character apart
/// (on others it can panic).
#[verifier::external_body]
pub(crate) fn one_agent_allowed_by_robots(robots_body: &str, user_agent: &str, url: &str) -> (allowed: bool)
    requires
        robots_body_readable(robots_body@),
    ensures
        allowed == robots_allow(robots_body@, user_agent@, url@),
{
    let mut matcher = RobotsMatcher::<LongestMatchRobotsMatchStrategy>::default();
    matcher.one_agent_allowed_by_robots(robots_body, user_agent, url)
}

fn process_line(
    line: &Vec<char>,
    in_section: bool,
    values: &mut Vec<String>,
    user_agent_key: &Vec<char>,
    crawl_delay_key: &Vec<char>,
    star: &Vec<char>,
    agent_name: &Vec<char>,
) -> (res: bool)
    requires
        user_agent_key@ == "User-agent:"@,
        crawl_delay_key@ == "Crawl-delay:"@,
        star@ == "*"@,
        agent_name@ == USER_AGENT@,
    ensures
        ({
            let (st, v) = scan_line(in_section, line@);
            &&& res == st
            &&& views(final(values)@) == match v {
                Some(x) => views(old(values)@).push(x),
                None => views(old(values)@),
            }
        }),
{
    let t = trim_chars(line.as_slice());
    if t.len() == 0 || t[0] == '#' {
        return in_section;
    }
    if starts_with(t.as_slice(), user_agent_key.as_slice()) {
        let rest = slice_chars(t.as_slice(), user_agent_key.len(), t.len());
        assert(rest@ == t@.skip("User-agent:"@.len() as int));
        let agent = trim_chars(rest.as_slice());
        return chars_eq(agent.as_slice(), star.as_slice()) || chars_eq_ignore_ascii_case(
            agent.as_slice(),
            agent_name.as_slice(),
        );
    }
    if in_section && starts_with(t.as_slice(), crawl_delay_key.as_slice()) {
        let rest = slice_chars(t.as_slice(), crawl_delay_key.len(), t.len());
        assert(rest@ == t@.skip("Crawl-delay:"@.len() as int));
        let value = trim_chars(rest.as_slice());
        let s = chars_to_string(value.as_slice());
        values.push(s);
        assert(views(values@) =~= views(old(values)@).push(value@));
    }
    in_section
}

/// Text that `str::trim` leaves as it is: not empty, no white space at
/// either end.
pub open spec fn is_trimmed_word(v: Seq<char>) -> bool {
    v.len() > 0 && !is_space(v[0]) && !is_space(v.last())
}

proof fn lemma_trim_of_trimmed(v: Seq<char>)
    requires
        is_trimmed_word(v),
    ensures
        trim(v) == v,
{
    assert(trim_start(v) == v);
    assert(trim_end(v) == v);
}

proof fn lemma_trim_after_space(v: Seq<char>)
    requires
        is_trimmed_word(v),
    ensures
        trim(seq![' '] + v) == v,
{
    let w = seq![' '] + v;
    assert(w.drop_first() =~= v);
    assert(is_space(w[0]));
    assert(trim_start(w) == trim_start(v));
    lemma_trim_of_trimmed(v);
}

proof fn lemma_split_lines_len(s: Seq<char>)
    ensures
        split_lines(s).len() >= 1,
    decreases s.len(),
{
    if s.len() > 0 {
        lemma_split_lines_len(s.drop_last());
    }
}

/// Text without a line feed extends the last line.
proof fn lemma_split_lines_extend(a: Seq<char>, b: Seq<char>)
    requires
        forall|i: int| 0 <= i < b.len() ==> b[i] != '\n',
    ensures
        split_lines(a + b) == split_lines(a).drop_last().push(split_lines(a).last() + b),
    decreases b.len(),
{
    lemma_split_lines_len(a);
    if b.len() == 0 {
        assert(a + b =~= a);
        assert(split_lines(a).last() + b =~= split_lines(a).last());
        assert(split_lines(a).drop_last().push(split_lines(a).last()) =~= split_lines(a));
    } else {
        let b0 = b.drop_last();
        lemma_split_lines_extend(a, b0);
        assert((a + b).drop_last() =~= a + b0);
        assert((a + b).last() == b.last());
        let prev = split_lines(a + b0);
        assert(prev.drop_last() =~= split_lines(a).drop_last());
        assert(prev.last() == split_lines(a).last() + b0);
        assert((split_lines(a).last() + b0).push(b.last()) =~= split_lines(a).last() + b);
    }
}

/// A line feed closes the last line and opens an empty one.
proof fn lemma_split_lines_newline(a: Seq<char>)
    ensures
        split_lines(a.push('\n')) == split_lines(a).push(Seq::empty()),
{
    assert(a.push('\n').drop_last() =~= a);
}

proof fn lemma_two_lines(l1: Seq<char>, l2: Seq<char>)
    requires
        forall|i: int| 0 <= i < l1.len() ==> l1[i] != '\n',
        forall|i: int| 0 <= i < l2.len() ==> l2[i] != '\n',
    ensures
        split_lines(l1 + seq!['\n'] + l2) == seq![l1, l2],
        split_lines(l1 + seq!['\n'] + l2 + seq!['\n']) == seq![l1, l2, Seq::<char>::empty()],
{
    let e = Seq::<char>::empty();
    lemma_split_lines_extend(e, l1);
    assert(e + l1 =~= l1);
    assert(split_lines(e) == seq![e]);
    assert(split_lines(l1) =~= seq![l1]) by {
        assert(seq![e].drop_last().push(e + l1) =~= seq![l1]);
    }
    lemma_split_lines_newline(l1);
    assert(l1.push('\n') =~= l1 + seq!['\n']);
    lemma_split_lines_extend(l1 + seq!['\n'], l2);
    assert(split_lines(l1 + seq!['\n']) =~= seq![l1, e]);
    assert(seq![l1, e].drop_last().push(e + l2) =~= seq![l1, l2]);
    assert(e + l2 =~= l2);
    lemma_split_lines_newline(l1 + seq!['\n'] + l2);
    assert((l1 + seq!['\n'] + l2).push('\n') =~= l1 + seq!['\n'] + l2 + seq!['\n']);
    assert(seq![l1, l2].push(e) =~= seq![l1, l2, e]);
}

/// A robots.txt of a section for all agents whose `Crawl-delay:` line is
/// the last line of the file gives its value, whether or not the file ends
/// with a line feed.
pub proof fn lemma_delay_of_last_line(v: Seq<char>)
    requires
        is_trimmed_word(v),
        forall|i: int| 0 <= i < v.len() ==> v[i] != '\n',
    ensures
        crawl_delay_values("User-agent: *\nCrawl-delay: "@ + v) == seq![v],
        crawl_delay_values("User-agent: *\nCrawl-delay: "@ + v + "\n"@) == seq![v],
{
    reveal_strlit("User-agent: *\nCrawl-delay: ");
    reveal_strlit("User-agent: *");
    reveal_strlit("Crawl-delay: ");
    reveal_strlit("User-agent:");
    reveal_strlit("Crawl-delay:");
    reveal_strlit("*");
    reveal_strlit("\n");
    let l1 = "User-agent: *"@;
    let l2 = "Crawl-delay: "@ + v;
    assert("User-agent: *\nCrawl-delay: "@ + v =~= l1 + seq!['\n'] + l2);
    assert("User-agent: *\nCrawl-delay: "@ + v + "\n"@ =~= l1 + seq!['\n'] + l2 + seq!['\n']);
    assert forall|i: int| 0 <= i < l2.len() implies l2[i] != '\n' by {
        if i >= 13 {
            assert(l2[i] == v[i - 13]);
        }
    }
    lemma_two_lines(l1, l2);
    // first line: a section for every agent
    assert(is_trimmed_word(l1));
    lemma_trim_of_trimmed(l1);
    assert(l1.take(11) =~= "User-agent:"@);
    let rest1 = l1.skip(11);
    assert(rest1 =~= seq![' '] + "*"@);
    lemma_trim_after_space("*"@);
    assert(scan_line(false, l1) == (true, None::<Seq<char>>));
    // second line: its value
    assert(l2.last() == v.last());
    assert(is_trimmed_word(l2));
    lemma_trim_of_trimmed(l2);
    assert(l2[0] == 'C');
    assert(!has_prefix(l2, "User-agent:"@)) by {
        if has_prefix(l2, "User-agent:"@) {
            assert(l2.take(11)[0] == 'U');
        }
    }
    assert(l2.take(12) =~= "Crawl-delay:"@);
    assert(l2.skip(12) =~= seq![' '] + v);
    lemma_trim_after_space(v);
    assert(scan_line(true, l2) == (true, Some(v)));
    let e = Seq::<char>::empty();
    assert(scan_line(true, e) == (true, None::<Seq<char>>));
    assert(seq![l1, l2].drop_last() =~= seq![l1]);
    assert(seq![l1].drop_last() =~= Seq::<Seq<char>>::empty());
    assert(seq![l1, l2, e].drop_last() =~= seq![l1, l2]);
    assert(scan_lines(Seq::<Seq<char>>::empty()) == (false, Seq::<Seq<char>>::empty()));
    assert(seq![l1].last() == l1);
    assert(scan_lines(seq![l1]) == (true, Seq::<Seq<char>>::empty()));
    assert(scan_lines(seq![l1, l2]) == (true, seq![v])) by {
        assert(Seq::<Seq<char>>::empty().push(v) =~= seq![v]);
    }
    assert(scan_lines(seq![l1, l2, e]) == (true, seq![v]));
}

/// Appending, after whole lines, a section for all agents whose last line
/// is `Crawl-delay: v` (with no line feed after it) adds `v` to the values
/// the file offers, after those it offered before.
pub proof fn lemma_appended_section_adds_delay(b: Seq<char>, v: Seq<char>)
    requires
        b.len() == 0 || b.last() == '\n',
        is_trimmed_word(v),
        forall|i: int| 0 <= i < v.len() ==> v[i] != '\n',
    ensures
        crawl_delay_values(b + "User-agent: *\nCrawl-delay: "@ + v) == crawl_delay_values(b).push(v),
{
    reveal_strlit("User-agent: *\nCrawl-delay: ");
    reveal_strlit("User-agent: *");
    reveal_strlit("Crawl-delay: ");
    reveal_strlit("User-agent:");
    reveal_strlit("Crawl-delay:");
    reveal_strlit("*");
    let e = Seq::<char>::empty();
    let l1 = "User-agent: *"@;
    let l2 = "Crawl-delay: "@ + v;
    assert(b + "User-agent: *\nCrawl-delay: "@ + v =~= b + l1 + seq!['\n'] + l2);
    assert forall|i: int| 0 <= i < l2.len() implies l2[i] != '\n' by {
        if i >= 13 {
            assert(l2[i] == v[i - 13]);
        }
    }
    // the lines of b end with an empty one
    lemma_split_lines_len(b);
    let lines_b = split_lines(b);
    assert(lines_b.last() == e) by {
        if b.len() > 0 {
            lemma_split_lines_newline(b.drop_last());
            assert(b.drop_last().push('\n') =~= b);
        }
    }
    let a = lines_b.drop_last();
    assert(lines_b =~= a.push(e));
    lemma_split_lines_extend(b, l1);
    assert(split_lines(b + l1) =~= a.push(l1)) by {
        assert(e + l1 =~= l1);
    }
    lemma_split_lines_newline(b + l1);
    assert((b + l1).push('\n') =~= b + l1 + seq!['\n']);
    lemma_split_lines_extend(b + l1 + seq!['\n'], l2);
    let lines = split_lines(b + l1 + seq!['\n'] + l2);
    assert(lines =~= a.push(l1).push(l2)) by {
        assert(a.push(l1).push(e).drop_last() =~= a.push(l1));
        assert(e + l2 =~= l2);
    }
    // the scan: the empty line of b changes nothing, l1 opens our section, l2 gives v
    assert(a.push(e).drop_last() =~= a);
    assert(scan_line(scan_lines(a).0, e) == (scan_lines(a).0, None::<Seq<char>>));
    assert(scan_lines(a.push(e)).1 == scan_lines(a).1);
    lemma_trim_of_trimmed(l1);
    assert(l1.take(11) =~= "User-agent:"@);
    assert(l1.skip(11) =~= seq![' '] + "*"@);
    lemma_trim_after_space("*"@);
    assert(scan_line(scan_lines(a).0, l1) == (true, None::<Seq<char>>));
    assert(a.push(l1).drop_last() =~= a);
    assert(scan_lines(a.push(l1)) == (true, scan_lines(a).1));
    assert(l2.last() == v.last());
    lemma_trim_of_trimmed(l2);
    assert(l2[0] == 'C');
    assert(!has_prefix(l2, "User-agent:"@)) by {
        if has_prefix(l2, "User-agent:"@) {
            assert(l2.take(11)[0] == 'U');
        }
    }
    assert(l2.take(12) =~= "Crawl-delay:"@);
    assert(l2.skip(12) =~= seq![' '] + v);
    lemma_trim_after_space(v);
    assert(scan_line(true, l2) == (true, Some(v)));
    assert(a.push(l1).push(l2).drop_last() =~= a.push(l1));
}

/// Appending, after whole lines, a section for agent `a` whose last line is
/// `Crawl-delay: v` adds `v` to the values the file offers exactly when the
/// section is for all agents (`*`) or for this crawler, its name compared
/// without ASCII case; a section for another agent adds nothing.
pub proof fn lemma_appended_agent_section(b: Seq<char>, a: Seq<char>, v: Seq<char>)
    requires
        b.len() == 0 || b.last() == '\n',
        is_trimmed_word(a),
        forall|i: int| 0 <= i < a.len() ==> a[i] != '\n',
        is_trimmed_word(v),
        forall|i: int| 0 <= i < v.len() ==> v[i] != '\n',
    ensures
        crawl_delay_values(b + "User-agent: "@ + a + "\n"@ + "Crawl-delay: "@ + v) == (if a == "*"@
            || eq_ignore_ascii_case(a, USER_AGENT@) {
            crawl_delay_values(b).push(v)
        } else {
            crawl_delay_values(b)
        }),
{
    reveal_strlit("User-agent: ");
    reveal_strlit("Crawl-delay: ");
    reveal_strlit("User-agent:");
    reveal_strlit("Crawl-delay:");
    reveal_strlit("\n");
    let e = Seq::<char>::empty();
    let l1 = "User-agent: "@ + a;
    let l2 = "Crawl-delay: "@ + v;
    assert(b + "User-agent: "@ + a + "\n"@ + "Crawl-delay: "@ + v =~= b + l1 + seq!['\n'] + l2);
    assert forall|i: int| 0 <= i < l1.len() implies l1[i] != '\n' by {
        if i >= 12 {
            assert(l1[i] == a[i - 12]);
        }
    }
    assert forall|i: int| 0 <= i < l2.len() implies l2[i] != '\n' by {
        if i >= 13 {
            assert(l2[i] == v[i - 13]);
        }
    }
    lemma_split_lines_len(b);
    let lines_b = split_lines(b);
    assert(lines_b.last() == e) by {
        if b.len() > 0 {
            lemma_split_lines_newline(b.drop_last());
            assert(b.drop_last().push('\n') =~= b);
        }
    }
    let pre = lines_b.drop_last();
    assert(lines_b =~= pre.push(e));
    lemma_split_lines_extend(b, l1);
    assert(split_lines(b + l1) =~= pre.push(l1)) by {
        assert(e + l1 =~= l1);
    }
    lemma_split_lines_newline(b + l1);
    assert((b + l1).push('\n') =~= b + l1 + seq!['\n']);
    lemma_split_lines_extend(b + l1 + seq!['\n'], l2);
    let lines = split_lines(b + l1 + seq!['\n'] + l2);
    assert(lines =~= pre.push(l1).push(l2)) by {
        assert(pre.push(l1).push(e).drop_last() =~= pre.push(l1));
        assert(e + l2 =~= l2);
    }
    assert(pre.push(e).drop_last() =~= pre);
    assert(scan_line(scan_lines(pre).0, e) == (scan_lines(pre).0, None::<Seq<char>>));
    assert(scan_lines(pre.push(e)).1 == scan_lines(pre).1);
    let st = a == "*"@ || eq_ignore_ascii_case(a, USER_AGENT@);
    assert(l1.last() == a.last());
    assert(l1[0] == 'U');
    lemma_trim_of_trimmed(l1);
    assert(l1.take(11) =~= "User-agent:"@);
    assert(l1.skip(11) =~= seq![' '] + a);
    lemma_trim_after_space(a);
    assert(scan_line(scan_lines(pre).0, l1) == (st, None::<Seq<char>>));
    assert(pre.push(l1).drop_last() =~= pre);
    assert(scan_lines(pre.push(l1)) == (st, scan_lines(pre).1));
    assert(l2.last() == v.last());
    lemma_trim_of_trimmed(l2);
    assert(l2[0] == 'C');
    assert(!has_prefix(l2, "User-agent:"@)) by {
        if has_prefix(l2, "User-agent:"@) {
            assert(l2.take(11)[0] == 'U');
        }
    }
    assert(l2.take(12) =~= "Crawl-delay:"@);
    assert(l2.skip(12) =~= seq![' '] + v);
    lemma_trim_after_space(v);
    assert(scan_line(st, l2) == (st, if st { Some(v) } else { None::<Seq<char>> }));
    assert(pre.push(l1).push(l2).drop_last() =~= pre.push(l1));
}

/// A `Crawl-delay:` line before any `User-agent:` line offers nothing.
pub proof fn lemma_delay_outside_section(v: Seq<char>)
    requires
        is_trimmed_word(v),
        forall|i: int| 0 <= i < v.len() ==> v[i] != '\n',
    ensures
        crawl_delay_values("Crawl-delay: "@ + v).len() == 0,
{
    reveal_strlit("Crawl-delay: ");
    reveal_strlit("User-agent:");
    reveal_strlit("Crawl-delay:");
    let e = Seq::<char>::empty();
    let l2 = "Crawl-delay: "@ + v;
    assert forall|i: int| 0 <= i < l2.len() implies l2[i] != '\n' by {
        if i >= 13 {
            assert(l2[i] == v[i - 13]);
        }
    }
    lemma_split_lines_extend(e, l2);
    assert(e + l2 =~= l2);
    assert(split_lines(l2) =~= seq![l2]) by {
        assert(split_lines(e) == seq![e]);
        assert(seq![e].drop_last().push(e + l2) =~= seq![l2]);
    }
    assert(l2.last() == v.last());
    lemma_trim_of_trimmed(l2);
    assert(!has_prefix(l2, "User-agent:"@)) by {
        if has_prefix(l2, "User-agent:"@) {
            assert(l2.take(11)[0] == 'U');
        }
    }
    assert(seq![l2].drop_last() =~= Seq::<Seq<char>>::empty());
    assert(seq![l2].last() == l2);
    assert(scan_lines(Seq::<Seq<char>>::empty()) == (false, Seq::<Seq<char>>::empty()));
}

/// A comment line, or a blank one, appended after whole lines offers
/// nothing new.
pub proof fn lemma_comment_line_offers_nothing(b: Seq<char>, c: Seq<char>)
    requires
        b.len() == 0 || b.last() == '\n',
        forall|i: int| 0 <= i < c.len() ==> c[i] != '\n',
        trim(c).len() == 0 || trim(c)[0] == '#',
    ensures
        crawl_delay_values(b + c) == crawl_delay_values(b),
{
    let e = Seq::<char>::empty();
    lemma_split_lines_len(b);
    let lines_b = split_lines(b);
    assert(lines_b.last() == e) by {
        if b.len() > 0 {
            lemma_split_lines_newline(b.drop_last());
            assert(b.drop_last().push('\n') =~= b);
        }
    }
    let pre = lines_b.drop_last();
    assert(lines_b =~= pre.push(e));
    lemma_split_lines_extend(b, c);
    assert(split_lines(b + c) =~= pre.push(c)) by {
        assert(e + c =~= c);
    }
    assert(pre.push(e).drop_last() =~= pre);
    assert(pre.push(c).drop_last() =~= pre);
    assert(trim(e) =~= e);
}

/// The Crawl-delay values that `robots_body` offers this crawler, trimmed, in
/// the order of the file: each from a `Crawl-delay:` line inside a section
/// whose `User-agent:` is `*` or `muse-crawler` (ASCII case ignored), lines
/// trimmed and comments skipped.
///
/// The crawl delay is the first of them that reads as a number of seconds.
pub fn parse_crawl_delay(robots_body: &str) -> (res: Vec<String>)
    ensures
        views(res@) == crawl_delay_values(robots_body@),
{
    let user_agent_key = to_chars("User-agent:");
    let crawl_delay_key = to_chars("Crawl-delay:");
    let star = to_chars("*");
    let agent_name = to_chars(USER_AGENT);
    let body = to_chars(robots_body);
    let mut values: Vec<String> = Vec::new();
    let mut in_section = false;
    let mut done: Ghost<Seq<Seq<char>>> = Ghost(Seq::empty());
    let mut line: Vec<char> = Vec::new();
    let mut i: usize = 0;
    assert(body@.take(0) =~= Seq::<char>::empty());
    while i < body.len()
        invariant
            i <= body@.len(),
            body@ == robots_body@,
            user_agent_key@ == "User-agent:"@,
            crawl_delay_key@ == "Crawl-delay:"@,
            star@ == "*"@,
            agent_name@ == USER_AGENT@,
            split_lines(body@.take(i as int)) == done@.push(line@),
            scan_lines(done@) == (in_section, views(values@)),
        decreases body.len() - i,
    {
        let c = body[i];
        let ghost prefix = body@.take(i as int);
        assert(body@.take(i + 1).drop_last() =~= prefix);
        if c == '\n' {
            in_section = process_line(
                &line,
                in_section,
                &mut values,
                &user_agent_key,
                &crawl_delay_key,
                &star,
                &agent_name,
            );
            proof {
                let d = done@.push(line@);
                assert(d.drop_last() =~= done@);
                done@ = d;
            }
            line = Vec::new();
        } else {
            line.push(c);
        }
        i = i + 1;
    }
    assert(body@.take(body@.len() as int) =~= body@);
    in_section = process_line(
        &line,
        in_section,
        &mut values,
        &user_agent_key,
        &crawl_delay_key,
        &star,
        &agent_name,
    );
    proof {
        let d = done@.push(line@);
        assert(d.drop_last() =~= done@);
    }
    values
}

} // verus!
