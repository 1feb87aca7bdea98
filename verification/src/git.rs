//! Reading what the version-control tool prints.

use vstd::prelude::*;
use crate::text::{from_chars, to_chars};

verus! {

/// A line without the carriage return at its end, if it has one.
pub open spec fn spec_strip_cr(line: Seq<char>) -> Seq<char> {
    if line.len() > 0 && line.last() == '\r' {
        line.drop_last()
    } else {
        line
    }
}

/// Whether the text ends inside a line.
pub open spec fn spec_in_line(s: Seq<char>) -> bool {
    s.len() > 0 && s.last() != '\n'
}

/// The lines of a text. A line ends with a line feed, or with a carriage
/// return and a line feed; neither belongs to the line. What follows the
/// last line feed is a line too, unless it is empty.
pub open spec fn spec_lines(s: Seq<char>) -> Seq<Seq<char>>
    decreases s.len(),
{
    if s.len() == 0 {
        Seq::empty()
    } else {
        let before = spec_lines(s.drop_last());
        if s.last() == '\n' {
            if spec_in_line(s.drop_last()) {
                before.drop_last().push(spec_strip_cr(before.last()))
            } else {
                before.push(Seq::empty())
            }
        } else if spec_in_line(s.drop_last()) {
            before.drop_last().push(before.last().push(s.last()))
        } else {
            before.push(seq![s.last()])
        }
    }
}

/// The lines that are complete at the end of the text, and the line that
/// is still open there.
pub open spec fn spec_open_line(s: Seq<char>) -> (Seq<Seq<char>>, Seq<char>) {
    if spec_in_line(s) {
        (spec_lines(s).drop_last(), spec_lines(s).last())
    } else {
        (spec_lines(s), Seq::empty())
    }
}

/// The two parts of a line around the first `c` in it, where it has one.
pub open spec fn spec_split_once(line: Seq<char>, c: char) -> Option<(Seq<char>, Seq<char>)> {
    match line.index_of_first(c) {
        Some(k) => Some((line.take(k), line.skip(k + 1))),
        None => None,
    }
}

/// The commits that the lines of a log name: each line with a `|` gives
/// the identifier before the first `|` and the message after it; a line
/// without `|` gives nothing.
pub open spec fn spec_commits(lines: Seq<Seq<char>>) -> Seq<(Seq<char>, Seq<char>)>
    decreases lines.len(),
{
    if lines.len() == 0 {
        Seq::empty()
    } else {
        match spec_split_once(lines.last(), '|') {
            Some(parts) => spec_commits(lines.drop_last()).push(parts),
            None => spec_commits(lines.drop_last()),
        }
    }
}

/// The contents of a list of commits.
pub open spec fn commits(log: Seq<(String, String)>) -> Seq<(Seq<char>, Seq<char>)> {
    log.map_values(|c: (String, String)| (c.0@, c.1@))
}

/// A text that ends inside a line has a last line.
pub proof fn lemma_lines_open(s: Seq<char>)
    requires
        spec_in_line(s),
    ensures
        spec_lines(s).len() > 0,
    decreases s.len(),
{
    if spec_in_line(s.drop_last()) {
        lemma_lines_open(s.drop_last());
    }
}

/// The lines of a text.
pub fn lines(s: &str) -> (out: Vec<String>)
    ensures
        out@.map_values(|l: String| l@) == spec_lines(s@),
{
    let chars = to_chars(s);
    let mut out: Vec<String> = Vec::new();
    let mut line: Vec<char> = Vec::new();
    let mut in_line: bool = false;
    let mut i: usize = 0;
    assert(chars@.take(0) =~= Seq::<char>::empty());
    assert(out@.map_values(|l: String| l@) =~= Seq::<Seq<char>>::empty());
    while i < chars.len()
        invariant
            0 <= i <= chars.len(),
            chars@ == s@,
            in_line == spec_in_line(chars@.take(i as int)),
            (out@.map_values(|l: String| l@), line@) == spec_open_line(chars@.take(i as int)),
        decreases chars.len() - i,
    {
        let ghost done = chars@.take(i as int);
        let ghost next = chars@.take(i + 1);
        let ghost list = out@.map_values(|l: String| l@);
        let ghost open = line@;
        proof {
            assert(next.drop_last() =~= done);
            assert(next.last() == chars@[i as int]);
            if in_line {
                lemma_lines_open(done);
                assert(spec_lines(done) =~= list.push(open));
            }
        }
        let c = chars[i];
        if c == '\n' {
            if in_line {
                let n = line.len();
                if n > 0 && line[n - 1] == '\r' {
                    line.pop();
                    assert(line@ =~= spec_strip_cr(open));
                }
            }
            out.push(from_chars(&line));
            assert(out@.map_values(|l: String| l@) =~= list.push(line@));
            line = Vec::new();
            in_line = false;
            assert(spec_lines(next) =~= out@.map_values(|l: String| l@));
        } else {
            line.push(c);
            in_line = true;
            proof {
                lemma_lines_open(next);
                assert(spec_lines(next).drop_last() =~= list);
                if !spec_in_line(done) {
                    assert(line@ =~= seq![c]);
                }
            }
        }
        i += 1;
    }
    assert(chars@.take(chars@.len() as int) =~= chars@);
    let ghost list = out@.map_values(|l: String| l@);
    if in_line {
        proof {
            lemma_lines_open(chars@);
        }
        out.push(from_chars(&line));
        assert(out@.map_values(|l: String| l@) =~= list.push(line@));
        assert(spec_lines(chars@) =~= list.push(line@));
    }
    out
}

/// The two parts of a line around the first `c` in it, where it has one.
pub fn split_once(line: &str, c: char) -> (parts: Option<(String, String)>)
    ensures
        match parts {
            Some(p) => spec_split_once(line@, c) == Some((p.0@, p.1@)),
            None => spec_split_once(line@, c).is_none(),
        },
{
    let chars = to_chars(line);
    let mut k: usize = 0;
    while k < chars.len()
        invariant
            0 <= k <= chars.len(),
            chars@ == line@,
            forall|j: int| 0 <= j < k ==> chars@[j] != c,
        decreases chars.len() - k,
    {
        if chars[k] == c {
            proof {
                chars@.index_of_first_ensures(c);
            }
            let mut head: Vec<char> = Vec::new();
            let mut tail: Vec<char> = Vec::new();
            let mut i: usize = 0;
            while i < k
                invariant
                    0 <= i <= k < chars.len(),
                    head@ == chars@.take(i as int),
                decreases k - i,
            {
                head.push(chars[i]);
                assert(head@ =~= chars@.take(i + 1));
                i += 1;
            }
            let mut j: usize = k + 1;
            assert(tail@ =~= chars@.subrange(k + 1, j as int));
            while j < chars.len()
                invariant
                    k < j <= chars.len(),
                    tail@ == chars@.subrange(k + 1, j as int),
                decreases chars.len() - j,
            {
                tail.push(chars[j]);
                assert(tail@ =~= chars@.subrange(k + 1, j + 1));
                j += 1;
            }
            assert(tail@ =~= chars@.skip(k + 1));
            return Some((from_chars(&head), from_chars(&tail)));
        }
        k += 1;
    }
    proof {
        chars@.index_of_first_ensures(c);
    }
    None
}

/// The commits of a log, newest first: one for each line that holds an
/// identifier, a `|` and a message.
pub fn parse_log(output: &str) -> (log: Vec<(String, String)>)
    ensures
        commits(log@) == spec_commits(spec_lines(output@)),
{
    let all = lines(output);
    let ghost texts = all@.map_values(|l: String| l@);
    let mut log: Vec<(String, String)> = Vec::new();
    let mut i: usize = 0;
    assert(commits(log@) =~= spec_commits(texts.take(0)));
    while i < all.len()
        invariant
            0 <= i <= all.len(),
            texts == all@.map_values(|l: String| l@),
            commits(log@) == spec_commits(texts.take(i as int)),
        decreases all.len() - i,
    {
        let ghost before = log@;
        proof {
            assert(texts.take(i + 1).drop_last() =~= texts.take(i as int));
            assert(texts.take(i + 1).last() == all@[i as int]@);
        }
        match split_once(all[i].as_str(), '|') {
            Some(parts) => {
                log.push(parts);
                assert(commits(log@) =~= commits(before).push(
                    spec_split_once(all@[i as int]@, '|').unwrap(),
                ));
            },
            None => {},
        }
        i += 1;
    }
    assert(texts.take(texts.len() as int) =~= texts);
    log
}

} // verus!
