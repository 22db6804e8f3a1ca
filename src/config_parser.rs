use vstd::prelude::*;
use crate::text::{before, occurs, second_piece, split_once, str_eq, find};

verus! {

/// The settings read from the configuration file.
pub struct Conf {
    pub ics_path: Option<String>,
}

/// Blank characters that are trimmed from keys and values: the Unicode `White_Space` set.
pub open spec fn is_blank(c: char) -> bool {
    ('\u{9}' <= c <= '\u{d}') || c == ' ' || c == '\u{85}' || c == '\u{a0}' || c == '\u{1680}'
        || ('\u{2000}' <= c <= '\u{200a}') || c == '\u{2028}' || c == '\u{2029}' || c == '\u{202f}'
        || c == '\u{205f}' || c == '\u{3000}'
}

pub open spec fn trim_start(s: Seq<char>) -> Seq<char>
    decreases s.len(),
{
    if s.len() > 0 && is_blank(s[0]) {
        trim_start(s.subrange(1, s.len() as int))
    } else {
        s
    }
}

pub open spec fn trim_end(s: Seq<char>) -> Seq<char>
    decreases s.len(),
{
    if s.len() > 0 && is_blank(s.last()) {
        trim_end(s.drop_last())
    } else {
        s
    }
}

/// `s` without its leading and trailing blanks.
pub open spec fn trim(s: Seq<char>) -> Seq<char> {
    trim_end(trim_start(s))
}

/// Whether a `key=value` line sets the calendar path.
pub open spec fn sets_path(line: Seq<char>) -> bool {
    occurs(line, seq!['=']) && trim(before(line, seq!['='])) == "path"@
}

/// The value of a `key=value` line: what stands between its first and second `=`, trimmed.
pub open spec fn line_value(line: Seq<char>) -> Seq<char> {
    trim(second_piece(line, seq!['=']))
}

/// The value of the first line that sets the calendar path, if any.
pub open spec fn config_path(lines: Seq<Seq<char>>) -> Option<Seq<char>>
    decreases lines.len(),
{
    if lines.len() == 0 {
        None
    } else if sets_path(lines[0]) {
        Some(line_value(lines[0]))
    } else {
        config_path(lines.subrange(1, lines.len() as int))
    }
}

fn is_blank_char(c: char) -> (r: bool)
    ensures
        r == is_blank(c),
{
    ('\u{9}' <= c && c <= '\u{d}') || c == ' ' || c == '\u{85}' || c == '\u{a0}' || c == '\u{1680}'
        || ('\u{2000}' <= c && c <= '\u{200a}') || c == '\u{2028}' || c == '\u{2029}'
        || c == '\u{202f}' || c == '\u{205f}' || c == '\u{3000}'
}

/// `s` without its leading and trailing blanks.
pub fn trim_blanks(s: &str) -> (r: &str)
    ensures
        r@ == trim(s@),
{
    let n = s.unicode_len();
    let mut i: usize = 0;
    assert(s@.subrange(0, n as int) =~= s@);
    while i < n && is_blank_char(s.get_char(i))
        invariant
            i <= n == s@.len(),
            trim_start(s@) == trim_start(s@.subrange(i as int, n as int)),
        decreases n - i,
    {
        assert(s@.subrange(i as int, n as int).subrange(1, n - i) =~= s@.subrange(i + 1, n as int));
        i = i + 1;
    }
    let mut j: usize = n;
    proof {
        assert(trim_start(s@.subrange(i as int, n as int)) == s@.subrange(i as int, n as int));
    }
    while j > i && is_blank_char(s.get_char(j - 1))
        invariant
            i <= j <= n == s@.len(),
            trim(s@) == trim_end(s@.subrange(i as int, j as int)),
        decreases j - i,
    {
        assert(s@.subrange(i as int, j as int).drop_last() =~= s@.subrange(i as int, j - 1));
        j = j - 1;
    }
    s.substring_char(i, j)
}

/// Reads the settings from the lines of a configuration file of `key=value` lines: the first
/// line whose key is `path` gives the calendar path. Other lines are ignored.
pub fn parse_config(lines: &Vec<String>) -> (r: Conf)
    ensures
        match r.ics_path {
            Some(p) => config_path(lines@.map_values(|l: String| l@)) == Some(p@),
            None => config_path(lines@.map_values(|l: String| l@)) is None,
        },
{
    let ghost all = lines@.map_values(|l: String| l@);
    proof {
        assert(all.subrange(0, all.len() as int) =~= all);
    }
    let mut i: usize = 0;
    while i < lines.len()
        invariant
            i <= lines@.len(),
            all == lines@.map_values(|l: String| l@),
            config_path(all) == config_path(all.subrange(i as int, all.len() as int)),
        decreases lines@.len() - i,
    {
        let line: &str = lines[i].as_str();
        proof {
            reveal_strlit("=");
            reveal_strlit("path");
            assert("="@ =~= seq!['=']);
            assert(all[i as int] == line@);
            assert(all.subrange(i as int, all.len() as int)[0] == line@);
            assert(all.subrange(i as int, all.len() as int).subrange(1, all.len() - i) =~= all.subrange(
                i + 1,
                all.len() as int,
            ));
        }
        if find(line, "=") < line.unicode_len() {
            let (key, rest) = split_once(line, "=");
            if str_eq(trim_blanks(key), "path") {
                let (value, _) = split_once(rest, "=");
                assert(sets_path(line@));
                return Conf { ics_path: Some(String::from_str(trim_blanks(value))) };
            }
        }
        assert(!sets_path(line@));
        i = i + 1;
    }
    Conf { ics_path: None }
}

} // verus!
