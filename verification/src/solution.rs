//! The solution decoder: turns the solver's line-oriented output into
//! name/value pairs. Each line of the form `letting <name> be <value>`
//! yields one pair, with surrounding blanks stripped; every other line is
//! ignored. The pair named `tag` selects the active constructor (1-based, in
//! declaration order) for validation.

use crate::strings::str_eq;
use vstd::prelude::*;

verus! {

/// Whether a character is horizontal blank space (or a carriage return left
/// over from a foreign line ending).
pub open spec fn is_space(c: char) -> bool {
    c == ' ' || c == '\t' || c == '\r'
}

/// The sequence with its leading blank characters removed.
pub open spec fn spec_trim_start(s: Seq<char>) -> Seq<char>
    decreases s.len(),
{
    if s.len() > 0 && is_space(s[0]) {
        spec_trim_start(s.subrange(1, s.len() as int))
    } else {
        s
    }
}

/// The sequence with its trailing blank characters removed.
pub open spec fn spec_trim_end(s: Seq<char>) -> Seq<char>
    decreases s.len(),
{
    if s.len() > 0 && is_space(s.last()) {
        spec_trim_end(s.drop_last())
    } else {
        s
    }
}

/// The sequence with leading and trailing blank characters removed.
pub open spec fn spec_trim(s: Seq<char>) -> Seq<char> {
    spec_trim_end(spec_trim_start(s))
}

/// The position of the first newline, or the length when there is none.
pub open spec fn spec_find_newline(s: Seq<char>) -> int
    decreases s.len(),
{
    if s.len() == 0 {
        0
    } else if s[0] == '\n' {
        0
    } else {
        1 + spec_find_newline(s.subrange(1, s.len() as int))
    }
}

/// The position of the first occurrence of `pat`, if any.
pub open spec fn spec_find_sub(s: Seq<char>, pat: Seq<char>) -> Option<int>
    decreases s.len(),
{
    if pat.len() == 0 {
        Some(0)
    } else if s.len() < pat.len() {
        None
    } else if s.subrange(0, pat.len() as int) == pat {
        Some(0)
    } else {
        match spec_find_sub(s.subrange(1, s.len() as int), pat) {
            Some(k) => Some(k + 1),
            None => None,
        }
    }
}

/// The name/value pair denoted by one solution line: the line must open with
/// `letting ` and hold the separator ` be `; the name is the trimmed text
/// between them and the value the trimmed text after the first separator.
pub open spec fn spec_letting(line: Seq<char>) -> Option<(Seq<char>, Seq<char>)> {
    if line.len() >= 8 && line.subrange(0, 8) == "letting "@ {
        let rest = line.subrange(8, line.len() as int);
        match spec_find_sub(rest, " be "@) {
            None => None,
            Some(i) => Some(
                (
                    spec_trim(rest.subrange(0, i)),
                    spec_trim(rest.subrange(i + 4, rest.len() as int)),
                ),
            ),
        }
    } else {
        None
    }
}

/// The name/value pairs denoted by a whole solution text, line by line.
pub open spec fn spec_solution_pairs(s: Seq<char>) -> Seq<(Seq<char>, Seq<char>)>
    decreases s.len(),
{
    if s.len() == 0 {
        Seq::empty()
    } else {
        let i = spec_find_newline(s);
        let head: Seq<(Seq<char>, Seq<char>)> = match spec_letting(s.subrange(0, i)) {
            Some(p) => seq![p],
            None => Seq::empty(),
        };
        if 0 <= i < s.len() {
            head + spec_solution_pairs(s.subrange(i + 1, s.len() as int))
        } else {
            head
        }
    }
}

/// The mathematical values of a decoded assignment list.
pub open spec fn pairs_view(ps: Seq<(String, String)>) -> Seq<(Seq<char>, Seq<char>)> {
    ps.map_values(|p: (String, String)| (p.0@, p.1@))
}

fn trim_start(s: &str) -> (r: &str)
    ensures
        r@ == spec_trim_start(s@),
    decreases s@.len(),
{
    let n = s.unicode_len();
    if n > 0 {
        let c = s.get_char(0);
        if c == ' ' || c == '\t' || c == '\r' {
            return trim_start(s.substring_char(1, n));
        }
    }
    s
}

fn trim_end(s: &str) -> (r: &str)
    ensures
        r@ == spec_trim_end(s@),
    decreases s@.len(),
{
    let n = s.unicode_len();
    if n > 0 {
        let c = s.get_char(n - 1);
        if c == ' ' || c == '\t' || c == '\r' {
            return trim_end(s.substring_char(0, n - 1));
        }
    }
    s
}

fn trim(s: &str) -> (r: String)
    ensures
        r@ == spec_trim(s@),
{
    String::from_str(trim_end(trim_start(s)))
}

fn find_newline(s: &str) -> (r: usize)
    ensures
        r == spec_find_newline(s@),
        r <= s@.len(),
    decreases s@.len(),
{
    let n = s.unicode_len();
    if n == 0 {
        return 0;
    }
    if s.get_char(0) == '\n' {
        return 0;
    }
    1 + find_newline(s.substring_char(1, n))
}

fn find_sub(s: &str, pat: &str) -> (r: Option<usize>)
    ensures
        match r {
            Some(k) => k + pat@.len() <= s@.len() && spec_find_sub(s@, pat@) == Some(k as int),
            None => spec_find_sub(s@, pat@) is None,
        },
    decreases s@.len(),
{
    let n = s.unicode_len();
    let m = pat.unicode_len();
    if m == 0 {
        return Some(0);
    }
    if n < m {
        return None;
    }
    if str_eq(s.substring_char(0, m), pat) {
        return Some(0);
    }
    match find_sub(s.substring_char(1, n), pat) {
        Some(k) => Some(k + 1),
        None => None,
    }
}

/// Decode one solution line, if it is a `letting <name> be <value>` statement.
fn letting_line(line: &str) -> (r: Option<(String, String)>)
    ensures
        match r {
            Some(p) => spec_letting(line@) == Some((p.0@, p.1@)),
            None => spec_letting(line@) is None,
        },
{
    let n = line.unicode_len();
    if n < 8 {
        return None;
    }
    if !str_eq(line.substring_char(0, 8), "letting ") {
        return None;
    }
    proof {
        reveal_strlit(" be ");
    }
    let rest = line.substring_char(8, n);
    match find_sub(rest, " be ") {
        None => None,
        Some(i) => {
            let name = trim(rest.substring_char(0, i));
            let rn = rest.unicode_len();
            let value = trim(rest.substring_char(i + 4, rn));
            Some((name, value))
        },
    }
}

/// Decode the solver's solution text: each `letting <name> be <value>` line
/// yields one name/value pair, in line order; every other line is ignored.
pub fn parse_essence_output(solution: &str, _verbose: bool) -> (r: Vec<(String, String)>)
    ensures
        pairs_view(r@) == spec_solution_pairs(solution@),
{
    let mut cur: String = solution.to_owned();
    let mut out: Vec<(String, String)> = Vec::new();
    proof {
        assert(pairs_view(out@) =~= Seq::<(Seq<char>, Seq<char>)>::empty());
        assert(pairs_view(out@) + spec_solution_pairs(cur@) =~= spec_solution_pairs(solution@));
    }
    while cur.as_str().unicode_len() > 0
        invariant
            pairs_view(out@) + spec_solution_pairs(cur@) =~= spec_solution_pairs(solution@),
        decreases cur@.len(),
    {
        let n = cur.as_str().unicode_len();
        let i = find_newline(cur.as_str());
        let ghost pre = pairs_view(out@);
        let ghost cv = cur@;
        match letting_line(cur.as_str().substring_char(0, i)) {
            Some(p) => {
                out.push(p);
                proof {
                    assert(pairs_view(out@) =~= pre + seq![(p.0@, p.1@)]);
                }
            },
            None => {},
        }
        let next: String = if i < n {
            String::from_str(cur.as_str().substring_char(i + 1, n))
        } else {
            String::new()
        };
        cur = next;
        proof {
            if spec_find_newline(cv) < cv.len() {
                assert(spec_solution_pairs(cv) == (match spec_letting(
                    cv.subrange(0, spec_find_newline(cv)),
                ) {
                    Some(p) => seq![p],
                    None => Seq::<(Seq<char>, Seq<char>)>::empty(),
                }) + spec_solution_pairs(cur@));
            }
            assert(pairs_view(out@) + spec_solution_pairs(cur@) =~= spec_solution_pairs(
                solution@,
            ));
        }
    }
    proof {
        assert(spec_solution_pairs(cur@) =~= Seq::<(Seq<char>, Seq<char>)>::empty());
        assert(pairs_view(out@) =~= spec_solution_pairs(solution@));
    }
    out
}

} // verus!
