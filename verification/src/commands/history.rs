//! Extracting commands from shell history text: parsing one history line,
//! and collecting the most recent distinct entries.

use vstd::prelude::*;
use vstd::string::StrSliceExecFns;
use crate::text::is_digit;

verus! {

/// What one history line denotes: a zsh extended-history line yields the
/// text after its first semicolon; a bare bash timestamp line (`#` and
/// digits only) yields nothing; anything else yields itself.
pub open spec fn spec_parse_history_line(s: Seq<char>) -> Option<Seq<char>> {
    if zsh_extended_prefix(s) && (exists|i: int| 2 <= i < s.len() && s[i] == ';') {
        let i = first_semi(s, 2);
        Some(s.subrange(i + 1, s.len() as int))
    } else if s.len() >= 1 && s[0] == '#' && (forall|i: int|
        1 <= i < s.len() ==> is_digit(#[trigger] s[i])) {
        None
    } else {
        Some(s)
    }
}

/// A zsh extended-history line starts with a colon and a space.
pub open spec fn zsh_extended_prefix(s: Seq<char>) -> bool {
    s.len() >= 2 && s[0] == ':' && s[1] == ' '
}

/// The index of the first semicolon at or after `i`.
pub open spec fn first_semi(s: Seq<char>, i: int) -> int
    decreases s.len() - i,
{
    if i < 0 || i >= s.len() {
        i
    } else if s[i] == ';' {
        i
    } else {
        first_semi(s, i + 1)
    }
}

/// Extracts the command from one history line, or `None` for a line that
/// carries no command.
pub fn parse_history_line(line: &str) -> (r: Option<String>)
    ensures
        match r {
            Some(cmd) => spec_parse_history_line(line@) == Some(cmd@),
            None => spec_parse_history_line(line@) is None,
        },
{
    let v = crate::text::str_to_chars(line);
    let n = v.len();
    if n >= 2 && v[0] == ':' && v[1] == ' ' {
        let mut i: usize = 2;
        while i < n
            invariant
                v@ == line@,
                n == line@.len(),
                zsh_extended_prefix(line@),
                2 <= i <= n,
                forall|q: int| 2 <= q < i ==> line@[q] != ';',
                first_semi(line@, 2) == first_semi(line@, i as int),
            decreases n - i,
        {
            if v[i] == ';' {
                let mut rest: Vec<char> = Vec::new();
                let mut j: usize = i + 1;
                while j < n
                    invariant
                        v@ == line@,
                        n == line@.len(),
                        zsh_extended_prefix(line@),
                        i + 1 <= j <= n,
                        i < n,
                        line@[i as int] == ';',
                        forall|q: int| 2 <= q < i ==> line@[q] != ';',
                        first_semi(line@, 2) == first_semi(line@, i as int),
                        rest@ == line@.subrange(i + 1, j as int),
                    decreases n - j,
                {
                    rest.push(v[j]);
                    proof {
                        assert(rest@ =~= line@.subrange(i + 1, j + 1));
                    }
                    j = j + 1;
                }
                proof {
                    assert(exists|q: int| 2 <= q < line@.len() && line@[q] == ';') by {
                        assert(line@[i as int] == ';');
                    }
                    assert(first_semi(line@, i as int) == i as int);
                    assert(first_semi(line@, 2) == i as int);
                    assert(rest@ =~= line@.subrange(i + 1, line@.len() as int));
                    assert(rest@ =~= line@.subrange(first_semi(line@, 2) + 1, line@.len() as int));
                }
                return Some(crate::text::chars_to_string(&rest));
            }
            i = i + 1;
        }
        proof {
            if exists|q: int| 2 <= q < line@.len() && line@[q] == ';' {
                let q = choose|q: int| 2 <= q < line@.len() && line@[q] == ';';
                assert(line@[q] != ';');
            }
        }
        return Some(line.to_owned());
    }
    if n >= 1 && v[0] == '#' {
        let mut i: usize = 1;
        let mut all_digits = true;
        while i < n
            invariant
                v@ == line@,
                n == line@.len(),
                1 <= i <= n,
                all_digits == (forall|q: int| 1 <= q < i ==> is_digit(#[trigger] line@[q])),
            decreases n - i,
        {
            if !crate::text::digit_check(v[i]) {
                all_digits = false;
            }
            i = i + 1;
        }
        if all_digits {
            return None;
        }
    }
    Some(line.to_owned())
}

} // verus!
