//! The project-navigation database's lookup rule. Each entry is one line
//! in the form `{name} {path}`; reading and rewriting the file around
//! this rule is the caller's affair.
use vstd::prelude::*;

use crate::text::spec_starts_with;
use crate::text::str_starts_with;

verus! {

/// The line opens a navigation entry for `name`: it starts with the name
/// followed by one space.
pub open spec fn nav_entry_matches(line: Seq<char>, name: Seq<char>) -> bool {
    spec_starts_with(line, name + " "@)
}

/// The position of the first line opening an entry for `name`.
pub open spec fn spec_entry_pos(lines: Seq<String>, name: Seq<char>) -> Option<int>
    decreases lines.len(),
{
    if lines.len() == 0 {
        None
    } else if nav_entry_matches(lines.first()@, name) {
        Some(0int)
    } else {
        match spec_entry_pos(lines.drop_first(), name) {
            Some(j) => Some(j + 1),
            None => None,
        }
    }
}

/// Finds the first line starting with `name` and a space, returning its
/// position and its text.
pub fn find_entry(name: &str, lines: &Vec<String>) -> (r: Option<(usize, String)>)
    ensures
        match spec_entry_pos(lines@, name@) {
            Some(i) => r matches Some(e) && e.0 as int == i && e.1 == lines@[i],
            None => r is None,
        },
{
    let mut prefix: String = name.to_owned();
    prefix.append(" ");
    let mut i: usize = 0;
    let n = lines.len();
    proof {
        assert(lines@.skip(0) =~= lines@);
    }
    while i < n
        invariant
            0 <= i <= lines@.len(),
            n == lines@.len(),
            prefix@ == name@ + " "@,
            spec_entry_pos(lines@, name@) == match spec_entry_pos(
                lines@.skip(i as int),
                name@,
            ) {
                Some(j) => Some(j + i),
                None => None::<int>,
            },
        decreases n - i,
    {
        proof {
            assert(lines@.skip(i as int).first() == lines@[i as int]);
            assert(lines@.skip(i as int).drop_first() =~= lines@.skip(i + 1));
        }
        if str_starts_with(lines[i].as_str(), prefix.as_str()) {
            proof {
                assert(spec_entry_pos(lines@, name@) == Some(i as int));
            }
            return Some((i, lines[i].clone()));
        }
        i += 1;
    }
    proof {
        assert(lines@.skip(lines@.len() as int) =~= Seq::<String>::empty());
    }
    None
}

} // verus!
