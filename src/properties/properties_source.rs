use crate::text::{trim, trimmed};
use vstd::prelude::*;

verus! {

/// The index of the first `=` in `s`.
pub open spec fn first_eq(s: Seq<char>) -> Option<int> {
    if exists|i: int| 0 <= i < s.len() && s[i] == '=' {
        Some(choose|i: int| 0 <= i < s.len() && s[i] == '=' && forall|j: int| 0 <= j < i ==> s[j] != '=')
    } else {
        None
    }
}

/// The key and value a line of a properties file defines: none for a blank
/// line, a comment (`#` or `!` first), or a line without `=`; else the text
/// around the first `=`, each side trimmed.
pub open spec fn property_of_line(line: Seq<char>) -> Option<(Seq<char>, Seq<char>)> {
    let t = trimmed(line);
    if t.len() == 0 || t[0] == '#' || t[0] == '!' {
        None
    } else {
        match first_eq(t) {
            None => None,
            Some(p) => Some((trimmed(t.take(p)), trimmed(t.skip(p + 1)))),
        }
    }
}

/// A properties file as a source of configuration.
#[derive(Debug, Clone)]
pub struct PropertiesSource {
    pub file_path: String,
}

impl PropertiesSource {
    pub fn new(file_path: &str) -> (r: PropertiesSource)
        ensures
            r.file_path@ == file_path@,
    {
        PropertiesSource { file_path: file_path.to_string() }
    }

    /// The key and value that `line` defines.
    pub fn parse_line(line: &str) -> (r: Option<(String, String)>)
        ensures
            match r {
                Some(kv) => property_of_line(line@) == Some((kv.0@, kv.1@)),
                None => property_of_line(line@) is None,
            },
    {
        let t = trim(line);
        let n = t.unicode_len();
        if n == 0 {
            return None;
        }
        let c0 = t.get_char(0);
        if c0 == '#' || c0 == '!' {
            return None;
        }
        let mut p: usize = 0;
        while p < n && t.get_char(p) != '='
            invariant
                p <= n,
                n == t@.len(),
                forall|j: int| 0 <= j < p ==> t@[j] != '=',
            decreases n - p,
        {
            p = p + 1;
        }
        if p == n {
            assert(!exists|i: int| 0 <= i < t@.len() && t@[i] == '=');
            return None;
        }
        proof {
            assert(t@[p as int] == '=');
            let q = first_eq(t@)->Some_0;
            assert(q == p as int) by {
                if q < p {
                } else if q > p {
                }
            }
        }
        let key = trim(t.substring_char(0, p));
        let value = trim(t.substring_char(p + 1, n));
        proof {
            assert(t@.subrange(0, p as int) =~= t@.take(p as int));
            assert(t@.subrange(p + 1, n as int) =~= t@.skip(p + 1));
        }
        Some((key.to_string(), value.to_string()))
    }
}

} // verus!
