//! Format detection for the file converter: the target format is read from
//! the path's extension.  The conversion itself flows through dynamic
//! document values and lives with the caller.

use vstd::prelude::*;

use crate::strutil::{lower_of, str_eq, str_to_chars, to_lowercase_str};

verus! {

/// The formats the converter knows.
#[derive(Clone, Copy, Debug, PartialEq, Eq, Structural)]
pub enum Format {
    Json,
    Yaml,
    Csv,
}

/// The index just after the last `/`, or zero.
pub open spec fn after_last_slash(s: Seq<char>) -> int
    decreases s.len(),
{
    if s.len() == 0 {
        0
    } else if s.last() == '/' {
        s.len() as int
    } else {
        after_last_slash(s.drop_last())
    }
}

/// The index of the last `.` of the final path component, or the length if
/// there is none.
pub open spec fn last_dot(s: Seq<char>) -> int
    decreases s.len(),
{
    if s.len() == 0 {
        0
    } else if s.last() == '.' {
        (s.len() - 1) as int
    } else if s.last() == '/' {
        s.len() as int
    } else {
        last_dot(s.drop_last())
    }
}

/// The path's extension: what follows the last dot of the file name, unless
/// the dot starts the name or there is none.
pub open spec fn ext_of(s: Seq<char>) -> Seq<char> {
    let start = after_last_slash(s);
    let d = last_dot(s);
    if d >= s.len() || d <= start {
        Seq::empty()
    } else {
        s.skip(d + 1)
    }
}

impl Format {
    /// Reads the format a path's extension names; an unknown or missing
    /// extension is an error naming the path.
    pub fn detect_format(path: &str) -> (r: Result<Format, String>)
        ensures
            ({
                let e = lower_of(ext_of(path@));
                match r {
                    Ok(Format::Json) => e == "json"@,
                    Ok(Format::Yaml) => e == "yaml"@ || e == "yml"@,
                    Ok(Format::Csv) => e == "csv"@,
                    Err(m) => {
                        &&& e != "json"@ && e != "yaml"@ && e != "yml"@ && e != "csv"@
                        &&& m@ == "Extension non support\u{e9}e ou inconnue pour : "@ + path@
                    },
                }
            }),
    {
        let v = str_to_chars(path);
        let n = v.len();
        // find the start of the file name
        let mut start = n;
        while start > 0 && v[start - 1] != '/'
            invariant
                start <= n,
                n == v@.len(),
                forall|j: int| start <= j < n ==> v@[j] != '/',
            decreases start,
        {
            start = start - 1;
        }
        proof {
            lemma_after_last_slash_at(v@, start as int);
        }
        // find the last dot of the file name
        let mut d = n;
        let mut k = n;
        while k > start
            invariant
                start <= k <= n,
                n == v@.len(),
                d == n || (k <= d < n && v@[d as int] == '.'),
                forall|j: int| k <= j < n && v@[j] == '.' ==> d != n && j <= d,
            decreases k,
        {
            k = k - 1;
            if v[k] == '.' && d == n {
                d = k;
            }
        }
        proof {
            lemma_last_dot_at(v@, start as int, d as int);
        }
        let ext = if d >= n || d <= start {
            String::from_str("")
        } else {
            String::from_str(path.substring_char(d + 1, n))
        };
        proof {
            reveal_strlit("");
            assert(ext@ =~= ext_of(path@));
        }
        let lowered = to_lowercase_str(ext.as_str());
        if str_eq(lowered.as_str(), "json") {
            Ok(Format::Json)
        } else if str_eq(lowered.as_str(), "yaml") || str_eq(lowered.as_str(), "yml") {
            Ok(Format::Yaml)
        } else if str_eq(lowered.as_str(), "csv") {
            Ok(Format::Csv)
        } else {
            let mut m = String::from_str("Extension non support\u{e9}e ou inconnue pour : ");
            m.append(path);
            Err(m)
        }
    }
}

proof fn lemma_after_last_slash_at(s: Seq<char>, a: int)
    requires
        0 <= a <= s.len(),
        forall|j: int| a <= j < s.len() ==> s[j] != '/',
        a == 0 || s[a - 1] == '/',
    ensures
        after_last_slash(s) == a,
    decreases s.len(),
{
    if s.len() == 0 {
    } else if s.last() == '/' {
        assert(a == s.len());
    } else {
        assert(a < s.len());
        lemma_after_last_slash_at(s.drop_last(), a);
    }
}

proof fn lemma_last_dot_at(s: Seq<char>, start: int, d: int)
    requires
        0 <= start <= s.len(),
        forall|j: int| start <= j < s.len() ==> s[j] != '/',
        start == 0 || s[start - 1] == '/',
        d == s.len() || (start <= d < s.len() && s[d] == '.'),
        forall|j: int| d < j < s.len() ==> s[j] != '.',
        d == s.len() ==> forall|j: int| start <= j < s.len() ==> s[j] != '.',
    ensures
        d < s.len() ==> last_dot(s) == d,
        d == s.len() ==> last_dot(s) == start,
    decreases s.len(),
{
    if s.len() == 0 {
    } else if s.last() == '.' {
        assert(s[s.len() - 1] == '.');
        if d == s.len() {
            if start < s.len() {
                assert(s[s.len() - 1] != '.');
                assert(false);
            } else {
                assert(s[start - 1] == '/');
                assert(false);
            }
        }
        assert(d == s.len() - 1);
    } else if s.last() == '/' {
        assert(start == s.len());
        assert(d == s.len());
    } else {
        if start == s.len() {
            assert(s[start - 1] == '/');
            assert(false);
        }
        let d2: int = if d == s.len() {
            s.len() - 1
        } else {
            d
        };
        assert(s[s.len() - 1] != '.');
        lemma_last_dot_at(s.drop_last(), start, d2);
    }
}

} // verus!
