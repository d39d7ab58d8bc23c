//! Matching logic for the file finder and the line searcher: substring
//! search, case-insensitive when asked, with case folding named after the
//! standard library's.

use vstd::prelude::*;

use crate::strutil::{lower_of, str_eq, str_to_chars, to_lowercase_str};

verus! {

/// Whether `needle` occurs in `haystack` as a contiguous run.
pub open spec fn is_substring(haystack: Seq<char>, needle: Seq<char>) -> bool {
    exists|i: int|
        0 <= i <= haystack.len() - needle.len() && #[trigger] haystack.subrange(
            i,
            i + needle.len(),
        ) == needle
}

/// Whether `needle` occurs in `haystack`.
pub fn contains_str(haystack: &str, needle: &str) -> (r: bool)
    ensures
        r == is_substring(haystack@, needle@),
{
    let hv = str_to_chars(haystack);
    let nv = str_to_chars(needle);
    let h = hv.len();
    let m = nv.len();
    if m > h {
        proof {
            assert(!is_substring(haystack@, needle@));
        }
        return false;
    }
    let mut i: usize = 0;
    while i <= h - m
        invariant
            m <= h,
            h == haystack@.len(),
            m == needle@.len(),
            hv@ == haystack@,
            nv@ == needle@,
            i <= h - m + 1,
            forall|j: int|
                0 <= j < i ==> #[trigger] haystack@.subrange(j, j + needle@.len()) != needle@,
        decreases h - i,
    {
        let mut k: usize = 0;
        while k < m && hv[i + k] == nv[k]
            invariant
                k <= m,
                m == needle@.len(),
                h == haystack@.len(),
                hv@ == haystack@,
                nv@ == needle@,
                i + m <= h,
                forall|q: int| 0 <= q < k ==> haystack@[i + q] == needle@[q],
            decreases m - k,
        {
            k = k + 1;
        }
        if k == m {
            proof {
                assert(haystack@.subrange(i as int, i + needle@.len()) =~= needle@);
            }
            return true;
        }
        proof {
            assert(haystack@[i + k] != needle@[k as int]);
            if haystack@.subrange(i as int, i + needle@.len()) == needle@ {
                assert(haystack@.subrange(i as int, i + needle@.len())[k as int]
                    == needle@[k as int]);
                assert(false);
            }
        }
        i = i + 1;
    }
    false
}

/// Whether a file name matches the search: its lowercased name holds the
/// lowercased pattern, and, when an extension filter is given, its
/// extension folds to the same as the filter (a file without an extension
/// never matches a filter).
pub fn matches_criteria(
    file_name: &str,
    pattern: &str,
    file_ext: Option<&str>,
    ext_filter: Option<&str>,
) -> (r: bool)
    ensures
        r == ({
            &&& is_substring(lower_of(file_name@), lower_of(pattern@))
            &&& match ext_filter {
                None => true,
                Some(f) => match file_ext {
                    None => false,
                    Some(e) => lower_of(e@) == lower_of(f@),
                },
            }
        }),
{
    let lower_name = to_lowercase_str(file_name);
    let lower_pattern = to_lowercase_str(pattern);
    if !contains_str(lower_name.as_str(), lower_pattern.as_str()) {
        return false;
    }
    match ext_filter {
        None => true,
        Some(f) => match file_ext {
            None => false,
            Some(e) => {
                let le = to_lowercase_str(e);
                let lf = to_lowercase_str(f);
                str_eq(le.as_str(), lf.as_str())
            },
        },
    }
}

/// Whether a line matches the search pattern, folding case when asked.
pub fn line_matches(line: &str, pattern: &str, case_insensitive: bool) -> (r: bool)
    ensures
        case_insensitive ==> r == is_substring(lower_of(line@), lower_of(pattern@)),
        !case_insensitive ==> r == is_substring(line@, pattern@),
{
    if case_insensitive {
        let ll = to_lowercase_str(line);
        let lp = to_lowercase_str(pattern);
        contains_str(ll.as_str(), lp.as_str())
    } else {
        contains_str(line, pattern)
    }
}

} // verus!
