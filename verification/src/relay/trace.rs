//! Relay forward traces: CSV rows `timestamp,cell_count,event_type`, after a
//! header row and `#` comment lines. Here, which text of a line holds its
//! timestamp.
use vstd::prelude::*;

use crate::text::{str_eq, str_trim, trimmed};

verus! {

/// Position of the first comma of `t`, or its length when it has none.
pub open spec fn first_comma(t: Seq<char>) -> int {
    if exists|i: int| 0 <= i < t.len() && t[i] == ',' {
        choose|i: int| 0 <= i < t.len() && t[i] == ',' && forall|j: int| 0 <= j < i ==> t[j] != ','
    } else {
        t.len() as int
    }
}

/// The timestamp text of one trace line: the trimmed line up to its first comma.
/// Blank lines, `#` comments and the header row have none.
pub open spec fn spec_trace_field(line: Seq<char>) -> Option<Seq<char>> {
    let t = trimmed(line);
    if t.len() == 0 || t[0] == '#' || (t.len() >= 10 && t.subrange(0, 10) == "timestamp,"@) {
        None
    } else {
        Some(t.subrange(0, first_comma(t)))
    }
}

/// The timestamp text of one trace line (see `spec_trace_field`).
pub fn trace_timestamp_field(line: &str) -> (r: Option<&str>)
    ensures
        match r {
            Some(f) => spec_trace_field(line@) == Some(f@),
            None => spec_trace_field(line@) is None,
        },
{
    let t = str_trim(line);
    let n = t.unicode_len();
    if n == 0 {
        return None;
    }
    if t.get_char(0) == '#' {
        return None;
    }
    if n >= 10 && str_eq(t.substring_char(0, 10), "timestamp,") {
        return None;
    }
    let mut i: usize = 0;
    let mut found = false;
    while i < n && !found
        invariant
            n == t@.len(),
            i <= n,
            found ==> i < n && t@[i as int] == ',',
            forall|j: int| 0 <= j < i ==> t@[j] != ',',
        decreases n - i + (if found { 0int } else { 1int }),
    {
        if t.get_char(i) == ',' {
            found = true;
        } else {
            i = i + 1;
        }
    }
    proof {
        let s = t@;
        if i < n {
            assert(s[i as int] == ',');
            let k = choose|k: int| 0 <= k < s.len() && s[k] == ',' && forall|j: int| 0 <= j < k ==> s[j] != ',';
            assert(0 <= i < s.len() && s[i as int] == ',' && forall|j: int| 0 <= j < i ==> s[j] != ',');
            if k < i {
                assert(s[k] != ',');
            } else if k > i {
                assert(s[i as int] != ',');
            }
            assert(first_comma(s) == i);
        } else {
            assert(!exists|k: int| 0 <= k < s.len() && s[k] == ',');
            assert(first_comma(s) == s.len());
        }
    }
    Some(t.substring_char(0, i))
}

} // verus!
