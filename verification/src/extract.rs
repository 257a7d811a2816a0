//! Codehash extraction: locate the deployed-image digest inside a manifest
//! text. The tokenizer is explicit about its failure cases: a missing
//! `image:` marker, a missing `@sha256:` marker, and a candidate that is not
//! a 64-character lowercase hex string all deny.

use vstd::prelude::*;
use vstd::string::StrSliceExecFns;
use crate::Error;
use crate::hexcode::{is_hex_digit, is_hex_seq, hex_digit_val};

verus! {

/// `pat` occurs in `s` starting at position `i`.
pub open spec fn match_at(s: Seq<char>, pat: Seq<char>, i: int) -> bool {
    0 <= i && i + pat.len() <= s.len() && s.subrange(i, i + pat.len()) == pat
}

/// Position of the first occurrence of `pat` in `s` at or after `from`.
pub open spec fn spec_find(s: Seq<char>, pat: Seq<char>, from: int) -> Option<int>
    decreases s.len() - from + 1,
{
    if from < 0 || from + pat.len() > s.len() {
        None
    } else if match_at(s, pat, from) {
        Some(from)
    } else {
        spec_find(s, pat, from + 1)
    }
}

proof fn lemma_find_step(s: Seq<char>, pat: Seq<char>, i: int)
    requires
        0 <= i,
        !match_at(s, pat, i),
    ensures
        spec_find(s, pat, i) == spec_find(s, pat, i + 1),
{
    if i + pat.len() > s.len() {
        assert(spec_find(s, pat, i) is None);
        assert(spec_find(s, pat, i + 1) is None);
    }
}

/// Whether `pat` occurs in `s` at position `i`.
fn is_match_at(s: &str, pat: &str, i: usize) -> (r: bool)
    requires
        i + pat@.len() <= s@.len(),
        s@.len() <= usize::MAX,
    ensures
        r == match_at(s@, pat@, i as int),
{
    let m = pat.unicode_len();
    let mut j: usize = 0;
    while j < m
        invariant
            j <= m,
            m == pat@.len(),
            i + m <= s@.len() <= usize::MAX,
            forall|k: int| 0 <= k < j ==> s@[i + k] == #[trigger] pat@[k],
        decreases m - j,
    {
        if s.get_char(i + j) != pat.get_char(j) {
            proof {
                assert(s@.subrange(i as int, i + pat@.len())[j as int] == s@[i + j]);
            }
            return false;
        }
        j = j + 1;
    }
    proof {
        assert(s@.subrange(i as int, i + pat@.len()) =~= pat@);
    }
    true
}

/// First occurrence of `pat` in `s` at or after `from`.
pub fn find_sub(s: &str, pat: &str, from: usize) -> (r: Option<usize>)
    ensures
        match r {
            Some(i) => from <= i && spec_find(s@, pat@, from as int) == Some(i as int)
                && match_at(s@, pat@, i as int),
            None => spec_find(s@, pat@, from as int) is None,
        },
{
    let n = s.unicode_len();
    let m = pat.unicode_len();
    if m > n || from > n - m {
        return None;
    }
    if m == 0 {
        proof {
            assert(s@.subrange(from as int, from as int) =~= pat@);
        }
        return Some(from);
    }
    let mut i: usize = from;
    while i <= n - m
        invariant
            from <= i,
            1 <= m <= n,
            i <= n - m + 1,
            n == s@.len(),
            m == pat@.len(),
            spec_find(s@, pat@, from as int) == spec_find(s@, pat@, i as int),
        decreases n - i,
    {
        if is_match_at(s, pat, i) {
            return Some(i);
        }
        proof {
            lemma_find_step(s@, pat@, i as int);
        }
        i = i + 1;
    }
    None
}

/// A codehash: exactly 64 lowercase hexadecimal characters.
pub open spec fn is_codehash(s: Seq<char>) -> bool {
    s.len() == 64 && is_hex_seq(s)
}

/// The codehash denoted by a manifest text: on the first line holding
/// `image:`, the remainder of the line after `@sha256:`, provided that
/// remainder is a well-formed codehash.
pub open spec fn spec_extract_codehash(app: Seq<char>) -> Option<Seq<char>> {
    match spec_find(app, "image:"@, 0) {
        None => None,
        Some(i) => {
            let rest_start = i + "image:"@.len();
            let rest_end = match spec_find(app, "\n"@, rest_start) {
                Some(e) => e,
                None => app.len() as int,
            };
            let line = app.subrange(rest_start, rest_end);
            match spec_find(line, "@sha256:"@, 0) {
                None => None,
                Some(j) => {
                    let cand = line.subrange(j + "@sha256:"@.len(), line.len() as int);
                    if is_codehash(cand) {
                        Some(cand)
                    } else {
                        None
                    }
                },
            }
        },
    }
}

/// Check a string against the codehash shape.
pub fn check_codehash(s: &str) -> (r: bool)
    ensures
        r == is_codehash(s@),
{
    let n = s.unicode_len();
    if n != 64 {
        return false;
    }
    let mut k: usize = 0;
    while k < 64
        invariant
            k <= 64,
            s@.len() == 64,
            forall|t: int| 0 <= t < k ==> is_hex_digit(#[trigger] s@[t]),
        decreases 64 - k,
    {
        if hex_digit_val(s.get_char(k)).is_none() {
            return false;
        }
        k = k + 1;
    }
    true
}

/// Extract the deployed-image codehash from the manifest text.
pub fn extract_codehash(app_compose: &str) -> (r: Result<String, Error>)
    ensures
        match r {
            Ok(c) => spec_extract_codehash(app_compose@) == Some(c@),
            Err(e) => e == Error::ManifestParseError && spec_extract_codehash(app_compose@) is None,
        },
{
    proof {
        reveal_strlit("image:");
        reveal_strlit("\n");
        reveal_strlit("@sha256:");
    }
    let n = app_compose.unicode_len();
    let i = match find_sub(app_compose, "image:", 0) {
        Some(i) => i,
        None => {
            return Err(Error::ManifestParseError);
        },
    };
    let rest_start = i + 6;
    let rest_end = match find_sub(app_compose, "\n", rest_start) {
        Some(e) => e,
        None => n,
    };
    let line = app_compose.substring_char(rest_start, rest_end);
    let j = match find_sub(line, "@sha256:", 0) {
        Some(j) => j,
        None => {
            return Err(Error::ManifestParseError);
        },
    };
    let cand_start = j + 8;
    let line_len = rest_end - rest_start;
    let cand = line.substring_char(cand_start, line_len);
    if check_codehash(cand) {
        Ok(cand.to_owned())
    } else {
        Err(Error::ManifestParseError)
    }
}

} // verus!
