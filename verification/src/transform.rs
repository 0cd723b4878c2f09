//! The field transform for the event date: encoding prefixes a fixed
//! marker, decoding replaces every occurrence of one token by another.
//! The two are deliberately not inverse.

use vstd::prelude::*;

use vstd::string::StrSliceExecFns;
use vstd::string::StringExecFns;

use crate::text::chars_to_string;
use crate::text::string_to_chars;

verus! {

/// The text with every occurrence of `pat` replaced by `rep`, scanning
/// left to right and never rescanning replaced text.
pub open spec fn replace_all(s: Seq<char>, pat: Seq<char>, rep: Seq<char>) -> Seq<char>
    decreases s.len(),
{
    if pat.len() == 0 || s.len() < pat.len() {
        s
    } else if s.subrange(0, pat.len() as int) == pat {
        rep + replace_all(s.skip(pat.len() as int), pat, rep)
    } else {
        seq![s[0]] + replace_all(s.skip(1), pat, rep)
    }
}

/// Whether `pat` occurs in `s` at position `i`.
fn match_at(s: &Vec<char>, i: usize, pat: &str) -> (r: bool)
    requires
        i <= s.len(),
    ensures
        r == (i + pat@.len() <= s@.len() && s@.subrange(i as int, i + pat@.len()) == pat@),
{
    let pl = pat.unicode_len();
    if s.len() - i < pl {
        return false;
    }
    let mut k: usize = 0;
    while k < pl
        invariant
            k <= pl,
            pl == pat@.len(),
            i + pl <= s.len(),
            forall|x: int| 0 <= x < k ==> s@[i + x] == pat@[x],
        decreases pl - k,
    {
        if s[i + k] != pat.get_char(k) {
            assert(s@.subrange(i as int, i + pat@.len()) != pat@) by {
                assert(s@.subrange(i as int, i + pat@.len())[k as int] == s@[i + k]);
            }
            return false;
        }
        k = k + 1;
    }
    assert(s@.subrange(i as int, i + pat@.len()) =~= pat@);
    true
}

/// Replaces every occurrence of `pat` in `s` by `rep`.
pub fn replace_all_x(s: &Vec<char>, pat: &str, rep: &str) -> (out: Vec<char>)
    requires
        pat@.len() > 0,
    ensures
        out@ == replace_all(s@, pat@, rep@),
{
    let pl = pat.unicode_len();
    let rl = rep.unicode_len();
    let mut out: Vec<char> = Vec::new();
    let mut i: usize = 0;
    proof {
        assert(s@.skip(0) =~= s@);
        assert(out@ + replace_all(s@, pat@, rep@) =~= replace_all(s@, pat@, rep@));
    }
    while i < s.len()
        invariant
            i <= s.len(),
            pl == pat@.len(),
            rl == rep@.len(),
            pat@.len() > 0,
            replace_all(s@, pat@, rep@) == out@ + replace_all(s@.skip(i as int), pat@, rep@),
        decreases s.len() - i,
    {
        if match_at(s, i, pat) {
            let ghost out0 = out@;
            let mut k: usize = 0;
            while k < rl
                invariant
                    k <= rl,
                    rl == rep@.len(),
                    out@ == out0 + rep@.subrange(0, k as int),
                decreases rl - k,
            {
                out.push(rep.get_char(k));
                assert(out@ =~= out0 + rep@.subrange(0, k + 1 as int));
                k = k + 1;
            }
            assert(rep@.subrange(0, rep@.len() as int) =~= rep@);
            proof {
                let rem = s@.skip(i as int);
                assert(rem.subrange(0, pat@.len() as int) =~= s@.subrange(
                    i as int,
                    i + pat@.len(),
                ));
                assert(rem.skip(pat@.len() as int) =~= s@.skip(i + pat@.len()));
            }
            i = i + pl;
        } else {
            out.push(s[i]);
            proof {
                let rem = s@.skip(i as int);
                if rem.len() >= pat@.len() {
                    assert(rem.subrange(0, pat@.len() as int) =~= s@.subrange(
                        i as int,
                        i + pat@.len(),
                    ));
                }
                assert(rem[0] == s@[i as int]);
                assert(rem.skip(1) =~= s@.skip(i + 1));
            }
            i = i + 1;
        }
    }
    proof {
        assert(s@.skip(i as int).len() == 0);
        assert(replace_all(s@.skip(i as int), pat@, rep@) =~= s@.skip(i as int));
        assert(out@ =~= replace_all(s@, pat@, rep@));
    }
    out
}

/// Encodes the date field: the marker text, then the raw date verbatim.
pub fn encode_date(date: &str) -> (out: String)
    ensures
        out@ == "This is date: "@ + date@,
{
    let mut out = String::from_str("This is date: ");
    out.append(date);
    out
}

/// Decodes the date field: every occurrence of `"date"` in the wire text
/// becomes `"event date"`; the transform never fails and strips no marker.
pub fn decode_date(wire: &str) -> (out: String)
    ensures
        out@ == replace_all(wire@, "date"@, "event date"@),
{
    let chars = string_to_chars(wire);
    proof {
        reveal_strlit("date");
    }
    let replaced = replace_all_x(&chars, "date", "event date");
    chars_to_string(&replaced)
}

} // verus!
