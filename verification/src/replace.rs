//! Literal replacement: counting non-overlapping occurrences, locating the
//! first one, replacing them all, and the lemmas about single replacements
//! and round trips.

use vstd::prelude::*;
use vstd::string::StrSliceExecFns;
use vstd::string::StringExecFns;
use crate::strings::push_char;

verus! {

/// `pat` occurs in `text` at position `i`.
pub open spec fn match_at(text: Seq<char>, pat: Seq<char>, i: int) -> bool {
    0 <= i && i + pat.len() <= text.len() && text.subrange(i, i + pat.len() as int) == pat
}

/// How many times `pat` occurs in `text`, counting non-overlapping
/// occurrences from the left.  The empty pattern matches at every position
/// including the end, giving `text.len() + 1`.
pub open spec fn occ_count(text: Seq<char>, pat: Seq<char>) -> nat
    decreases text.len(),
{
    if pat.len() == 0 {
        text.len() + 1
    } else if text.len() < pat.len() {
        0
    } else if pat.is_prefix_of(text) {
        1 + occ_count(text.skip(pat.len() as int), pat)
    } else {
        occ_count(text.drop_first(), pat)
    }
}

/// The position of the leftmost occurrence of `pat` in `text`; meaningful
/// only when one exists.
pub open spec fn first_occ(text: Seq<char>, pat: Seq<char>) -> int
    decreases text.len(),
{
    if pat.len() == 0 {
        0
    } else if text.len() < pat.len() {
        0
    } else if pat.is_prefix_of(text) {
        0
    } else {
        1 + first_occ(text.drop_first(), pat)
    }
}

/// What replacing the empty pattern produces: `rep` before every character
/// and after the last.
pub open spec fn interleave(text: Seq<char>, rep: Seq<char>) -> Seq<char>
    decreases text.len(),
{
    if text.len() == 0 {
        rep
    } else {
        rep + seq![text[0]] + interleave(text.drop_first(), rep)
    }
}

/// `text` with every non-overlapping occurrence of `pat` (leftmost first)
/// replaced by `rep`.
pub open spec fn replace_all(text: Seq<char>, pat: Seq<char>, rep: Seq<char>) -> Seq<char>
    decreases text.len(),
{
    if pat.len() == 0 {
        interleave(text, rep)
    } else if text.len() < pat.len() {
        text
    } else if pat.is_prefix_of(text) {
        rep + replace_all(text.skip(pat.len() as int), pat, rep)
    } else {
        seq![text[0]] + replace_all(text.drop_first(), pat, rep)
    }
}

/// A pattern that occurs nowhere leaves the text unchanged.
pub proof fn lemma_replace_no_match(text: Seq<char>, pat: Seq<char>, rep: Seq<char>)
    requires
        pat.len() > 0,
        occ_count(text, pat) == 0,
    ensures
        replace_all(text, pat, rep) == text,
    decreases text.len(),
{
    if text.len() < pat.len() {
    } else {
        assert(!pat.is_prefix_of(text));
        lemma_replace_no_match(text.drop_first(), pat, rep);
        assert(seq![text[0]] + text.drop_first() =~= text);
    }
}

/// When `pat` occurs at all, `first_occ` names a real occurrence.
pub proof fn lemma_first_occ_valid(text: Seq<char>, pat: Seq<char>)
    requires
        pat.len() > 0,
        occ_count(text, pat) > 0,
    ensures
        0 <= first_occ(text, pat),
        first_occ(text, pat) + pat.len() <= text.len(),
        match_at(text, pat, first_occ(text, pat)),
    decreases text.len(),
{
    if text.len() < pat.len() {
        // impossible: occ_count would be zero
    } else if pat.is_prefix_of(text) {
        assert(text.subrange(0, pat.len() as int) =~= pat);
    } else {
        lemma_first_occ_valid(text.drop_first(), pat);
        let p = first_occ(text.drop_first(), pat);
        assert(text.subrange(1 + p, 1 + p + pat.len() as int) =~= text.drop_first().subrange(
            p,
            p + pat.len() as int,
        ));
    }
}

/// The shape of a single replacement: with exactly one occurrence, at
/// position `p`, the result is the text with `rep` spliced in for `pat`.
pub proof fn lemma_replace_single(text: Seq<char>, pat: Seq<char>, rep: Seq<char>)
    requires
        pat.len() > 0,
        occ_count(text, pat) == 1,
    ensures
        replace_all(text, pat, rep) == text.take(first_occ(text, pat)) + rep + text.skip(
            first_occ(text, pat) + pat.len(),
        ),
    decreases text.len(),
{
    if text.len() < pat.len() {
        // impossible: occ_count would be zero
    } else if pat.is_prefix_of(text) {
        assert(occ_count(text.skip(pat.len() as int), pat) == 0);
        lemma_replace_no_match(text.skip(pat.len() as int), pat, rep);
        assert(text.take(0) =~= Seq::<char>::empty());
        assert(replace_all(text, pat, rep) =~= text.take(0) + rep + text.skip(
            pat.len() as int,
        ));
    } else {
        lemma_first_occ_valid(text.drop_first(), pat);
        lemma_replace_single(text.drop_first(), pat, rep);
        let p = first_occ(text.drop_first(), pat);
        assert(seq![text[0]] + text.drop_first().take(p) =~= text.take(p + 1));
        assert(text.drop_first().skip(p + pat.len()) =~= text.skip(p + 1 + pat.len()));
        assert(replace_all(text, pat, rep) =~= text.take(p + 1) + rep + text.skip(
            p + 1 + pat.len(),
        ));
    }
}

/// Replacing the unique occurrence of `old` by `new` and then the unique
/// occurrence of `new` by `old` restores the text, provided the occurrence
/// of `new` in the result is unique and sits where the replacement put it.
pub proof fn lemma_replace_round_trip(text: Seq<char>, old: Seq<char>, new: Seq<char>)
    requires
        old.len() > 0,
        new.len() > 0,
        occ_count(text, old) == 1,
        occ_count(replace_all(text, old, new), new) == 1,
        first_occ(replace_all(text, old, new), new) == first_occ(text, old),
    ensures
        replace_all(replace_all(text, old, new), new, old) == text,
{
    let p = first_occ(text, old);
    let r = replace_all(text, old, new);
    lemma_first_occ_valid(text, old);
    lemma_replace_single(text, old, new);
    lemma_replace_single(r, new, old);
    assert(r.take(p) =~= text.take(p));
    assert(r.skip(p + new.len()) =~= text.skip(p + old.len()));
    assert(text.subrange(p, p + old.len() as int) == old);
    assert(text.take(p) + old + text.skip(p + old.len()) =~= text);
}

proof fn lemma_single_prefix(s: Seq<char>, c: char)
    ensures
        seq![c].is_prefix_of(s) == (s.len() >= 1 && s[0] == c),
{
    if s.len() >= 1 {
        if s[0] == c {
            assert(seq![c] =~= s.subrange(0, 1));
            assert(seq![c].is_prefix_of(s));
        } else {
            if seq![c].is_prefix_of(s) {
                assert(s.subrange(0, 1)[0] == s[0]);
                assert(seq![c][0] == c);
                assert(false);
            }
        }
    } else {
        assert(!seq![c].is_prefix_of(s));
    }
}

proof fn lemma_occ_zero_iff_absent(s: Seq<char>, c: char)
    ensures
        (occ_count(s, seq![c]) == 0) == !s.contains(c),
    decreases s.len(),
{
    lemma_single_prefix(s, c);
    if s.len() == 0 {
        assert(!s.contains(c));
    } else {
        lemma_occ_zero_iff_absent(s.drop_first(), c);
        if s[0] == c {
            assert(s.contains(c));
        } else {
            assert(s.contains(c) == s.drop_first().contains(c)) by {
                if s.contains(c) {
                    let i = choose|i: int| 0 <= i < s.len() && s[i] == c;
                    assert(s.drop_first()[i - 1] == c);
                }
                if s.drop_first().contains(c) {
                    let i = choose|i: int| 0 <= i < s.drop_first().len() && s.drop_first()[i] == c;
                    assert(s[i + 1] == c);
                }
            }
        }
    }
}

proof fn lemma_first_occ_single_split(s: Seq<char>, c: char)
    requires
        occ_count(s, seq![c]) > 0,
    ensures
        !s.take(first_occ(s, seq![c])).contains(c),
        occ_count(s.skip(first_occ(s, seq![c]) + 1), seq![c]) == occ_count(s, seq![c]) - 1,
    decreases s.len(),
{
    lemma_single_prefix(s, c);
    let pat = seq![c];
    if s[0] == c {
        assert(s.take(0) =~= Seq::<char>::empty());
        assert(s.skip(1) =~= s.skip(pat.len() as int));
    } else {
        assert(occ_count(s, pat) == occ_count(s.drop_first(), pat));
        lemma_first_occ_valid(s.drop_first(), pat);
        lemma_first_occ_single_split(s.drop_first(), c);
        let q = first_occ(s.drop_first(), pat);
        assert(first_occ(s, pat) == 1 + q);
        assert(1 + q <= s.len());
        let head = s.take(1 + q);
        assert forall|i: int| 0 <= i < head.len() implies head[i] != c by {
            assert(head[i] == s[i]);
            if i > 0 {
                assert(s[i] == s.drop_first()[i - 1]);
                assert(s.drop_first().take(q)[i - 1] == s.drop_first()[i - 1]);
                if s.drop_first()[i - 1] == c {
                    assert(s.drop_first().take(q).contains(c));
                }
            }
        }
        assert(!head.contains(c)) by {
            if head.contains(c) {
                let i = choose|i: int| 0 <= i < head.len() && head[i] == c;
                assert(head[i] != c);
            }
        }
        assert(s.skip(1 + q + 1) =~= s.drop_first().skip(q + 1));
        assert(occ_count(s, pat) == occ_count(s.drop_first(), pat));
    }
}

/// The occurrence count falls from one to zero when the target is a single
/// character that the replacement does not contain.  (With a longer target
/// this can fail: the replacement's edges can recreate the target across
/// the splice boundary.)
pub proof fn lemma_replace_single_char_removes(text: Seq<char>, c: char, new: Seq<char>)
    requires
        occ_count(text, seq![c]) == 1,
        !new.contains(c),
    ensures
        occ_count(replace_all(text, seq![c], new), seq![c]) == 0,
{
    let pat = seq![c];
    let p = first_occ(text, pat);
    lemma_first_occ_valid(text, pat);
    lemma_replace_single(text, pat, new);
    let r = replace_all(text, pat, new);
    lemma_first_occ_single_split(text, c);
    assert(occ_count(text.skip(p + 1), pat) == 0);
    lemma_occ_zero_iff_absent(text.skip(p + 1), c);
    assert(!r.contains(c)) by {
        assert forall|i: int| 0 <= i < r.len() implies r[i] != c by {
            if i < p {
                assert(r[i] == text.take(p)[i]);
                if text.take(p)[i] == c {
                    assert(text.take(p).contains(c));
                }
            } else if i < p + new.len() {
                assert(r[i] == new[i - p]);
                assert(new[i - p] != c);
            } else {
                assert(r[i] == text.skip(p + 1)[i - p - new.len()]);
                if text.skip(p + 1)[i - p - new.len()] == c {
                    assert(text.skip(p + 1).contains(c));
                }
            }
        }
        if r.contains(c) {
            let i = choose|i: int| 0 <= i < r.len() && r[i] == c;
            assert(r[i] != c);
        }
    }
    lemma_occ_zero_iff_absent(r, c);
}

fn match_at_exec(text: &str, pat: &str, i: usize) -> (r: bool)
    ensures
        r == match_at(text@, pat@, i as int),
{
    let tlen = text.unicode_len();
    let plen = pat.unicode_len();
    if i > tlen || plen > tlen - i {
        return false;
    }
    let mut j: usize = 0;
    while j < plen
        invariant
            j <= plen,
            i + plen <= tlen,
            tlen == text@.len(),
            plen == pat@.len(),
            forall|k: int| 0 <= k < j ==> text@[i + k] == pat@[k],
        decreases plen - j,
    {
        if text.get_char(i + j) != pat.get_char(j) {
            proof {
                assert(text@.subrange(i as int, i + plen)[j as int] == text@[i + j]);
            }
            return false;
        }
        j += 1;
    }
    proof {
        assert(text@.subrange(i as int, i + plen) =~= pat@);
    }
    true
}

proof fn lemma_match_at_skip(text: Seq<char>, pat: Seq<char>, i: int)
    requires
        0 <= i <= text.len(),
    ensures
        match_at(text, pat, i) == (text.skip(i).len() >= pat.len() && pat.is_prefix_of(
            text.skip(i),
        )),
{
    if i + pat.len() <= text.len() {
        assert(text.subrange(i, i + pat.len() as int) =~= text.skip(i).subrange(
            0,
            pat.len() as int,
        ));
    }
}

/// Counts the non-overlapping occurrences of `pat` in `text`.
pub fn count_occurrences(text: &str, pat: &str) -> (n: usize)
    requires
        text@.len() < usize::MAX,
    ensures
        n == occ_count(text@, pat@),
{
    let tlen = text.unicode_len();
    let plen = pat.unicode_len();
    if plen == 0 {
        return tlen + 1;
    }
    let mut n: usize = 0;
    let mut i: usize = 0;
    proof {
        assert(text@.skip(0) =~= text@);
    }
    while plen <= tlen - i && i <= tlen
        invariant
            i <= tlen,
            tlen == text@.len(),
            plen == pat@.len(),
            plen > 0,
            n <= i,
            occ_count(text@, pat@) == n + occ_count(text@.skip(i as int), pat@),
        decreases tlen - i,
    {
        let ghost suf = text@.skip(i as int);
        proof {
            lemma_match_at_skip(text@, pat@, i as int);
        }
        if match_at_exec(text, pat, i) {
            proof {
                assert(suf.skip(plen as int) =~= text@.skip(i + plen));
            }
            n += 1;
            i += plen;
        } else {
            proof {
                assert(suf.drop_first() =~= text@.skip(i + 1));
            }
            i += 1;
        }
    }
    proof {
        assert(text@.skip(i as int).len() < plen);
        assert(occ_count(text@.skip(i as int), pat@) == 0);
    }
    n
}

/// Finds the position of the leftmost occurrence of `pat`, if any.
pub fn find_first_occurrence(text: &str, pat: &str) -> (r: Option<usize>)
    requires
        pat@.len() > 0,
    ensures
        r is Some <==> occ_count(text@, pat@) > 0,
        r matches Some(i) ==> i == first_occ(text@, pat@),
{
    let tlen = text.unicode_len();
    let plen = pat.unicode_len();
    let mut i: usize = 0;
    proof {
        assert(text@.skip(0) =~= text@);
    }
    while plen <= tlen - i && i <= tlen
        invariant
            i <= tlen,
            tlen == text@.len(),
            plen == pat@.len(),
            plen > 0,
            occ_count(text@, pat@) == occ_count(text@.skip(i as int), pat@),
            first_occ(text@, pat@) == i + first_occ(text@.skip(i as int), pat@),
        decreases tlen - i,
    {
        let ghost suf = text@.skip(i as int);
        proof {
            lemma_match_at_skip(text@, pat@, i as int);
        }
        if match_at_exec(text, pat, i) {
            return Some(i);
        }
        proof {
            assert(suf.drop_first() =~= text@.skip(i + 1));
        }
        i += 1;
    }
    proof {
        assert(text@.skip(i as int).len() < plen);
        assert(occ_count(text@.skip(i as int), pat@) == 0);
    }
    None
}

/// Replaces every non-overlapping occurrence of `pat` by `rep`.
pub fn replace_literal(text: &str, pat: &str, rep: &str) -> (r: String)
    requires
        pat@.len() > 0,
    ensures
        r@ == replace_all(text@, pat@, rep@),
{
    let tlen = text.unicode_len();
    let plen = pat.unicode_len();
    let mut out = String::new();
    let mut i: usize = 0;
    proof {
        assert(text@.skip(0) =~= text@);
    }
    while i < tlen
        invariant
            i <= tlen,
            tlen == text@.len(),
            plen == pat@.len(),
            plen > 0,
            replace_all(text@, pat@, rep@) == out@ + replace_all(text@.skip(i as int), pat@, rep@),
        decreases tlen - i,
    {
        let ghost suf = text@.skip(i as int);
        proof {
            lemma_match_at_skip(text@, pat@, i as int);
            assert(suf[0] == text@[i as int]);
        }
        if plen <= tlen - i && match_at_exec(text, pat, i) {
            out.append(rep);
            proof {
                assert(suf.skip(plen as int) =~= text@.skip(i + plen));
                assert(out@ + replace_all(text@.skip(i + plen), pat@, rep@) =~= replace_all(
                    text@,
                    pat@,
                    rep@,
                ));
            }
            i += plen;
        } else {
            push_char(&mut out, text.get_char(i));
            proof {
                assert(suf.drop_first() =~= text@.skip(i + 1));
                if suf.len() < plen {
                    assert(replace_all(suf, pat@, rep@) == suf);
                    assert(replace_all(text@.skip(i + 1), pat@, rep@) == text@.skip(i + 1)) by {
                        assert(text@.skip(i + 1).len() < plen);
                    }
                    assert(suf =~= seq![suf[0]] + text@.skip(i + 1));
                }
                assert(out@ + replace_all(text@.skip(i + 1), pat@, rep@) =~= replace_all(
                    text@,
                    pat@,
                    rep@,
                ));
            }
            i += 1;
        }
    }
    proof {
        assert(text@.skip(tlen as int) =~= Seq::<char>::empty());
        assert(replace_all(Seq::<char>::empty(), pat@, rep@) == Seq::<char>::empty());
        assert(out@ + Seq::<char>::empty() =~= out@);
    }
    out
}

/// Replaces the empty pattern: `rep` goes before every character and after
/// the last.
pub fn interleave_exec(text: &str, rep: &str) -> (r: String)
    ensures
        r@ == interleave(text@, rep@),
{
    let tlen = text.unicode_len();
    let mut out = String::new();
    let mut i: usize = 0;
    proof {
        assert(text@.skip(0) =~= text@);
    }
    while i < tlen
        invariant
            i <= tlen,
            tlen == text@.len(),
            interleave(text@, rep@) == out@ + interleave(text@.skip(i as int), rep@),
        decreases tlen - i,
    {
        let ghost suf = text@.skip(i as int);
        out.append(rep);
        push_char(&mut out, text.get_char(i));
        proof {
            assert(suf[0] == text@[i as int]);
            assert(suf.drop_first() =~= text@.skip(i + 1));
            assert(out@ + interleave(text@.skip(i + 1), rep@) =~= interleave(text@, rep@));
        }
        i += 1;
    }
    out.append(rep);
    proof {
        assert(text@.skip(tlen as int) =~= Seq::<char>::empty());
        assert(out@ =~= interleave(text@, rep@));
    }
    out
}

/// The compile error that `regex::Regex::new` reports for `pat`; `None`
/// when the pattern compiles.  Compilation depends on the pattern alone.
pub uninterp spec fn pattern_compile_error(pat: Seq<char>) -> Option<Seq<char>>;

/// How many successive non-overlapping matches `regex::Regex::find_iter`
/// yields for a valid pattern `pat` on `text`.
pub uninterp spec fn pattern_match_count(pat: Seq<char>, text: Seq<char>) -> nat;

/// The text before the first match that `regex::Regex::find` reports for a
/// valid pattern `pat` that matches somewhere in `text`.
pub uninterp spec fn pattern_first_prefix(pat: Seq<char>, text: Seq<char>) -> Seq<char>;

/// What `regex::Regex::replace_all` returns for a valid pattern `pat` on
/// `text` with replacement `rep`.
pub uninterp spec fn pattern_replace_all(pat: Seq<char>, text: Seq<char>, rep: Seq<char>) -> Seq<
    char,
>;

/// Relies on `regex::Regex::new`: whether a pattern compiles, and the
/// compiler's message when it does not, depend on the pattern alone.
#[verifier::external_body]
pub(crate) fn regex_compile_check(pat: &str) -> (r: Option<String>)
    ensures
        r is None <==> pattern_compile_error(pat@) is None,
        r matches Some(m) ==> pattern_compile_error(pat@) == Some(m@),
{
    match regex::Regex::new(pat) {
        Ok(_) => None,
        Err(e) => Some(e.to_string()),
    }
}

/// Relies on `regex::Regex::find_iter`: it yields the successive
/// non-overlapping matches of the pattern in the text, a number that
/// depends on the two alone.
#[verifier::external_body]
pub(crate) fn regex_count_matches(pat: &str, text: &str) -> (r: Option<usize>)
    ensures
        r is Some <==> pattern_compile_error(pat@) is None,
        r matches Some(n) ==> n == pattern_match_count(pat@, text@),
{
    let re = regex::Regex::new(pat).ok()?;
    Some(re.find_iter(text).count())
}

/// Relies on `regex::Regex::find` and `Match::start`: the first match lies
/// within the text at a character boundary, so the text before it is a
/// prefix of the text; where it falls depends on pattern and text alone.
#[verifier::external_body]
pub(crate) fn regex_prefix_of_first_match(pat: &str, text: &str) -> (r: Option<String>)
    ensures
        r is Some <==> (pattern_compile_error(pat@) is None && pattern_match_count(pat@, text@)
            > 0),
        r matches Some(p) ==> p@ == pattern_first_prefix(pat@, text@) && p@.is_prefix_of(text@),
{
    let re = regex::Regex::new(pat).ok()?;
    let m = re.find(text)?;
    Some(text[..m.start()].to_string())
}

/// Relies on `regex::Regex::replace_all`: the result depends on the
/// pattern, the text and the replacement alone, and with no match the text
/// comes back unchanged.
#[verifier::external_body]
pub(crate) fn regex_replace_all(pat: &str, text: &str, rep: &str) -> (r: Option<String>)
    ensures
        r is Some <==> pattern_compile_error(pat@) is None,
        r matches Some(s) ==> s@ == pattern_replace_all(pat@, text@, rep@),
        r matches Some(s) ==> (pattern_match_count(pat@, text@) == 0 ==> s@ == text@),
{
    let re = regex::Regex::new(pat).ok()?;
    Some(re.replace_all(text, rep).into_owned())
}

} // verus!
