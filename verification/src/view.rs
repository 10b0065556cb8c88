//! The view operation: file content, optionally windowed by a line range,
//! and depth-bounded directory listings with hidden entries skipped and the
//! rest sorted lexicographically.

use vstd::prelude::*;
use vstd::relations::sorted_by;
use vstd::relations::total_ordering;
use vstd::seq_lib::lemma_sorted_unique;
use vstd::string::StrSliceExecFns;
use vstd::string::StringExecFns;
use crate::errors::EditorError;
use crate::lines::lines_of;
use crate::lines::split_char;
use crate::lines::split_at_char;
use crate::lines::split_lines;
use crate::snippet::render_window;
use crate::snippet::render_window_exec;
use crate::strings::push_char;
use crate::strings::dec_rep;
use crate::strings::int_rep;
use crate::strings::usize_to_string;
use crate::strings::i64_to_string;

verus! {

/// Lexicographic order on character sequences, by code point.
pub open spec fn lex_le(a: Seq<char>, b: Seq<char>) -> bool
    decreases a.len(),
{
    if a.len() == 0 {
        true
    } else if b.len() == 0 {
        false
    } else if a[0] == b[0] {
        lex_le(a.drop_first(), b.drop_first())
    } else {
        (a[0] as u32) < (b[0] as u32)
    }
}

/// The lexicographic order as a relation value, for `sorted_by` and
/// `sort_by`.
pub open spec fn lex_leq() -> spec_fn(Seq<char>, Seq<char>) -> bool {
    |a: Seq<char>, b: Seq<char>| lex_le(a, b)
}

proof fn lemma_char_code_injective(c1: char, c2: char)
    requires
        c1 as u32 == c2 as u32,
    ensures
        c1 == c2,
{
}

proof fn lemma_lex_refl(a: Seq<char>)
    ensures
        lex_le(a, a),
    decreases a.len(),
{
    if a.len() > 0 {
        lemma_lex_refl(a.drop_first());
    }
}

proof fn lemma_lex_total(a: Seq<char>, b: Seq<char>)
    ensures
        lex_le(a, b) || lex_le(b, a),
    decreases a.len(),
{
    if a.len() > 0 && b.len() > 0 {
        if a[0] == b[0] {
            lemma_lex_total(a.drop_first(), b.drop_first());
        } else {
            if a[0] as u32 == b[0] as u32 {
                lemma_char_code_injective(a[0], b[0]);
            }
        }
    }
}

proof fn lemma_lex_antisym(a: Seq<char>, b: Seq<char>)
    requires
        lex_le(a, b),
        lex_le(b, a),
    ensures
        a == b,
    decreases a.len(),
{
    if a.len() == 0 {
        assert(b.len() == 0);
        assert(a =~= b);
    } else {
        assert(b.len() > 0);
        assert(a[0] == b[0]);
        lemma_lex_antisym(a.drop_first(), b.drop_first());
        assert(a.drop_first() == b.drop_first());
        assert(a.drop_first().len() == b.drop_first().len());
        assert(a.len() == b.len());
        assert forall|i: int| 0 <= i < a.len() implies a[i] == b[i] by {
            if i > 0 {
                assert(a[i] == a.drop_first()[i - 1]);
                assert(b[i] == b.drop_first()[i - 1]);
            }
        }
        assert(a =~= b);
    }
}

proof fn lemma_lex_trans(a: Seq<char>, b: Seq<char>, c: Seq<char>)
    requires
        lex_le(a, b),
        lex_le(b, c),
    ensures
        lex_le(a, c),
    decreases a.len(),
{
    if a.len() > 0 {
        assert(b.len() > 0);
        assert(c.len() > 0);
        if a[0] == b[0] && b[0] == c[0] {
            lemma_lex_trans(a.drop_first(), b.drop_first(), c.drop_first());
        }
    }
}

/// The lexicographic order is a total ordering, which makes sorted listings
/// unique.
pub proof fn lemma_lex_total_ordering()
    ensures
        total_ordering(lex_leq()),
{
    let leq = lex_leq();
    assert forall|a: Seq<char>| #[trigger] leq(a, a) by {
        lemma_lex_refl(a);
    }
    assert forall|a: Seq<char>, b: Seq<char>| #[trigger] leq(a, b) && #[trigger] leq(b, a)
        implies a == b by {
        lemma_lex_antisym(a, b);
    }
    assert forall|a: Seq<char>, b: Seq<char>, c: Seq<char>|
        #[trigger] leq(a, b) && #[trigger] leq(b, c) implies leq(a, c) by {
        lemma_lex_trans(a, b, c);
    }
    assert forall|a: Seq<char>, b: Seq<char>| #[trigger] leq(a, b) || #[trigger] leq(b, a) by {
        lemma_lex_total(a, b);
    }
}

proof fn lemma_lex_skip(a: Seq<char>, b: Seq<char>, k: int)
    requires
        0 <= k <= a.len(),
        k <= b.len(),
        forall|j: int| 0 <= j < k ==> a[j] == b[j],
    ensures
        lex_le(a, b) == lex_le(a.skip(k), b.skip(k)),
    decreases k,
{
    if k == 0 {
        assert(a.skip(0) =~= a);
        assert(b.skip(0) =~= b);
    } else {
        assert(a.len() > 0 && b.len() > 0 && a[0] == b[0]);
        assert(a.drop_first().skip(k - 1) =~= a.skip(k));
        assert(b.drop_first().skip(k - 1) =~= b.skip(k));
        assert(forall|j: int|
            0 <= j < k - 1 ==> a.drop_first()[j] == a[j + 1] && b.drop_first()[j] == b[j + 1]);
        lemma_lex_skip(a.drop_first(), b.drop_first(), k - 1);
    }
}

/// Decides the lexicographic order.
pub fn lex_le_exec(a: &str, b: &str) -> (r: bool)
    ensures
        r == lex_le(a@, b@),
{
    let alen = a.unicode_len();
    let blen = b.unicode_len();
    let min = if alen < blen {
        alen
    } else {
        blen
    };
    let mut i: usize = 0;
    while i < min
        invariant
            i <= min,
            min <= alen,
            min <= blen,
            alen == a@.len(),
            blen == b@.len(),
            forall|j: int| 0 <= j < i ==> a@[j] == b@[j],
        decreases min - i,
    {
        let ca = a.get_char(i);
        let cb = b.get_char(i);
        if ca != cb {
            proof {
                lemma_lex_skip(a@, b@, i as int);
                assert(a@.skip(i as int)[0] == a@[i as int]);
                assert(b@.skip(i as int)[0] == b@[i as int]);
            }
            return (ca as u32) < (cb as u32);
        }
        i += 1;
    }
    proof {
        lemma_lex_skip(a@, b@, min as int);
        if alen <= blen {
            assert(a@.skip(min as int) =~= Seq::<char>::empty());
        } else {
            assert(b@.skip(min as int) =~= Seq::<char>::empty());
            assert(a@.skip(min as int).len() > 0);
        }
    }
    alen <= blen
}

/// Inserts `x` into a sorted vector, keeping it sorted.
fn insert_sorted(out: &mut Vec<String>, x: String)
    requires
        sorted_by(old(out).deep_view(), lex_leq()),
    ensures
        sorted_by(final(out).deep_view(), lex_leq()),
        final(out)@.len() == old(out)@.len() + 1,
        final(out).deep_view().to_multiset() == old(out).deep_view().to_multiset().insert(x@),
{
    broadcast use vstd::seq_lib::group_to_multiset_ensures;

    let ghost prev = out.deep_view();
    let mut j: usize = 0;
    while j < out.len() && lex_le_exec(out[j].as_str(), x.as_str())
        invariant
            j <= out@.len(),
            out.deep_view().len() == out@.len(),
            forall|k: int| 0 <= k < j ==> lex_le(#[trigger] out.deep_view()[k], x@),
            out.deep_view() == prev,
            sorted_by(prev, lex_leq()),
        decreases out@.len() - j,
    {
        proof {
            assert(out.deep_view()[j as int] == out@[j as int]@);
        }
        j += 1;
    }
    proof {
        if j < out@.len() {
            assert(out.deep_view()[j as int] == out@[j as int]@);
            assert(!lex_le(prev[j as int], x@));
            lemma_lex_total(prev[j as int], x@);
            assert(lex_le(x@, prev[j as int]));
        }
    }
    let ghost xv = x@;
    out.insert(j, x);
    proof {
        let now = out.deep_view();
        assert(now =~= prev.insert(j as int, xv)) by {
            assert(forall|k: int| 0 <= k < now.len() ==> now[k] == out@[k]@);
            assert(forall|k: int| 0 <= k < j ==> out@[k] == old(out)@[k]);
            assert(forall|k: int| j < k < now.len() ==> out@[k] == old(out)@[k - 1]);
        }
        let leq = lex_leq();
        assert forall|p: int, q: int| 0 <= p < q < now.len() implies #[trigger] leq(
            now[p],
            now[q],
        ) by {
            if q < j {
                assert(leq(prev[p], prev[q]));
            } else if p > j {
                assert(leq(prev[p - 1], prev[q - 1]));
            } else if p == j && q > j {
                // x before a tail element: x <= prev[j] <= prev[q - 1]
                if j < prev.len() {
                    if q - 1 > j as int - 1 + 1 {
                    }
                    assert(lex_le(xv, prev[j as int]));
                    if q - 1 == j {
                        assert(leq(now[p], now[q]));
                    } else {
                        assert(leq(prev[j as int], prev[q - 1]));
                        lemma_lex_trans(xv, prev[j as int], prev[q - 1]);
                    }
                }
            } else if q == j && p < j {
                assert(lex_le(prev[p], xv));
            } else if p < j && q > j {
                assert(leq(prev[p], prev[q - 1])) by {
                    if p < q - 1 {
                    } else {
                        lemma_lex_refl(prev[p]);
                    }
                }
                if q - 1 >= j {
                    // now[q] == prev[q-1]
                }
            }
        }
        // multiset: inserting splits around position j
        broadcast use vstd::multiset::group_multiset_axioms;

        assert(now =~= prev.take(j as int) + seq![xv] + prev.skip(j as int));
        assert(prev =~= prev.take(j as int) + prev.skip(j as int));
        vstd::seq_lib::lemma_multiset_commutative(prev.take(j as int), prev.skip(j as int));
        vstd::seq_lib::lemma_multiset_commutative(
            prev.take(j as int) + seq![xv],
            prev.skip(j as int),
        );
        assert((prev.take(j as int) + seq![xv]) =~= prev.take(j as int).push(xv));
        assert(prev.take(j as int).push(xv).to_multiset() =~= prev.take(
            j as int,
        ).to_multiset().insert(xv));
        assert(now.to_multiset() =~= prev.to_multiset().insert(xv));
    }
}

/// Sorts entries lexicographically; the result is exactly `sort_by` of the
/// input under the lexicographic order.
pub fn sort_entries(v: &Vec<String>) -> (r: Vec<String>)
    ensures
        r.deep_view() == v.deep_view().sort_by(lex_leq()),
{
    broadcast use vstd::seq_lib::group_to_multiset_ensures;

    let mut out: Vec<String> = Vec::new();
    proof {
        assert(out.deep_view() =~= v.deep_view().take(0));
    }
    let mut i: usize = 0;
    while i < v.len()
        invariant
            i <= v@.len(),
            v.deep_view().len() == v@.len(),
            sorted_by(out.deep_view(), lex_leq()),
            out.deep_view().to_multiset() == v.deep_view().take(i as int).to_multiset(),
        decreases v@.len() - i,
    {
        let x = v[i].clone();
        proof {
            assert(x@ == v.deep_view()[i as int]);
            assert(v.deep_view().take(i + 1) =~= v.deep_view().take(i as int).push(
                v.deep_view()[i as int],
            ));
        }
        insert_sorted(&mut out, x);
        proof {
            v.deep_view().take(i as int).to_multiset_ensures();
            assert(v.deep_view().take(i as int).push(v.deep_view()[i as int]).to_multiset()
                =~= v.deep_view().take(i as int).to_multiset().insert(v.deep_view()[i as int]));
        }
        i += 1;
    }
    proof {
        assert(v.deep_view().take(v@.len() as int) =~= v.deep_view());
        lemma_lex_total_ordering();
        v.deep_view().lemma_sort_by_ensures(lex_leq());
        lemma_sorted_unique(out.deep_view(), v.deep_view().sort_by(lex_leq()), lex_leq());
        assert(out.deep_view() =~= v.deep_view().sort_by(lex_leq()));
    }
    out
}

/// The characters stripped from the end of a file when it is viewed whole.
pub open spec fn is_blank(c: char) -> bool {
    c == ' ' || c == '\t' || c == '\n' || c == '\r'
}

/// `s` without its trailing whitespace.
pub open spec fn trim_end_spec(s: Seq<char>) -> Seq<char>
    decreases s.len(),
{
    if s.len() == 0 {
        s
    } else if is_blank(s.last()) {
        trim_end_spec(s.drop_last())
    } else {
        s
    }
}

fn is_blank_exec(c: char) -> (r: bool)
    ensures
        r == is_blank(c),
{
    c == ' ' || c == '\t' || c == '\n' || c == '\r'
}

/// Strips trailing whitespace.
pub fn trim_end(s: &str) -> (r: String)
    ensures
        r@ == trim_end_spec(s@),
{
    let n = s.unicode_len();
    proof {
        assert(s@.take(n as int) =~= s@);
    }
    let mut k = n;
    while k > 0 && is_blank_exec(s.get_char(k - 1))
        invariant
            k <= n,
            n == s@.len(),
            trim_end_spec(s@) == trim_end_spec(s@.take(k as int)),
        decreases k,
    {
        proof {
            assert(s@.take(k as int).last() == s@[k - 1]);
            assert(s@.take(k as int).drop_last() =~= s@.take(k - 1));
        }
        k -= 1;
    }
    let head = s.substring_char(0, k);
    proof {
        assert(head@ =~= s@.take(k as int));
        if k == 0 {
            assert(s@.take(0) =~= Seq::<char>::empty());
        } else {
            assert(s@.take(k as int).last() == s@[k - 1]);
        }
    }
    head.to_owned()
}

/// A directory entry is hidden when any component of its relative path
/// starts with a dot.
pub open spec fn starts_with_dot(s: Seq<char>) -> bool {
    s.len() > 0 && s[0] == '.'
}

pub open spec fn hidden_entry(p: Seq<char>) -> bool {
    exists|i: int|
        0 <= i < split_char(p, '/').len() && starts_with_dot(#[trigger] split_char(p, '/')[i])
}

/// How many levels below the listed directory an entry sits; an immediate
/// child has depth one.
pub open spec fn entry_depth(p: Seq<char>) -> nat {
    split_char(p, '/').len()
}

/// An entry is listed when it is within the depth bound and not hidden.
pub open spec fn keep_entry(p: Seq<char>, d: nat) -> bool {
    entry_depth(p) <= d && !hidden_entry(p)
}

pub open spec fn keep_entry_fn(d: nat) -> spec_fn(Seq<char>) -> bool {
    |p: Seq<char>| keep_entry(p, d)
}

/// The entries that a depth-`d` listing shows, in input order.
pub open spec fn kept_entries(entries: Seq<Seq<char>>, d: nat) -> Seq<Seq<char>> {
    entries.filter(keep_entry_fn(d))
}

fn keep_entry_exec(p: &str, d: usize) -> (r: bool)
    ensures
        r == keep_entry(p@, d as nat),
{
    let pieces = split_at_char(p, '/');
    if pieces.len() > d {
        return false;
    }
    let mut i: usize = 0;
    while i < pieces.len()
        invariant
            i <= pieces@.len(),
            pieces.deep_view() == split_char(p@, '/'),
            pieces.deep_view().len() == pieces@.len(),
            forall|k: int| 0 <= k < i ==> !starts_with_dot(#[trigger] pieces.deep_view()[k]),
        decreases pieces@.len() - i,
    {
        proof {
            assert(pieces.deep_view()[i as int] == pieces@[i as int]@);
        }
        let piece = pieces[i].as_str();
        if piece.unicode_len() > 0 {
            if piece.get_char(0) == '.' {
                proof {
                    assert(starts_with_dot(pieces.deep_view()[i as int]));
                }
                return false;
            }
        }
        i += 1;
    }
    true
}

proof fn lemma_filter_push<A>(s: Seq<A>, e: A, f: spec_fn(A) -> bool)
    ensures
        s.push(e).filter(f) == if f(e) {
            s.filter(f).push(e)
        } else {
            s.filter(f)
        },
{
    reveal(Seq::filter);
    assert(s.push(e).drop_last() =~= s);
    assert(s.push(e).last() == e);
}

/// Keeps exactly the entries a depth-`d` listing shows.
pub fn filter_entries(entries: &Vec<String>, d: usize) -> (r: Vec<String>)
    ensures
        r.deep_view() == kept_entries(entries.deep_view(), d as nat),
{
    let mut r: Vec<String> = Vec::new();
    proof {
        reveal(Seq::filter);
        assert(entries.deep_view().take(0).filter(keep_entry_fn(d as nat)) =~= r.deep_view());
    }
    let mut i: usize = 0;
    while i < entries.len()
        invariant
            i <= entries@.len(),
            entries.deep_view().len() == entries@.len(),
            r.deep_view() == entries.deep_view().take(i as int).filter(keep_entry_fn(d as nat)),
        decreases entries@.len() - i,
    {
        let ghost prev = r.deep_view();
        proof {
            assert(entries.deep_view()[i as int] == entries@[i as int]@);
            assert(entries.deep_view().take(i + 1) =~= entries.deep_view().take(i as int).push(
                entries.deep_view()[i as int],
            ));
            lemma_filter_push(
                entries.deep_view().take(i as int),
                entries.deep_view()[i as int],
                keep_entry_fn(d as nat),
            );
        }
        if keep_entry_exec(entries[i].as_str(), d) {
            r.push(entries[i].clone());
            proof {
                assert(r.deep_view() =~= prev.push(entries.deep_view()[i as int]));
            }
        }
        i += 1;
    }
    proof {
        assert(entries.deep_view().take(entries@.len() as int) =~= entries.deep_view());
    }
    r
}

/// A directory listing never contains a hidden entry nor one deeper than
/// the depth bound, whatever the entries offered to it.
pub proof fn lemma_kept_entries_clean(entries: Seq<Seq<char>>, d: nat)
    ensures
        forall|i: int|
            0 <= i < kept_entries(entries, d).len() ==> !hidden_entry(
                #[trigger] kept_entries(entries, d)[i],
            ) && entry_depth(kept_entries(entries, d)[i]) <= d,
{
    let f = keep_entry_fn(d);
    assert forall|i: int| 0 <= i < kept_entries(entries, d).len() implies !hidden_entry(
        #[trigger] kept_entries(entries, d)[i],
    ) && entry_depth(kept_entries(entries, d)[i]) <= d by {
        entries.lemma_filter_pred(f, i);
        assert(f(kept_entries(entries, d)[i]));
    }
}

/// Joins items with a newline between each pair, no trailing newline.
pub open spec fn join_nl(items: Seq<Seq<char>>) -> Seq<char>
    decreases items.len(),
{
    if items.len() == 0 {
        Seq::empty()
    } else if items.len() == 1 {
        items[0]
    } else {
        items[0].push('\n') + join_nl(items.drop_first())
    }
}

proof fn lemma_join_nl_push(items: Seq<Seq<char>>, x: Seq<char>)
    requires
        items.len() >= 1,
    ensures
        join_nl(items.push(x)) == join_nl(items).push('\n') + x,
    decreases items.len(),
{
    if items.len() == 1 {
        assert(items.push(x).drop_first() =~= seq![x]);
        assert(join_nl(seq![x]) == x);
        assert(join_nl(items.push(x)) =~= join_nl(items).push('\n') + x);
    } else {
        assert(items.push(x).drop_first() =~= items.drop_first().push(x));
        lemma_join_nl_push(items.drop_first(), x);
        assert(join_nl(items.push(x)) =~= join_nl(items).push('\n') + x);
    }
}

/// Joins items with newlines between them.
pub fn join_nl_exec(items: &Vec<String>) -> (s: String)
    ensures
        s@ == join_nl(items.deep_view()),
{
    if items.len() == 0 {
        let s = String::new();
        proof {
            assert(s@ =~= join_nl(items.deep_view()));
        }
        return s;
    }
    let mut s = String::new();
    s.append(items[0].as_str());
    proof {
        assert(items.deep_view()[0] == items@[0]@);
        assert(items.deep_view().take(1) =~= seq![items@[0]@]);
        assert(s@ =~= join_nl(items.deep_view().take(1)));
    }
    let mut i: usize = 1;
    while i < items.len()
        invariant
            1 <= i <= items@.len(),
            items.deep_view().len() == items@.len(),
            s@ == join_nl(items.deep_view().take(i as int)),
        decreases items@.len() - i,
    {
        let ghost taken = items.deep_view().take(i as int);
        push_char(&mut s, '\n');
        s.append(items[i].as_str());
        proof {
            assert(items.deep_view()[i as int] == items@[i as int]@);
            lemma_join_nl_push(taken, items.deep_view()[i as int]);
            assert(items.deep_view().take(i + 1) =~= taken.push(items.deep_view()[i as int]));
            assert(s@ =~= join_nl(items.deep_view().take(i + 1)));
        }
        i += 1;
    }
    proof {
        assert(items.deep_view().take(items@.len() as int) =~= items.deep_view());
    }
    s
}

/// The depth bound of a listing: the request's `max_depth`, or one level
/// (the immediate children) when absent.
pub open spec fn depth_or_default(md: Option<usize>) -> nat {
    match md {
        Some(d) => d as nat,
        None => 1,
    }
}

/// The depth bound of a listing, as the caller that walks the directory
/// needs it.
pub fn effective_depth(md: Option<usize>) -> (d: usize)
    ensures
        d == depth_or_default(md),
{
    match md {
        Some(d) => d,
        None => 1,
    }
}

pub open spec fn dir_header(d: nat, path: Seq<char>) -> Seq<char> {
    "Here's the files and directories up to "@ + dec_rep(d) + " levels deep in "@ + path
        + ", excluding hidden items:\n"@
}

/// The whole message of a directory view: a header, then the kept entries
/// sorted lexicographically, one per line.
pub open spec fn dir_listing_message(path: Seq<char>, entries: Seq<Seq<char>>, d: nat) -> Seq<
    char,
> {
    dir_header(d, path) + join_nl(kept_entries(entries, d).sort_by(lex_leq())) + seq!['\n']
}

/// Renders a directory listing: entries within the depth bound, hidden ones
/// skipped, the rest sorted, one per line under a header.
pub fn view_directory(path: &str, entries: &Vec<String>, max_depth: Option<usize>) -> (r: String)
    ensures
        r@ == dir_listing_message(path@, entries.deep_view(), depth_or_default(max_depth)),
{
    let d: usize = match max_depth {
        Some(d) => d,
        None => 1,
    };
    let kept = filter_entries(entries, d);
    let sorted = sort_entries(&kept);
    let body = join_nl_exec(&sorted);
    let mut msg = String::from_str("Here's the files and directories up to ");
    let ds = usize_to_string(d);
    msg.append(ds.as_str());
    msg.append(" levels deep in ");
    msg.append(path);
    msg.append(", excluding hidden items:\n");
    msg.append(body.as_str());
    push_char(&mut msg, '\n');
    proof {
        assert(msg@ =~= dir_listing_message(path@, entries.deep_view(), depth_or_default(
            max_depth,
        )));
    }
    msg
}

pub open spec fn range_shape_message() -> Seq<char> {
    "view_range must be an array with exactly 2 elements: [start_line, end_line]"@
}

pub open spec fn bad_view_start_message(start: int, n: nat) -> Seq<char> {
    "Invalid `view_range`: its first element `"@ + int_rep(start)
        + "` should be within the range of lines of the file: [1, "@ + dec_rep(n) + "]"@
}

pub open spec fn bad_view_order_message(start: int, end: int) -> Seq<char> {
    "Invalid `view_range`: its second element `"@ + int_rep(end)
        + "` should be larger or equal than its first element `"@ + int_rep(start) + "`"@
}

pub open spec fn bad_view_end_message(end: int, n: nat) -> Seq<char> {
    "Invalid `view_range`: its second element `"@ + int_rep(end)
        + "` should be smaller than the number of lines in the file: `"@ + dec_rep(n) + "`"@
}

pub open spec fn view_file_header(path: Seq<char>) -> Seq<char> {
    "Here's the result of running `cat -n` on "@ + path + ":\n"@
}

/// What viewing a file returns: without a range, the content with trailing
/// whitespace trimmed; with a 1-based inclusive range (`-1` meaning the end
/// of the file), the numbered lines of that range, or the first violated
/// bound.
pub open spec fn view_file_matches(
    r: Result<String, EditorError>,
    path: Seq<char>,
    content: Seq<char>,
    vr: Option<Seq<i32>>,
) -> bool {
    let lines = lines_of(content);
    match vr {
        None => r matches Ok(s) && s@ == trim_end_spec(content),
        Some(range) => if range.len() != 2 {
            r matches Err(EditorError::InvalidRange(m)) && m@ == range_shape_message()
        } else {
            let start = range[0] as int;
            let end = range[1] as int;
            if start < 1 || start > lines.len() {
                r matches Err(EditorError::InvalidRange(m)) && m@ == bad_view_start_message(
                    start,
                    lines.len(),
                )
            } else if end != -1 && end < start {
                r matches Err(EditorError::InvalidRange(m)) && m@ == bad_view_order_message(
                    start,
                    end,
                )
            } else if end != -1 && end > lines.len() {
                r matches Err(EditorError::InvalidRange(m)) && m@ == bad_view_end_message(
                    end,
                    lines.len(),
                )
            } else {
                let last = if end == -1 {
                    lines.len() as int
                } else {
                    end
                };
                r matches Ok(s) && s@ == view_file_header(path) + render_window(
                    lines,
                    start as nat,
                    (last - start + 1) as nat,
                )
            }
        },
    }
}

/// Views a file's content, whole or windowed by a 1-based inclusive range.
pub fn view_file(path: &str, content: &str, view_range: Option<&Vec<i32>>) -> (r: Result<
    String,
    EditorError,
>)
    ensures
        view_file_matches(
            r,
            path@,
            content@,
            match view_range {
                Some(v) => Some(v@),
                None => None,
            },
        ),
{
    let range = match view_range {
        None => {
            let t = trim_end(content);
            return Ok(t);
        },
        Some(range) => range,
    };
    let lines = split_lines(content);
    let nlines = lines.len();
    proof {
        assert(lines.deep_view().len() == lines@.len());
    }
    if range.len() != 2 {
        return Err(
            EditorError::InvalidRange(
                String::from_str(
                    "view_range must be an array with exactly 2 elements: [start_line, end_line]",
                ),
            ),
        );
    }
    let start = range[0];
    let end = range[1];
    if start < 1 || (start as usize) > nlines {
        let mut m = String::from_str("Invalid `view_range`: its first element `");
        let sv = i64_to_string(start as i64);
        m.append(sv.as_str());
        m.append("` should be within the range of lines of the file: [1, ");
        let nv = usize_to_string(nlines);
        m.append(nv.as_str());
        m.append("]");
        proof {
            assert(m@ =~= bad_view_start_message(start as int, lines_of(content@).len()));
        }
        return Err(EditorError::InvalidRange(m));
    }
    if end != -1 && end < start {
        let mut m = String::from_str("Invalid `view_range`: its second element `");
        let ev = i64_to_string(end as i64);
        m.append(ev.as_str());
        m.append("` should be larger or equal than its first element `");
        let sv = i64_to_string(start as i64);
        m.append(sv.as_str());
        m.append("`");
        proof {
            assert(m@ =~= bad_view_order_message(start as int, end as int));
        }
        return Err(EditorError::InvalidRange(m));
    }
    if end != -1 && (end as usize) > nlines {
        let mut m = String::from_str("Invalid `view_range`: its second element `");
        let ev = i64_to_string(end as i64);
        m.append(ev.as_str());
        m.append("` should be smaller than the number of lines in the file: `");
        let nv = usize_to_string(nlines);
        m.append(nv.as_str());
        m.append("`");
        proof {
            assert(m@ =~= bad_view_end_message(end as int, lines_of(content@).len()));
        }
        return Err(EditorError::InvalidRange(m));
    }
    let last: usize = if end == -1 {
        nlines
    } else {
        end as usize
    };
    let count = last - (start as usize) + 1;
    let window = render_window_exec(&lines, start as usize, count);
    let mut msg = String::from_str("Here's the result of running `cat -n` on ");
    msg.append(path);
    msg.append(":\n");
    msg.append(window.as_str());
    proof {
        let lines_spec = lines_of(content@);
        let last_spec: int = if end == -1 {
            lines_spec.len() as int
        } else {
            end as int
        };
        assert(msg@ =~= view_file_header(path@) + render_window(
            lines_spec,
            start as nat,
            (last_spec - start + 1) as nat,
        ));
    }
    Ok(msg)
}

/// The view operation: a range-windowed or whole file, or a directory
/// listing, on which a range is refused.
pub open spec fn view_matches(
    r: Result<String, EditorError>,
    path: Seq<char>,
    is_dir: bool,
    content: Seq<char>,
    entries: Seq<Seq<char>>,
    vr: Option<Seq<i32>>,
    md: Option<usize>,
) -> bool {
    if is_dir {
        match vr {
            Some(_) => r matches Err(EditorError::ViewRangeForDirectory),
            None => r matches Ok(s) && s@ == dir_listing_message(
                path,
                entries,
                depth_or_default(md),
            ),
        }
    } else {
        view_file_matches(r, path, content, vr)
    }
}

pub open spec fn opt_str_view(o: Option<&String>) -> Seq<char> {
    match o {
        Some(s) => s@,
        None => Seq::empty(),
    }
}

pub open spec fn opt_entries_view(o: Option<&Vec<String>>) -> Seq<Seq<char>> {
    match o {
        Some(v) => v.deep_view(),
        None => Seq::empty(),
    }
}

pub open spec fn opt_range_view(o: Option<&Vec<i32>>) -> Option<Seq<i32>> {
    match o {
        Some(v) => Some(v@),
        None => None,
    }
}

/// Views the path: a directory listing for a directory (refusing a range),
/// otherwise the file's content.
pub fn view(
    path: &str,
    is_dir: bool,
    content: Option<&String>,
    entries: Option<&Vec<String>>,
    view_range: Option<&Vec<i32>>,
    max_depth: Option<usize>,
) -> (r: Result<String, EditorError>)
    requires
        !is_dir ==> content is Some,
        is_dir && view_range is None ==> entries is Some,
    ensures
        view_matches(
            r,
            path@,
            is_dir,
            opt_str_view(content),
            opt_entries_view(entries),
            opt_range_view(view_range),
            max_depth,
        ),
{
    if is_dir {
        if view_range.is_some() {
            return Err(EditorError::ViewRangeForDirectory);
        }
        let list = match entries {
            Some(v) => v,
            None => unreached(),
        };
        Ok(view_directory(path, list, max_depth))
    } else {
        let text = match content {
            Some(c) => c,
            None => unreached(),
        };
        view_file(path, text.as_str(), view_range)
    }
}

} // verus!
