//! The line model of file content: splitting text into lines, joining lines
//! back into text with a single trailing newline, and the lemmas connecting
//! the two directions.

use vstd::prelude::*;
use vstd::string::StrSliceExecFns;
use vstd::string::StringExecFns;
use crate::strings::push_char;

verus! {

/// Splits `s` at every occurrence of `sep`.  The separators themselves are
/// dropped; `n` separators yield `n + 1` pieces, so the empty string yields
/// one empty piece.
pub open spec fn split_char(s: Seq<char>, sep: char) -> Seq<Seq<char>>
    decreases s.len(),
{
    if s.len() == 0 {
        seq![Seq::<char>::empty()]
    } else if s[0] == sep {
        seq![Seq::<char>::empty()] + split_char(s.drop_first(), sep)
    } else {
        let rest = split_char(s.drop_first(), sep);
        seq![seq![s[0]] + rest[0]] + rest.drop_first()
    }
}

/// The lines of a file's text: split on `'\n'`, where a final newline acts
/// as a terminator rather than a separator, so `"a\n"` and `"a"` both have
/// the single line `"a"`, and the empty text has no lines.
pub open spec fn lines_of(s: Seq<char>) -> Seq<Seq<char>> {
    if s.len() == 0 {
        Seq::empty()
    } else if s.last() == '\n' {
        split_char(s.drop_last(), '\n')
    } else {
        split_char(s, '\n')
    }
}

/// Joins lines into file text, terminating every line (including the last)
/// with exactly one `'\n'`.  No lines yield the text `"\n"`, mirroring how
/// an empty join still receives its trailing newline on write.
pub open spec fn unlines(lines: Seq<Seq<char>>) -> Seq<char>
    decreases lines.len(),
{
    if lines.len() == 0 {
        seq!['\n']
    } else if lines.len() == 1 {
        lines[0].push('\n')
    } else {
        lines[0].push('\n') + unlines(lines.drop_first())
    }
}

/// How many times `c` occurs in `s`.
pub open spec fn count_char(s: Seq<char>, c: char) -> nat
    decreases s.len(),
{
    if s.len() == 0 {
        0
    } else {
        count_char(s.drop_last(), c) + if s.last() == c { 1nat } else { 0nat }
    }
}

/// Splitting never yields an empty list of pieces.
pub proof fn lemma_split_len_pos(s: Seq<char>, sep: char)
    ensures
        split_char(s, sep).len() >= 1,
    decreases s.len(),
{
    if s.len() != 0 {
        lemma_split_len_pos(s.drop_first(), sep);
    }
}

/// No piece of a split contains the separator.
pub proof fn lemma_split_pieces_clean(s: Seq<char>, sep: char)
    ensures
        forall|i: int|
            0 <= i < split_char(s, sep).len() ==> !(#[trigger] split_char(s, sep)[i]).contains(sep),
    decreases s.len(),
{
    if s.len() == 0 {
        assert forall|i: int| 0 <= i < split_char(s, sep).len() implies !(
        #[trigger] split_char(s, sep)[i]).contains(sep) by {
            assert(split_char(s, sep)[i] =~= Seq::<char>::empty());
        }
    } else {
        lemma_split_len_pos(s.drop_first(), sep);
        lemma_split_pieces_clean(s.drop_first(), sep);
        let rest = split_char(s.drop_first(), sep);
        if s[0] == sep {
            assert forall|i: int| 0 <= i < split_char(s, sep).len() implies !(
            #[trigger] split_char(s, sep)[i]).contains(sep) by {
                if i > 0 {
                    assert(split_char(s, sep)[i] == rest[i - 1]);
                }
            }
        } else {
            assert forall|i: int| 0 <= i < split_char(s, sep).len() implies !(
            #[trigger] split_char(s, sep)[i]).contains(sep) by {
                if i == 0 {
                    let piece = seq![s[0]] + rest[0];
                    assert(split_char(s, sep)[0] == piece);
                    assert(!rest[0].contains(sep));
                    assert forall|j: int| 0 <= j < piece.len() implies piece[j] != sep by {
                        if j > 0 {
                            assert(piece[j] == rest[0][j - 1]);
                        }
                    }
                } else {
                    assert(split_char(s, sep)[i] == rest.drop_first()[i - 1]);
                    assert(rest.drop_first()[i - 1] == rest[i]);
                }
            }
        }
    }
}

/// Splitting a string with no separator yields that single piece.
pub proof fn lemma_split_no_sep(s: Seq<char>, sep: char)
    requires
        !s.contains(sep),
    ensures
        split_char(s, sep) == seq![s],
    decreases s.len(),
{
    if s.len() == 0 {
        assert(split_char(s, sep) =~~= seq![s]);
    } else {
        assert(s[0] != sep);
        assert(!s.drop_first().contains(sep)) by {
            assert forall|i: int| 0 <= i < s.drop_first().len() implies s.drop_first()[i] != sep by {
                assert(s.drop_first()[i] == s[i + 1]);
            }
        }
        lemma_split_no_sep(s.drop_first(), sep);
        let rest = split_char(s.drop_first(), sep);
        assert(rest == seq![s.drop_first()]);
        assert(rest[0] == s.drop_first());
        assert(rest.drop_first() =~= Seq::<Seq<char>>::empty());
        assert(seq![s[0]] + rest[0] =~= s);
        assert(split_char(s, sep) =~= seq![s]);
    }
}

/// Appending one character to the split string either starts a fresh empty
/// piece (when the character is the separator) or extends the last piece.
pub proof fn lemma_split_push(s: Seq<char>, sep: char, c: char)
    ensures
        c == sep ==> split_char(s.push(c), sep) == split_char(s, sep).push(Seq::<char>::empty()),
        c != sep ==> split_char(s.push(c), sep) == split_char(s, sep).drop_last().push(
            split_char(s, sep).last().push(c),
        ),
    decreases s.len(),
{
    lemma_split_len_pos(s, sep);
    if s.len() == 0 {
        assert(split_char(Seq::<char>::empty(), sep) == seq![Seq::<char>::empty()]);
        if c == sep {
            assert(s.push(c)[0] == sep);
            assert(s.push(c).drop_first() =~= Seq::<char>::empty());
            assert(split_char(s.push(c), sep) == seq![Seq::<char>::empty()] + seq![
                Seq::<char>::empty(),
            ]);
            assert(split_char(s.push(c), sep) =~= split_char(s, sep).push(Seq::<char>::empty()));
        } else {
            assert(s.push(c)[0] == c);
            assert(s.push(c).drop_first() =~= Seq::<char>::empty());
            let piece = seq![s.push(c)[0]] + split_char(Seq::<char>::empty(), sep)[0];
            assert(piece =~= split_char(s, sep).last().push(c));
            assert(split_char(s.push(c), sep) =~= split_char(s, sep).drop_last().push(
                split_char(s, sep).last().push(c),
            ));
        }
    } else {
        let t = s.drop_first();
        assert(s.push(c).drop_first() =~= t.push(c));
        lemma_split_push(t, sep, c);
        lemma_split_len_pos(t, sep);
        let rest = split_char(t, sep);
        let rest2 = split_char(t.push(c), sep);
        if s[0] == sep {
            assert(split_char(s, sep) == seq![Seq::<char>::empty()] + rest);
            assert(split_char(s.push(c), sep) == seq![Seq::<char>::empty()] + rest2);
            if c == sep {
                assert(split_char(s.push(c), sep) =~= split_char(s, sep).push(
                    Seq::<char>::empty(),
                ));
            } else {
                assert((seq![Seq::<char>::empty()] + rest).last() == rest.last());
                assert(split_char(s.push(c), sep) =~= split_char(s, sep).drop_last().push(
                    split_char(s, sep).last().push(c),
                ));
            }
        } else {
            assert(split_char(s, sep) == seq![seq![s[0]] + rest[0]] + rest.drop_first());
            assert(split_char(s.push(c), sep) == seq![seq![s[0]] + rest2[0]] + rest2.drop_first());
            if c == sep {
                assert(rest2 == rest.push(Seq::<char>::empty()));
                assert(rest2[0] == rest[0]);
                assert(split_char(s.push(c), sep) =~= split_char(s, sep).push(
                    Seq::<char>::empty(),
                ));
            } else {
                assert(rest2 == rest.drop_last().push(rest.last().push(c)));
                if rest.len() == 1 {
                    assert(rest2[0] == rest[0].push(c));
                    assert(split_char(s, sep).last() == seq![s[0]] + rest[0]);
                    assert((seq![s[0]] + rest[0]).push(c) =~= seq![s[0]] + rest[0].push(c));
                    assert(split_char(s.push(c), sep) =~= split_char(s, sep).drop_last().push(
                        split_char(s, sep).last().push(c),
                    ));
                } else {
                    assert(rest2[0] == rest[0]);
                    assert(split_char(s, sep).last() == rest.last());
                    assert(split_char(s.push(c), sep) =~= split_char(s, sep).drop_last().push(
                        split_char(s, sep).last().push(c),
                    ));
                }
            }
        }
    }
}

/// Splitting around an explicit separator: the clean piece before it comes
/// off whole.
pub proof fn lemma_split_concat(a: Seq<char>, t: Seq<char>, sep: char)
    requires
        !a.contains(sep),
    ensures
        split_char(a + seq![sep] + t, sep) == seq![a] + split_char(t, sep),
    decreases a.len(),
{
    if a.len() == 0 {
        assert((a + seq![sep] + t)[0] == sep);
        assert((a + seq![sep] + t).drop_first() =~= t);
        assert(split_char(a + seq![sep] + t, sep) =~~= seq![a] + split_char(t, sep));
    } else {
        assert(a[0] != sep);
        let a2 = a.drop_first();
        assert(!a2.contains(sep)) by {
            assert forall|i: int| 0 <= i < a2.len() implies a2[i] != sep by {
                assert(a2[i] == a[i + 1]);
            }
        }
        lemma_split_concat(a2, t, sep);
        let s = a + seq![sep] + t;
        assert(s[0] == a[0]);
        assert(s.drop_first() =~= a2 + seq![sep] + t);
        let rest = split_char(a2 + seq![sep] + t, sep);
        assert(rest == seq![a2] + split_char(t, sep));
        lemma_split_len_pos(t, sep);
        assert(rest[0] == a2);
        assert(seq![a[0]] + a2 =~= a);
        assert(seq![s[0]] + rest[0] == a);
        assert(rest.drop_first() =~= split_char(t, sep));
        assert(split_char(s, sep) =~= seq![a] + split_char(t, sep));
    }
}

/// `unlines` always ends in a newline and is never empty.
pub proof fn lemma_unlines_terminated(lines: Seq<Seq<char>>)
    ensures
        unlines(lines).len() >= 1,
        unlines(lines).last() == '\n',
    decreases lines.len(),
{
    if lines.len() > 1 {
        lemma_unlines_terminated(lines.drop_first());
    }
}

/// Appending a line extends the joined text by that line and a newline.
pub proof fn lemma_unlines_push(lines: Seq<Seq<char>>, x: Seq<char>)
    requires
        lines.len() >= 1,
    ensures
        unlines(lines.push(x)) == unlines(lines) + x.push('\n'),
    decreases lines.len(),
{
    if lines.len() == 1 {
        assert(lines.push(x).drop_first() =~= seq![x]);
        assert(unlines(seq![x]) == x.push('\n'));
        assert(unlines(lines.push(x)) =~= unlines(lines) + x.push('\n'));
    } else {
        assert(lines.push(x).drop_first() =~= lines.drop_first().push(x));
        lemma_unlines_push(lines.drop_first(), x);
        assert(unlines(lines.push(x)) =~= unlines(lines) + x.push('\n'));
    }
}

/// Reading back what `unlines` wrote recovers the very same lines, as long
/// as there is at least one line and no line contains a newline itself.
pub proof fn lemma_lines_of_unlines(lines: Seq<Seq<char>>)
    requires
        lines.len() >= 1,
        forall|i: int| 0 <= i < lines.len() ==> !(#[trigger] lines[i]).contains('\n'),
    ensures
        lines_of(unlines(lines)) == lines,
    decreases lines.len(),
{
    lemma_unlines_terminated(lines);
    let s = unlines(lines);
    if lines.len() == 1 {
        assert(s == lines[0].push('\n'));
        assert(s.drop_last() =~= lines[0]);
        lemma_split_no_sep(lines[0], '\n');
        assert(lines_of(s) =~= lines);
    } else {
        let rest = lines.drop_first();
        lemma_unlines_terminated(rest);
        assert(s == lines[0].push('\n') + unlines(rest));
        assert(forall|i: int| 0 <= i < rest.len() ==> !(#[trigger] rest[i]).contains('\n')) by {
            assert(forall|i: int| 0 <= i < rest.len() ==> rest[i] == lines[i + 1]);
        }
        lemma_lines_of_unlines(rest);
        assert(s.drop_last() =~= lines[0] + seq!['\n'] + unlines(rest).drop_last());
        lemma_split_concat(lines[0], unlines(rest).drop_last(), '\n');
        assert(split_char(unlines(rest).drop_last(), '\n') == lines_of(unlines(rest)));
        assert(lines_of(s) =~= lines);
    }
}

/// No line produced by `lines_of` contains a newline.
pub proof fn lemma_lines_of_clean(s: Seq<char>)
    ensures
        forall|i: int| 0 <= i < lines_of(s).len() ==> !(#[trigger] lines_of(s)[i]).contains('\n'),
{
    if s.len() != 0 {
        if s.last() == '\n' {
            lemma_split_pieces_clean(s.drop_last(), '\n');
        } else {
            lemma_split_pieces_clean(s, '\n');
        }
    }
}

/// Splits `s` at every occurrence of `sep`.
pub fn split_at_char(s: &str, sep: char) -> (pieces: Vec<String>)
    ensures
        pieces.deep_view() == split_char(s@, sep),
{
    let n = s.unicode_len();
    let mut pieces: Vec<String> = Vec::new();
    let mut cur = String::new();
    let mut i: usize = 0;
    while i < n
        invariant
            i <= n,
            n == s@.len(),
            split_char(s@.take(i as int), sep) == pieces.deep_view().push(cur@),
        decreases n - i,
    {
        let ghost prefix = s@.take(i as int);
        let ghost old_pieces = pieces.deep_view();
        let ghost old_cur = cur@;
        let c = s.get_char(i);
        proof {
            assert(s@.take(i + 1) =~= prefix.push(s@[i as int]));
            lemma_split_push(prefix, sep, s@[i as int]);
            lemma_split_len_pos(prefix, sep);
        }
        if c == sep {
            pieces.push(cur);
            cur = String::new();
            proof {
                assert(pieces.deep_view() =~= old_pieces.push(old_cur));
                assert(old_pieces.push(old_cur).push(Seq::<char>::empty()) =~= pieces.deep_view().push(cur@));
                assert(split_char(s@.take(i + 1), sep) == pieces.deep_view().push(cur@));
            }
        } else {
            push_char(&mut cur, c);
            proof {
                assert(old_pieces.push(old_cur).drop_last() =~= old_pieces);
                assert(old_pieces.push(old_cur).last() == old_cur);
                assert(split_char(s@.take(i + 1), sep) == pieces.deep_view().push(cur@));
            }
        }
        i += 1;
    }
    proof {
        assert(s@.take(n as int) =~= s@);
    }
    let ghost old_pieces = pieces.deep_view();
    pieces.push(cur);
    proof {
        assert(pieces.deep_view() =~= old_pieces.push(cur@));
    }
    pieces
}

/// Splits file content into its lines, treating a final newline as a
/// terminator.
pub fn split_lines(content: &str) -> (lines: Vec<String>)
    ensures
        lines.deep_view() == lines_of(content@),
{
    let n = content.unicode_len();
    if n == 0 {
        let lines: Vec<String> = Vec::new();
        proof {
            assert(lines.deep_view() =~= lines_of(content@));
        }
        return lines;
    }
    let last = content.get_char(n - 1);
    if last == '\n' {
        let head = content.substring_char(0, n - 1);
        proof {
            assert(head@ =~= content@.drop_last());
        }
        split_at_char(head, '\n')
    } else {
        split_at_char(content, '\n')
    }
}

/// Joins lines into file content with a single newline after every line.
pub fn join_lines(lines: &Vec<String>) -> (s: String)
    ensures
        s@ == unlines(lines.deep_view()),
{
    if lines.len() == 0 {
        let mut s = String::new();
        push_char(&mut s, '\n');
        proof {
            assert(s@ =~= unlines(lines.deep_view()));
        }
        return s;
    }
    let mut s = String::new();
    s.append(lines[0].as_str());
    push_char(&mut s, '\n');
    proof {
        assert(lines.deep_view()[0] == lines@[0]@);
        assert(lines.deep_view().take(1) =~= seq![lines@[0]@]);
        assert(s@ =~= unlines(lines.deep_view().take(1)));
    }
    let mut i: usize = 1;
    while i < lines.len()
        invariant
            1 <= i <= lines@.len(),
            lines.deep_view().len() == lines@.len(),
            s@ == unlines(lines.deep_view().take(i as int)),
        decreases lines@.len() - i,
    {
        let ghost taken = lines.deep_view().take(i as int);
        s.append(lines[i].as_str());
        push_char(&mut s, '\n');
        proof {
            assert(lines.deep_view()[i as int] == lines@[i as int]@);
            lemma_unlines_push(taken, lines.deep_view()[i as int]);
            assert(lines.deep_view().take(i + 1) =~= taken.push(lines.deep_view()[i as int]));
            assert(s@ =~= unlines(lines.deep_view().take(i + 1)));
        }
        i += 1;
    }
    proof {
        assert(lines.deep_view().take(lines@.len() as int) =~= lines.deep_view());
    }
    s
}

/// Counts the occurrences of `c` in `s`.
pub fn count_char_in(s: &str, c: char) -> (n: usize)
    ensures
        n == count_char(s@, c),
        n <= s@.len(),
{
    let len = s.unicode_len();
    let mut n: usize = 0;
    let mut i: usize = 0;
    while i < len
        invariant
            i <= len,
            len == s@.len(),
            n == count_char(s@.take(i as int), c),
            n <= i,
        decreases len - i,
    {
        let ch = s.get_char(i);
        proof {
            assert(s@.take(i + 1).drop_last() =~= s@.take(i as int));
            assert(s@.take(i + 1).last() == s@[i as int]);
        }
        if ch == c {
            n += 1;
        }
        i += 1;
    }
    proof {
        assert(s@.take(len as int) =~= s@);
    }
    n
}

} // verus!
