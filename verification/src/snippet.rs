//! The context renderer: numbered excerpts of file lines around an edit,
//! in `cat -n` style with a six-column right-aligned line number and a tab.

use vstd::prelude::*;
use vstd::string::StrSliceExecFns;
use vstd::string::StringExecFns;
use crate::strings::push_char;
use crate::strings::usize_to_string;
use crate::strings::dec_rep;

verus! {

/// `s` padded on the left with spaces to at least `w` characters.
pub open spec fn pad_left(s: Seq<char>, w: nat) -> Seq<char> {
    if s.len() >= w {
        s
    } else {
        Seq::new((w - s.len()) as nat, |i: int| ' ') + s
    }
}

/// One rendered line: the 1-based line number right-aligned in six columns,
/// a tab, the line, and a newline.
pub open spec fn numbered_line(n: nat, line: Seq<char>) -> Seq<char> {
    pad_left(dec_rep(n), 6) + seq!['\t'] + line + seq!['\n']
}

/// At most `count` rendered lines starting at 1-based line `first`, stopping
/// at the end of the file.
pub open spec fn render_window(lines: Seq<Seq<char>>, first: nat, count: nat) -> Seq<char>
    decreases count,
{
    if count == 0 || first == 0 || first > lines.len() {
        Seq::empty()
    } else {
        numbered_line(first, lines[first - 1]) + render_window(lines, first + 1, (count - 1) as nat)
    }
}

/// Where a snippet around 1-based line `anchor` starts: four lines above it,
/// clamped to the first line.
pub open spec fn snippet_start(anchor: nat) -> nat {
    if anchor > 4 {
        (anchor - 4) as nat
    } else {
        1
    }
}

/// The snippet around 1-based line `anchor`: eight lines plus one per
/// `extra`, starting four lines above the anchor.
pub open spec fn snippet_of(lines: Seq<Seq<char>>, anchor: nat, extra: nat) -> Seq<char> {
    render_window(lines, snippet_start(anchor), 8 + extra)
}

/// Renders `n` right-aligned in six columns.
pub fn pad_number(n: usize) -> (r: String)
    ensures
        r@ == pad_left(dec_rep(n as nat), 6),
{
    let d = usize_to_string(n);
    let len = d.as_str().unicode_len();
    if len >= 6 {
        return d;
    }
    let mut r = String::new();
    let mut i: usize = 0;
    while i < 6 - len
        invariant
            i <= 6 - len,
            len == dec_rep(n as nat).len(),
            len < 6,
            r@.len() == i,
            forall|j: int| 0 <= j < i ==> r@[j] == ' ',
        decreases 6 - len - i,
    {
        push_char(&mut r, ' ');
        i += 1;
    }
    r.append(d.as_str());
    proof {
        assert(r@ =~= pad_left(dec_rep(n as nat), 6));
    }
    r
}

/// Renders one numbered line.
pub fn render_numbered_line(n: usize, line: &str) -> (r: String)
    ensures
        r@ == numbered_line(n as nat, line@),
{
    let mut r = pad_number(n);
    push_char(&mut r, '\t');
    r.append(line);
    push_char(&mut r, '\n');
    proof {
        assert(r@ =~= numbered_line(n as nat, line@));
    }
    r
}

/// Renders at most `count` numbered lines starting at 1-based line `first`.
pub fn render_window_exec(lines: &Vec<String>, first: usize, count: usize) -> (r: String)
    requires
        first >= 1,
    ensures
        r@ == render_window(lines.deep_view(), first as nat, count as nat),
{
    let mut r = String::new();
    let mut off = first - 1;
    let mut left = count;
    while left > 0 && off < lines.len()
        invariant
            lines.deep_view().len() == lines@.len(),
            render_window(lines.deep_view(), first as nat, count as nat) == r@ + render_window(
                lines.deep_view(),
                (off + 1) as nat,
                left as nat,
            ),
        decreases left,
    {
        let line = render_numbered_line(off + 1, lines[off].as_str());
        r.append(line.as_str());
        proof {
            assert(lines.deep_view()[off as int] == lines@[off as int]@);
        }
        off += 1;
        left -= 1;
    }
    proof {
        assert(render_window(lines.deep_view(), (off + 1) as nat, left as nat)
            == Seq::<char>::empty());
        assert(r@ + Seq::<char>::empty() =~= r@);
    }
    r
}

/// Renders the snippet around 1-based line `anchor`.
pub fn snippet_around(lines: &Vec<String>, anchor: usize, extra: usize) -> (r: String)
    requires
        anchor >= 1,
        extra <= usize::MAX - 8,
    ensures
        r@ == snippet_of(lines.deep_view(), anchor as nat, extra as nat),
{
    let first = if anchor > 4 {
        anchor - 4
    } else {
        1
    };
    render_window_exec(lines, first, 8 + extra)
}

} // verus!
