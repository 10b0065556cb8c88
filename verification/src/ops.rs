//! The mutating operations: create, insert, delete and replace.  Each works
//! on plain values — the path name for messages, the file's current content
//! — and returns the new content to write together with the confirmation
//! message, or the first violated precondition.

use vstd::prelude::*;
use vstd::string::StrSliceExecFns;
use vstd::string::StringExecFns;
use crate::errors::EditorError;
use crate::lines::count_char;
use crate::lines::count_char_in;
use crate::lines::join_lines;
use crate::lines::lines_of;
use crate::lines::split_lines;
use crate::lines::unlines;
use crate::lines::lemma_lines_of_clean;
use crate::lines::lemma_lines_of_unlines;
use crate::replace::first_occ;
use crate::replace::interleave_exec;
use crate::replace::occ_count;
use crate::replace::pattern_compile_error;
use crate::replace::pattern_first_prefix;
use crate::replace::pattern_match_count;
use crate::replace::pattern_replace_all;
use crate::replace::count_occurrences;
use crate::replace::find_first_occurrence;
use crate::replace::regex_compile_check;
use crate::replace::regex_count_matches;
use crate::replace::regex_prefix_of_first_match;
use crate::replace::regex_replace_all;
use crate::replace::replace_all;
use crate::replace::replace_literal;
use crate::snippet::snippet_of;
use crate::snippet::snippet_around;
use crate::strings::dec_rep;
use crate::strings::int_rep;
use crate::strings::i64_to_string;
use crate::strings::usize_to_string;

verus! {

/// What a successful operation hands back: the confirmation message, and
/// the full new file content to persist, if the operation writes at all.
/// An error carries no outcome, so a failed call leaves the file untouched.
pub struct EditOutcome {
    pub message: String,
    pub new_content: Option<String>,
}

pub open spec fn created_message(path: Seq<char>) -> Seq<char> {
    "File created successfully at: "@ + path
}

/// Prepares the creation of a new file: the text is written verbatim.
pub fn create(path: &str, file_text: &str) -> (r: EditOutcome)
    ensures
        r.message@ == created_message(path@),
        r.new_content matches Some(c) && c@ == file_text@,
{
    let mut m = String::from_str("File created successfully at: ");
    m.append(path);
    EditOutcome { message: m, new_content: Some(file_text.to_owned()) }
}

pub open spec fn bad_insert_line_message(line: int, n: nat) -> Seq<char> {
    "Invalid `insert_line` parameter: "@ + int_rep(line)
        + ". It should be within the range of lines of the file: [0, "@ + dec_rep(n) + "]"@
}

/// The message of a successful insert.
pub open spec fn edited_message(path: Seq<char>, snippet: Seq<char>) -> Seq<char> {
    "The file "@ + path
        + " has been edited.\nHere's the result of running `cat -n` on a snippet:\n"@ + snippet
        + "\nReview the changes and make sure they are as expected (correct indentation, no duplicate lines, etc). Edit the file again if necessary."@
}

/// What inserting returns: with a 0-based position within `[0, line
/// count]`, the new line is spliced in and the file rewritten with one
/// trailing newline; outside it, the violated interval is named.
pub open spec fn insert_result_matches(
    r: Result<EditOutcome, EditorError>,
    path: Seq<char>,
    content: Seq<char>,
    insert_line: int,
    new_str: Seq<char>,
) -> bool {
    let lines = lines_of(content);
    if 0 <= insert_line <= lines.len() {
        let new_lines = lines.insert(insert_line, new_str);
        r matches Ok(o) && (o.message@ == edited_message(
            path,
            snippet_of(new_lines, (insert_line + 1) as nat, 0),
        ) && (o.new_content matches Some(c) && c@ == unlines(new_lines)))
    } else {
        r matches Err(EditorError::InvalidRange(m)) && m@ == bad_insert_line_message(
            insert_line,
            lines.len(),
        )
    }
}

/// Splices a new line at a 0-based position.
pub fn insert(path: &str, content: &str, insert_line: i32, new_str: &str) -> (r: Result<
    EditOutcome,
    EditorError,
>)
    ensures
        insert_result_matches(r, path@, content@, insert_line as int, new_str@),
{
    let mut lines = split_lines(content);
    let n = lines.len();
    if insert_line < 0 || (insert_line as usize) > n {
        let mut m = String::from_str("Invalid `insert_line` parameter: ");
        let lv = i64_to_string(insert_line as i64);
        m.append(lv.as_str());
        m.append(". It should be within the range of lines of the file: [0, ");
        let nv = usize_to_string(n);
        m.append(nv.as_str());
        m.append("]");
        proof {
            assert(m@ =~= bad_insert_line_message(insert_line as int, lines_of(content@).len()));
        }
        return Err(EditorError::InvalidRange(m));
    }
    let idx = insert_line as usize;
    let ns = new_str.to_owned();
    let ghost nsg = ns;
    let ghost prev_vec = lines@;
    let ghost prev = lines.deep_view();
    lines.insert(idx, ns);
    proof {
        prev_vec.insert_ensures(idx as int, nsg);
        prev.insert_ensures(idx as int, new_str@);
        assert forall|k: int| 0 <= k < lines.deep_view().len() implies lines.deep_view()[k]
            == prev.insert(idx as int, new_str@)[k] by {
            assert(lines.deep_view()[k] == lines@[k]@);
            assert(forall|j: int| 0 <= j < prev_vec.len() ==> prev[j] == prev_vec[j]@);
        }
        assert(lines.deep_view() =~= prev.insert(idx as int, new_str@));
    }
    let new_content = join_lines(&lines);
    let snip = snippet_around(&lines, idx + 1, 0);
    let mut m = String::from_str("The file ");
    m.append(path);
    m.append(" has been edited.\nHere's the result of running `cat -n` on a snippet:\n");
    m.append(snip.as_str());
    m.append(
        "\nReview the changes and make sure they are as expected (correct indentation, no duplicate lines, etc). Edit the file again if necessary.",
    );
    proof {
        assert(m@ =~= edited_message(
            path@,
            snippet_of(lines_of(content@).insert(insert_line as int, new_str@), (insert_line
                + 1) as nat, 0),
        ));
    }
    Ok(EditOutcome { message: m, new_content: Some(new_content) })
}

pub open spec fn delete_range_shape_message() -> Seq<char> {
    "delete_range must be an array with exactly 2 elements: [start_line, end_line]"@
}

pub open spec fn bad_delete_range_message(start: int, end: int, n: nat) -> Seq<char> {
    "Invalid delete_range: ["@ + int_rep(start) + ", "@ + int_rep(end)
        + "]. Line numbers should be within the range of lines in the file (1-"@ + dec_rep(n)
        + ") and start <= end."@
}

pub open spec fn deleted_message(path: Seq<char>, start: int, end: int, snippet: Seq<char>) -> Seq<
    char,
> {
    "The file "@ + path + " has been edited. Deleted lines "@ + int_rep(start) + "-"@ + int_rep(
        end,
    ) + ".\nHere's the result of running `cat -n` on a snippet around the edit:\n"@ + snippet
        + "\nReview the changes and make sure they are as expected."@
}

/// The lines left after deleting the 1-based inclusive range `[start, end]`
/// (`end` already clamped to the line count).
pub open spec fn delete_lines(lines: Seq<Seq<char>>, start: int, end: int) -> Seq<Seq<char>> {
    lines.take(start - 1) + lines.skip(end)
}

/// What deleting returns: a 1-based inclusive range with both bounds at
/// least one, `start <= end`, `start` within the file; `end` is clamped to
/// the line count.  A violated bound fails before anything is written.
pub open spec fn delete_result_matches(
    r: Result<EditOutcome, EditorError>,
    path: Seq<char>,
    content: Seq<char>,
    range: Seq<i32>,
) -> bool {
    let lines = lines_of(content);
    if range.len() != 2 {
        r matches Err(EditorError::InvalidRange(m)) && m@ == delete_range_shape_message()
    } else {
        let start = range[0] as int;
        let end = range[1] as int;
        if start < 1 || end < 1 || start > end || start > lines.len() {
            r matches Err(EditorError::InvalidRange(m)) && m@ == bad_delete_range_message(
                start,
                end,
                lines.len(),
            )
        } else {
            let end_c = if end > lines.len() {
                lines.len() as int
            } else {
                end
            };
            let new_lines = delete_lines(lines, start, end_c);
            r matches Ok(o) && (o.message@ == deleted_message(
                path,
                start,
                end,
                snippet_of(new_lines, start as nat, 0),
            ) && (o.new_content matches Some(c) && c@ == unlines(new_lines)))
        }
    }
}

/// Removes a 1-based inclusive range of lines.
pub fn delete(path: &str, content: &str, delete_range: &Vec<i32>) -> (r: Result<
    EditOutcome,
    EditorError,
>)
    ensures
        delete_result_matches(r, path@, content@, delete_range@),
{
    if delete_range.len() != 2 {
        return Err(
            EditorError::InvalidRange(
                String::from_str(
                    "delete_range must be an array with exactly 2 elements: [start_line, end_line]",
                ),
            ),
        );
    }
    let start = delete_range[0];
    let end = delete_range[1];
    let lines = split_lines(content);
    let n = lines.len();
    if start < 1 || end < 1 || start > end || (start as usize) > n {
        let mut m = String::from_str("Invalid delete_range: [");
        let sv = i64_to_string(start as i64);
        m.append(sv.as_str());
        m.append(", ");
        let ev = i64_to_string(end as i64);
        m.append(ev.as_str());
        m.append("]. Line numbers should be within the range of lines in the file (1-");
        let nv = usize_to_string(n);
        m.append(nv.as_str());
        m.append(") and start <= end.");
        proof {
            assert(m@ =~= bad_delete_range_message(
                start as int,
                end as int,
                lines_of(content@).len(),
            ));
        }
        return Err(EditorError::InvalidRange(m));
    }
    let start_idx = (start as usize) - 1;
    let end_idx = if (end as usize) > n {
        n
    } else {
        end as usize
    };
    let mut new_lines: Vec<String> = Vec::new();
    let mut i: usize = 0;
    while i < start_idx
        invariant
            i <= start_idx,
            start_idx < n,
            n == lines@.len(),
            lines.deep_view().len() == n,
            new_lines.deep_view() =~= lines.deep_view().take(i as int),
        decreases start_idx - i,
    {
        let ghost before = new_lines.deep_view();
        new_lines.push(lines[i].clone());
        proof {
            assert(lines.deep_view()[i as int] == lines@[i as int]@);
            assert(new_lines.deep_view() =~= before.push(lines.deep_view()[i as int]));
            assert(lines.deep_view().take(i + 1) =~= lines.deep_view().take(i as int).push(
                lines.deep_view()[i as int],
            ));
        }
        i += 1;
    }
    let mut j: usize = end_idx;
    while j < n
        invariant
            end_idx <= j <= n,
            n == lines@.len(),
            lines.deep_view().len() == n,
            start_idx < n,
            new_lines.deep_view() =~= lines.deep_view().take(start_idx as int) + lines.deep_view()
                .subrange(end_idx as int, j as int),
        decreases n - j,
    {
        let ghost before = new_lines.deep_view();
        new_lines.push(lines[j].clone());
        proof {
            assert(lines.deep_view()[j as int] == lines@[j as int]@);
            assert(new_lines.deep_view() =~= before.push(lines.deep_view()[j as int]));
            assert(lines.deep_view().take(start_idx as int) + lines.deep_view().subrange(
                end_idx as int,
                j + 1,
            ) =~= before.push(lines.deep_view()[j as int]));
        }
        j += 1;
    }
    proof {
        assert(lines.deep_view().subrange(end_idx as int, n as int) =~= lines.deep_view().skip(
            end_idx as int,
        ));
        assert(new_lines.deep_view() =~= delete_lines(
            lines_of(content@),
            start as int,
            end_idx as int,
        ));
    }
    let new_content = join_lines(&new_lines);
    let snip = snippet_around(&new_lines, start as usize, 0);
    let mut m = String::from_str("The file ");
    m.append(path);
    m.append(" has been edited. Deleted lines ");
    let sv = i64_to_string(start as i64);
    m.append(sv.as_str());
    m.append("-");
    let ev = i64_to_string(end as i64);
    m.append(ev.as_str());
    m.append(".\nHere's the result of running `cat -n` on a snippet around the edit:\n");
    m.append(snip.as_str());
    m.append("\nReview the changes and make sure they are as expected.");
    proof {
        let lines_spec = lines_of(content@);
        let end_c: int = if end > lines_spec.len() {
            lines_spec.len() as int
        } else {
            end as int
        };
        assert(end_c == end_idx as int);
        assert(m@ =~= deleted_message(
            path@,
            start as int,
            end as int,
            snippet_of(delete_lines(lines_spec, start as int, end_c), start as nat, 0),
        ));
    }
    Ok(EditOutcome { message: m, new_content: Some(new_content) })
}

/// The 1-based line on which the first literal occurrence of `old` sits.
pub open spec fn literal_anchor(content: Seq<char>, old: Seq<char>) -> nat {
    1 + count_char(content.take(first_occ(content, old)), '\n')
}

/// The message of a successful replacement: how many occurrences were
/// replaced, and a snippet around the first.
pub open spec fn replaced_message(
    path: Seq<char>,
    count: nat,
    old: Seq<char>,
    snippet: Seq<char>,
) -> Seq<char> {
    "The file "@ + path + " has been edited. Replaced "@ + dec_rep(count) + " occurrences of '"@
        + old
        + "'.\nHere's the result of running `cat -n` on a snippet:\n"@ + snippet
        + "\nReview the changes and make sure they are as expected. Edit the file again if necessary."@
}

/// What a literal replacement returns.  Zero occurrences fail; more than
/// one fails unless multi-replacement was allowed, naming the count; else
/// every occurrence is replaced and the snippet sits on the first match's
/// line.
pub open spec fn str_replace_literal_matches(
    r: Result<EditOutcome, EditorError>,
    path: Seq<char>,
    content: Seq<char>,
    old: Seq<char>,
    new: Seq<char>,
    allow_multi: bool,
) -> bool {
    let count = occ_count(content, old);
    if count == 0 {
        r matches Err(EditorError::NoMatch { use_pattern }) && use_pattern == false
    } else if count > 1 && !allow_multi {
        r matches Err(EditorError::AmbiguousMatch { use_pattern, count: c }) && use_pattern
            == false && c == count
    } else {
        let new_content = replace_all(content, old, new);
        r matches Ok(o) && (o.message@ == replaced_message(
            path,
            count,
            old,
            snippet_of(lines_of(new_content), literal_anchor(content, old), count_char(new, '\n')),
        ) && (o.new_content matches Some(c) && c@ == new_content))
    }
}

/// What a pattern replacement returns: an invalid pattern fails with the
/// compiler's message; the zero/ambiguous/multi policy is that of the
/// literal mode, over the pattern's match count.
pub open spec fn str_replace_pattern_matches(
    r: Result<EditOutcome, EditorError>,
    path: Seq<char>,
    content: Seq<char>,
    pat: Seq<char>,
    new: Seq<char>,
    allow_multi: bool,
) -> bool {
    match pattern_compile_error(pat) {
        Some(msg) => r matches Err(EditorError::InvalidPattern(m)) && m@ == msg,
        None => {
            let count = pattern_match_count(pat, content);
            if count == 0 {
                r matches Err(EditorError::NoMatch { use_pattern }) && use_pattern == true
            } else if count > 1 && !allow_multi {
                r matches Err(EditorError::AmbiguousMatch { use_pattern, count: c }) && use_pattern
                    == true && c == count
            } else {
                let new_content = pattern_replace_all(pat, content, new);
                let anchor = 1 + count_char(pattern_first_prefix(pat, content), '\n');
                r matches Ok(o) && (o.message@ == replaced_message(
                    path,
                    count,
                    pat,
                    snippet_of(lines_of(new_content), anchor, count_char(new, '\n')),
                ) && (o.new_content matches Some(c) && c@ == new_content))
            }
        },
    }
}

pub open spec fn str_replace_result_matches(
    r: Result<EditOutcome, EditorError>,
    path: Seq<char>,
    content: Seq<char>,
    old: Seq<char>,
    new: Seq<char>,
    allow_multi: bool,
    use_pattern: bool,
) -> bool {
    if use_pattern {
        str_replace_pattern_matches(r, path, content, old, new, allow_multi)
    } else {
        str_replace_literal_matches(r, path, content, old, new, allow_multi)
    }
}

fn replaced_message_exec(path: &str, count: usize, old: &str, snippet: &str) -> (m: String)
    ensures
        m@ == replaced_message(path@, count as nat, old@, snippet@),
{
    let mut m = String::from_str("The file ");
    m.append(path);
    m.append(" has been edited. Replaced ");
    let cv = usize_to_string(count);
    m.append(cv.as_str());
    m.append(" occurrences of '");
    m.append(old);
    m.append("'.\nHere's the result of running `cat -n` on a snippet:\n");
    m.append(snippet);
    m.append(
        "\nReview the changes and make sure they are as expected. Edit the file again if necessary.",
    );
    proof {
        assert(m@ =~= replaced_message(path@, count as nat, old@, snippet@));
    }
    m
}

/// Replaces occurrences of a literal string or a pattern, enforcing the
/// single-match-by-default policy.
pub fn str_replace(
    path: &str,
    content: &str,
    old_str: &str,
    new_str: &str,
    allow_multi: bool,
    use_pattern: bool,
) -> (r: Result<EditOutcome, EditorError>)
    requires
        content@.len() < usize::MAX,
        new_str@.len() <= usize::MAX - 8,
    ensures
        str_replace_result_matches(
            r,
            path@,
            content@,
            old_str@,
            new_str@,
            allow_multi,
            use_pattern,
        ),
{
    if use_pattern {
        match regex_compile_check(old_str) {
            Some(m) => {
                return Err(EditorError::InvalidPattern(m));
            },
            None => {},
        }
        let count = match regex_count_matches(old_str, content) {
            Some(c) => c,
            None => unreached(),
        };
        if count == 0 {
            return Err(EditorError::NoMatch { use_pattern: true });
        }
        if count > 1 && !allow_multi {
            return Err(EditorError::AmbiguousMatch { use_pattern: true, count });
        }
        let prefix = match regex_prefix_of_first_match(old_str, content) {
            Some(p) => p,
            None => unreached(),
        };
        let new_content = match regex_replace_all(old_str, content, new_str) {
            Some(s) => s,
            None => unreached(),
        };
        proof {
            assert(prefix@.len() <= content@.len());
        }
        let anchor = 1 + count_char_in(prefix.as_str(), '\n');
        let extra = count_char_in(new_str, '\n');
        let new_lines = split_lines(new_content.as_str());
        let snip = snippet_around(&new_lines, anchor, extra);
        let m = replaced_message_exec(path, count, old_str, snip.as_str());
        Ok(EditOutcome { message: m, new_content: Some(new_content) })
    } else {
        let count = count_occurrences(content, old_str);
        if count == 0 {
            return Err(EditorError::NoMatch { use_pattern: false });
        }
        if count > 1 && !allow_multi {
            return Err(EditorError::AmbiguousMatch { use_pattern: false, count });
        }
        let plen = old_str.unicode_len();
        let new_content;
        let anchor;
        if plen == 0 {
            new_content = interleave_exec(content, new_str);
            anchor = 1;
            proof {
                assert(content@.take(first_occ(content@, old_str@)) =~= Seq::<char>::empty());
            }
        } else {
            let p = match find_first_occurrence(content, old_str) {
                Some(p) => p,
                None => unreached(),
            };
            proof {
                crate::replace::lemma_first_occ_valid(content@, old_str@);
            }
            let pre = content.substring_char(0, p);
            proof {
                assert(pre@ =~= content@.take(p as int));
            }
            anchor = 1 + count_char_in(pre, '\n');
            new_content = replace_literal(content, old_str, new_str);
        }
        let extra = count_char_in(new_str, '\n');
        let new_lines = split_lines(new_content.as_str());
        let snip = snippet_around(&new_lines, anchor, extra);
        let m = replaced_message_exec(path, count, old_str, snip.as_str());
        Ok(EditOutcome { message: m, new_content: Some(new_content) })
    }
}

/// Inserting a newline-free line at 0-based position `line` and then
/// deleting 1-based line `line + 1` restores the content, up to
/// trailing-newline normalization.
pub proof fn lemma_insert_then_delete(content: Seq<char>, line: int, new_str: Seq<char>)
    requires
        0 <= line <= lines_of(content).len(),
        !new_str.contains('\n'),
    ensures
        ({
            let after = lines_of(unlines(lines_of(content).insert(line, new_str)));
            unlines(delete_lines(after, line + 1, line + 1)) == unlines(lines_of(content))
        }),
{
    let lines = lines_of(content);
    let inserted = lines.insert(line, new_str);
    lemma_lines_of_clean(content);
    lines.insert_ensures(line, new_str);
    assert(forall|i: int| 0 <= i < inserted.len() ==> !(#[trigger] inserted[i]).contains('\n'));
    lemma_lines_of_unlines(inserted);
    assert(lines_of(unlines(inserted)) == inserted);
    assert(delete_lines(inserted, line + 1, line + 1) =~= lines);
}

} // verus!
