//! Recovery of structured tool calls from free-form model text.
//!
//! A response either carries patch blocks (`CHANGE:` …) — then exactly those
//! are returned — or it is scanned line by line for simple calls
//! (`read_file(..)`, `execute_command: ".."`).  The result is de-duplicated,
//! preserving first-seen order.

use vstd::prelude::*;
use vstd::string::*;
use crate::text::{contains_sub, content_lines, find, find_char, find_char_from, find_sub,
    has_char, is_space, join_sep, lemma_find_char_from, lemma_find_from, lemma_has_char_concat,
    lemma_join_sep_lines, lemma_join_sep_snoc, lemma_lines_concat, lemma_lines_single,
    lemma_replace_id_no_char, lemma_trimmed_ends, match_at,
    no_cr_nl, replace, replace_spec, split_lines, spec_lines, starts_with, str_starts_with,
    str_views, trim, trim_char, trim_char_spec, trim_end_spec, trim_spec, trim_start_spec};

verus! {

pub open spec fn name_read_file() -> Seq<char> {
    "read_file"@
}

pub open spec fn name_execute_command() -> Seq<char> {
    "execute_command"@
}

pub open spec fn name_write_file_delta() -> Seq<char> {
    "write_file_delta"@
}

/// Fenced code-block markers are stripped before any scanning.
pub open spec fn spec_clean(text: Seq<char>) -> Seq<char> {
    replace_spec(
        replace_spec(
            replace_spec(
                replace_spec(text, "```rust"@, Seq::empty()),
                "```sh"@, Seq::empty()),
            "```bash"@, Seq::empty()),
        "```"@, Seq::empty())
}

/// First line index at or after `i` whose trimmed text starts with `marker`,
/// or `lines.len()` when there is none.
pub open spec fn scan_marker(lines: Seq<Seq<char>>, i: int, marker: Seq<char>) -> int
    decreases lines.len() - i,
{
    if i < 0 || i >= lines.len() {
        lines.len() as int
    } else if starts_with(trim_spec(lines[i]), marker) {
        i
    } else {
        scan_marker(lines, i + 1, marker)
    }
}

pub proof fn lemma_scan_marker(lines: Seq<Seq<char>>, i: int, marker: Seq<char>)
    requires
        0 <= i <= lines.len(),
    ensures
        i <= scan_marker(lines, i, marker) <= lines.len(),
        scan_marker(lines, i, marker) < lines.len()
            ==> starts_with(trim_spec(lines[scan_marker(lines, i, marker)]), marker),
        forall|j: int| i <= j < scan_marker(lines, i, marker)
            ==> !starts_with(trim_spec(lines[j]), marker),
    decreases lines.len() - i,
{
    if i < lines.len() && !starts_with(trim_spec(lines[i]), marker) {
        lemma_scan_marker(lines, i + 1, marker);
    }
}

/// The serialized form of a patch request: path, old content and new content.
pub open spec fn delta_param(path: Seq<char>, cur: Seq<char>, nw: Seq<char>) -> Seq<char> {
    path + ":::"@ + cur + seq!['\n'] + nw
}

/// The tool calls carried by the patch blocks of `lines`, scanning from line
/// `i`: one `write_file_delta` call per well-formed block, in source order.
/// The path is the trimmed remainder of the `CHANGE:` line after the keyword;
/// the contents are the raw lines between the markers, joined with single
/// newlines, so that only the blank introduced by each delimiter's own line
/// ending goes.  A block whose remaining markers are missing ends the scan
/// with nothing emitted for it.
pub open spec fn spec_delta_tools(lines: Seq<Seq<char>>, i: int) -> Seq<(Seq<char>, Seq<char>)>
    decreases lines.len() - i when 0 <= i via spec_delta_tools_decreases
{
    if i >= lines.len() {
        Seq::empty()
    } else if !starts_with(trim_spec(lines[i]), "CHANGE:"@) {
        spec_delta_tools(lines, i + 1)
    } else {
        let path = trim_spec(trim_spec(lines[i]).subrange("CHANGE:"@.len() as int,
            trim_spec(lines[i]).len() as int));
        let a = scan_marker(lines, i + 1, "<<<<<<< CURRENT"@);
        if a >= lines.len() {
            Seq::empty()
        } else {
            let b = scan_marker(lines, a + 1, "======="@);
            if b >= lines.len() {
                Seq::empty()
            } else {
                let c = scan_marker(lines, b + 1, ">>>>>>> NEW"@);
                if c >= lines.len() {
                    Seq::empty()
                } else {
                    let cur = join_sep(lines.subrange(a + 1, b));
                    let nw = join_sep(lines.subrange(b + 1, c));
                    seq![(name_write_file_delta(), delta_param(path, cur, nw))]
                        + spec_delta_tools(lines, c + 1)
                }
            }
        }
    }
}

#[via_fn]
proof fn spec_delta_tools_decreases(lines: Seq<Seq<char>>, i: int) {
    if 0 <= i < lines.len() && starts_with(trim_spec(lines[i]), "CHANGE:"@) {
        let a = scan_marker(lines, i + 1, "<<<<<<< CURRENT"@);
        lemma_scan_marker(lines, i + 1, "<<<<<<< CURRENT"@);
        if a < lines.len() {
            let b = scan_marker(lines, a + 1, "======="@);
            lemma_scan_marker(lines, a + 1, "======="@);
            if b < lines.len() {
                lemma_scan_marker(lines, b + 1, ">>>>>>> NEW"@);
            }
        }
    }
}

pub open spec fn pair_views(v: Seq<(String, String)>) -> Seq<(Seq<char>, Seq<char>)> {
    Seq::new(v.len(), |k: int| (v[k].0@, v[k].1@))
}

/// First line index at or after `from` whose trimmed text starts with `marker`.
fn scan_marker_line(lines: &Vec<String>, from: usize, marker: &str) -> (r: usize)
    requires
        from <= lines@.len(),
    ensures
        r == scan_marker(str_views(lines@), from as int, marker@),
        from <= r <= lines@.len(),
{
    proof {
        lemma_scan_marker(str_views(lines@), from as int, marker@);
    }
    let n = lines.len();
    let mut j = from;
    while j < n
        invariant
            from <= j <= n,
            n == lines@.len(),
            scan_marker(str_views(lines@), from as int, marker@)
                == scan_marker(str_views(lines@), j as int, marker@),
        decreases n - j,
    {
        let t = trim(lines[j].as_str());
        proof {
            assert(str_views(lines@)[j as int] == lines@[j as int]@);
        }
        if str_starts_with(t, marker) {
            return j;
        }
        j = j + 1;
    }
    n
}

/// The raw lines `lines[from..to]`, joined with single newline separators.
fn join_lines_range(lines: &Vec<String>, from: usize, to: usize) -> (r: String)
    requires
        from <= to <= lines@.len(),
    ensures
        r@ == join_sep(str_views(lines@).subrange(from as int, to as int)),
{
    let mut out = String::new();
    let mut k = from;
    proof {
        reveal_strlit("\n");
        assert(str_views(lines@).subrange(from as int, from as int)
            =~= Seq::<Seq<char>>::empty());
    }
    while k < to
        invariant
            from <= k <= to,
            to <= lines@.len(),
            out@ == join_sep(str_views(lines@).subrange(from as int, k as int)),
            "\n"@ =~= seq!['\n'],
        decreases to - k,
    {
        if k > from {
            out.append("\n");
        }
        out.append(lines[k].as_str());
        proof {
            let lv = str_views(lines@);
            assert(lv.subrange(from as int, k + 1)
                =~= lv.subrange(from as int, k as int).push(lv[k as int]));
            lemma_join_sep_snoc(lv.subrange(from as int, k as int), lv[k as int]);
            assert(lv[k as int] == lines@[k as int]@);
        }
        k = k + 1;
    }
    out
}

/// The patch-block tool calls of `lines`, scanning from line `i`.
fn delta_tools_from(lines: &Vec<String>, i: usize) -> (r: Vec<(String, String)>)
    requires
        i <= lines@.len(),
    ensures
        pair_views(r@) == spec_delta_tools(str_views(lines@), i as int),
    decreases lines@.len() - i,
{
    let ghost lv = str_views(lines@);
    let n = lines.len();
    if i >= n {
        let out: Vec<(String, String)> = Vec::new();
        proof {
            assert(pair_views(out@) =~= spec_delta_tools(lv, i as int));
        }
        return out;
    }
    let t = trim(lines[i].as_str());
    proof {
        assert(lv[i as int] == lines@[i as int]@);
    }
    if !str_starts_with(t, "CHANGE:") {
        return delta_tools_from(lines, i + 1);
    }
    proof {
        reveal_strlit("CHANGE:");
        assert("CHANGE:"@.len() == 7);
    }
    let t_len = t.unicode_len();
    let path = trim(t.substring_char(7, t_len));
    let a = scan_marker_line(lines, i + 1, "<<<<<<< CURRENT");
    if a >= n {
        let out: Vec<(String, String)> = Vec::new();
        proof {
            assert(pair_views(out@) =~= spec_delta_tools(lv, i as int));
        }
        return out;
    }
    let b = scan_marker_line(lines, a + 1, "=======");
    if b >= n {
        let out: Vec<(String, String)> = Vec::new();
        proof {
            assert(pair_views(out@) =~= spec_delta_tools(lv, i as int));
        }
        return out;
    }
    let c = scan_marker_line(lines, b + 1, ">>>>>>> NEW");
    if c >= n {
        let out: Vec<(String, String)> = Vec::new();
        proof {
            assert(pair_views(out@) =~= spec_delta_tools(lv, i as int));
        }
        return out;
    }
    let cur = join_lines_range(lines, a + 1, b);
    let nw = join_lines_range(lines, b + 1, c);
    let mut param = path.to_owned();
    param.append(":::");
    param.append(cur.as_str());
    param.append("\n");
    param.append(nw.as_str());
    proof {
        reveal_strlit("\n");
        assert("\n"@ =~= seq!['\n']);
        assert(param@ == trim_spec(trim_spec(lv[i as int]).subrange("CHANGE:"@.len() as int,
            trim_spec(lv[i as int]).len() as int))
            + ":::"@ + join_sep(lv.subrange(a + 1, b as int))
            + seq!['\n'] + join_sep(lv.subrange(b + 1, c as int)));
    }
    let rest = delta_tools_from(lines, c + 1);
    let mut out = rest;
    out.insert(0, (String::from_str("write_file_delta"), param));
    proof {
        assert(pair_views(out@) =~= seq![(name_write_file_delta(),
            trim_spec(trim_spec(lv[i as int]).subrange("CHANGE:"@.len() as int,
                trim_spec(lv[i as int]).len() as int))
            + ":::"@ + join_sep(lv.subrange(a + 1, b as int))
            + seq!['\n'] + join_sep(lv.subrange(b + 1, c as int)))]
            + spec_delta_tools(lv, c + 1));
    }
    out
}

/// A trimmed line that carries no simple call: empty, or itself one of the
/// patch-block delimiters.
pub open spec fn is_delimiter_line(t: Seq<char>) -> bool {
    ||| t.len() == 0
    ||| starts_with(t, "CHANGE:"@)
    ||| starts_with(t, "<<<<<<<"@)
    ||| starts_with(t, "======="@)
    ||| starts_with(t, ">>>>>>>"@)
}

/// The text between the first pair of matching quotes (double or single) at
/// the start of the trimmed text.
pub open spec fn between_quotes(t0: Seq<char>) -> Option<Seq<char>> {
    let t = trim_spec(t0);
    if t.len() > 0 && t[0] == '"' {
        let e = find_char_from(t, '"', 1);
        if e >= 0 {
            Some(t.subrange(1, e))
        } else {
            None
        }
    } else if t.len() > 0 && t[0] == '\'' {
        let e = find_char_from(t, '\'', 1);
        if e >= 0 {
            Some(t.subrange(1, e))
        } else {
            None
        }
    } else {
        None
    }
}

/// Parameter of the label syntax `tool: "arg"`.  An empty quoted argument
/// is dropped.
pub open spec fn tool_param_colon(line: Seq<char>, tool: Seq<char>) -> Option<Seq<char>> {
    let fc = find_sub(line, tool.push(':'));
    if fc >= 0 {
        match between_quotes(line.subrange(fc + tool.len() + 1, line.len() as int)) {
            Some(p) => if p.len() > 0 {
                Some(p)
            } else {
                None
            },
            None => None,
        }
    } else {
        None
    }
}

/// Parameter of a simple call on one line: the function-call syntax
/// `tool("arg")` (quote characters stripped), with the label syntax
/// `tool: "arg"` as fallback.  An empty extracted parameter is dropped.
pub open spec fn tool_param(line: Seq<char>, tool: Seq<char>) -> Option<Seq<char>> {
    let fp = find_sub(line, tool.push('('));
    let e = find_char_from(line, ')', fp);
    let raw = line.subrange(fp + tool.len() + 1, e);
    let p = trim_char_spec(trim_char_spec(raw, '"'), '\'');
    if fp >= 0 && e >= fp + tool.len() + 1 && p.len() > 0 {
        Some(p)
    } else {
        tool_param_colon(line, tool)
    }
}

/// The marker of the tolerated non-standard command syntax.
pub open spec fn code_marker() -> Seq<char> {
    "code{\"command\":\""@
}

/// Parameter of the non-standard bracket-wrapped command syntax: the text
/// after `code_marker()` up to the next double quote.
pub open spec fn code_param(line: Seq<char>) -> Option<Seq<char>> {
    let f = find_sub(line, code_marker());
    let e = find_char_from(line, '"', f + code_marker().len());
    let p = line.subrange(f + code_marker().len(), e);
    if f >= 0 && e >= 0 && p.len() > 0 {
        Some(p)
    } else {
        None
    }
}

/// Parameter of an `execute_command` call: both standard syntaxes, then the
/// non-standard one.
pub open spec fn exec_command_param(line: Seq<char>) -> Option<Seq<char>> {
    if tool_param(line, name_execute_command()) is Some {
        tool_param(line, name_execute_command())
    } else {
        code_param(line)
    }
}

/// The at most one simple tool call a line yields: `read_file` first, then
/// `execute_command`.
pub open spec fn line_tool(line0: Seq<char>) -> Option<(Seq<char>, Seq<char>)> {
    let line = trim_spec(line0);
    if is_delimiter_line(line) {
        None
    } else if tool_param(line, name_read_file()) is Some {
        match tool_param(line, name_read_file()) {
            Some(p) => Some((name_read_file(), p)),
            None => None,
        }
    } else if exec_command_param(line) is Some {
        match exec_command_param(line) {
            Some(p) => Some((name_execute_command(), p)),
            None => None,
        }
    } else {
        None
    }
}

/// The simple tool calls of `lines[i..]`, in line order.
pub open spec fn spec_simple_tools(lines: Seq<Seq<char>>, i: int) -> Seq<(Seq<char>, Seq<char>)>
    decreases lines.len() - i,
{
    if i < 0 || i >= lines.len() {
        Seq::empty()
    } else {
        let rest = spec_simple_tools(lines, i + 1);
        match line_tool(lines[i]) {
            Some(t) => seq![t] + rest,
            None => rest,
        }
    }
}

/// The unique pairs of `s`, keeping the first occurrence of each, in order.
pub open spec fn dedup(s: Seq<(Seq<char>, Seq<char>)>) -> Seq<(Seq<char>, Seq<char>)>
    decreases s.len(),
{
    if s.len() == 0 {
        s
    } else {
        let pre = dedup(s.drop_last());
        if pre.contains(s.last()) {
            pre
        } else {
            pre.push(s.last())
        }
    }
}

/// What `extract_tools` returns: the patch-block calls if there are any,
/// otherwise the simple calls, de-duplicated either way.
pub open spec fn spec_extract_tools(text: Seq<char>) -> Seq<(Seq<char>, Seq<char>)> {
    let lines = spec_lines(spec_clean(text));
    let d = spec_delta_tools(lines, 0);
    if d.len() > 0 {
        dedup(d)
    } else {
        dedup(spec_simple_tools(lines, 0))
    }
}

/// Equivalent of the quote extraction of the label syntax.
pub fn extract_between_quotes(text: &str) -> (r: Option<String>)
    ensures
        r is Some <==> between_quotes(text@) is Some,
        r matches Some(p) ==> between_quotes(text@) matches Some(q) && p@ == q,
{
    let t = trim(text);
    let n = t.unicode_len();
    if n > 0 && t.get_char(0) == '"' {
        match find_char(t, '"', 1) {
            Some(e) => {
                proof {
                    lemma_find_char_from(t@, '"', 1);
                }
                Some(String::from_str(t.substring_char(1, e)))
            },
            None => None,
        }
    } else if n > 0 && t.get_char(0) == '\'' {
        match find_char(t, '\'', 1) {
            Some(e) => {
                proof {
                    lemma_find_char_from(t@, '\'', 1);
                }
                Some(String::from_str(t.substring_char(1, e)))
            },
            None => None,
        }
    } else {
        None
    }
}

/// Parameter of the label syntax `tool: "arg"`.  An empty quoted argument
/// is dropped.
fn extract_param_colon(line: &str, tool: &str) -> (r: Option<String>)
    ensures
        r is Some <==> tool_param_colon(line@, tool@) is Some,
        r matches Some(p) ==> tool_param_colon(line@, tool@) matches Some(q) && p@ == q,
{
    let pattern = String::from_str(tool).concat(":");
    proof {
        reveal_strlit(":");
        assert(pattern@ =~= tool@.push(':'));
    }
    match find(line, pattern.as_str(), 0) {
        Some(fc) => {
            proof {
                lemma_find_from(line@, pattern@, 0);
            }
            let tool_len = tool.unicode_len();
            let line_len = line.unicode_len();
            let rest = line.substring_char(fc + tool_len + 1, line_len);
            match extract_between_quotes(rest) {
                Some(p) => {
                    if p.as_str().unicode_len() > 0 {
                        Some(p)
                    } else {
                        None
                    }
                },
                None => None,
            }
        },
        None => None,
    }
}

/// Parameter of a simple call on one line: function-call syntax first, label
/// syntax as fallback.
pub fn extract_tool_param(line: &str, tool: &str) -> (r: Option<String>)
    ensures
        r is Some <==> tool_param(line@, tool@) is Some,
        r matches Some(p) ==> tool_param(line@, tool@) matches Some(q) && p@ == q,
{
    let pattern = String::from_str(tool).concat("(");
    proof {
        reveal_strlit("(");
        assert(pattern@ =~= tool@.push('('));
    }
    let tool_len = tool.unicode_len();
    let line_len = line.unicode_len();
    match find(line, pattern.as_str(), 0) {
        Some(fp) => {
            proof {
                lemma_find_from(line@, pattern@, 0);
                assert(fp + tool_len + 1 <= line_len);
            }
            match find_char(line, ')', fp) {
                Some(e) => {
                    proof {
                        lemma_find_char_from(line@, ')', fp as int);
                    }
                    if e >= fp + tool_len + 1 {
                        let raw = line.substring_char(fp + tool_len + 1, e);
                        let p1 = trim_char(raw, '"');
                        let p2 = trim_char(p1, '\'');
                        if p2.unicode_len() > 0 {
                            Some(String::from_str(p2))
                        } else {
                            extract_param_colon(line, tool)
                        }
                    } else {
                        extract_param_colon(line, tool)
                    }
                },
                None => extract_param_colon(line, tool),
            }
        },
        None => extract_param_colon(line, tool),
    }
}

/// Parameter of the non-standard bracket-wrapped command syntax.
fn extract_code_param(line: &str) -> (r: Option<String>)
    ensures
        r is Some <==> code_param(line@) is Some,
        r matches Some(p) ==> code_param(line@) matches Some(q) && p@ == q,
{
    let marker = "code{\"command\":\"";
    let marker_len = marker.unicode_len();
    let line_len = line.unicode_len();
    match find(line, marker, 0) {
        Some(f) => {
            proof {
                lemma_find_from(line@, marker@, 0);
                assert(f + marker_len <= line_len);
            }
            match find_char(line, '"', f + marker_len) {
                Some(e) => {
                    proof {
                        lemma_find_char_from(line@, '"', f + marker_len);
                    }
                    let p = line.substring_char(f + marker_len, e);
                    if p.unicode_len() > 0 {
                        Some(String::from_str(p))
                    } else {
                        None
                    }
                },
                None => None,
            }
        },
        None => None,
    }
}

/// The at most one simple tool call of one raw line.
fn extract_line_tool(line0: &str) -> (r: Option<(String, String)>)
    ensures
        r is Some <==> line_tool(line0@) is Some,
        r matches Some(t) ==> line_tool(line0@) matches Some(q)
            && t.0@ == q.0 && t.1@ == q.1,
{
    let t = trim(line0);
    if t.unicode_len() == 0 || str_starts_with(t, "CHANGE:")
        || str_starts_with(t, "<<<<<<<") || str_starts_with(t, "=======")
        || str_starts_with(t, ">>>>>>>") {
        return None;
    }
    match extract_tool_param(t, "read_file") {
        Some(p) => Some((String::from_str("read_file"), p)),
        None => {
            match extract_tool_param(t, "execute_command") {
                Some(p) => Some((String::from_str("execute_command"), p)),
                None => {
                    match extract_code_param(t) {
                        Some(p) => Some((String::from_str("execute_command"), p)),
                        None => None,
                    }
                },
            }
        },
    }
}

/// The simple tool calls of all lines, in line order.
fn simple_tools_of(lines: &Vec<String>) -> (r: Vec<(String, String)>)
    ensures
        pair_views(r@) == spec_simple_tools(str_views(lines@), 0),
{
    let ghost lv = str_views(lines@);
    let n = lines.len();
    let mut out: Vec<(String, String)> = Vec::new();
    let mut i: usize = 0;
    proof {
        assert(pair_views(out@) =~= Seq::<(Seq<char>, Seq<char>)>::empty());
        assert(spec_simple_tools(lv, 0) =~= pair_views(out@) + spec_simple_tools(lv, 0));
    }
    while i < n
        invariant
            0 <= i <= n,
            n == lines@.len(),
            lv == str_views(lines@),
            spec_simple_tools(lv, 0) == pair_views(out@) + spec_simple_tools(lv, i as int),
        decreases n - i,
    {
        proof {
            assert(lv[i as int] == lines@[i as int]@);
        }
        match extract_line_tool(lines[i].as_str()) {
            Some(t) => {
                out.push(t);
                proof {
                    assert(pair_views(out@)
                        =~= pair_views(out@.drop_last()).push((out@.last().0@, out@.last().1@)));
                    assert(spec_simple_tools(lv, 0)
                        =~= pair_views(out@) + spec_simple_tools(lv, i + 1));
                }
            },
            None => {
            },
        }
        i = i + 1;
    }
    proof {
        assert(spec_simple_tools(lv, n as int) =~= Seq::<(Seq<char>, Seq<char>)>::empty());
        assert(spec_simple_tools(lv, 0) =~= pair_views(out@));
    }
    out
}

/// Whether `v` already holds the pair `x`.
fn contains_pair(v: &Vec<(String, String)>, x: &(String, String)) -> (r: bool)
    ensures
        r == pair_views(v@).contains((x.0@, x.1@)),
{
    let n = v.len();
    let mut j: usize = 0;
    while j < n
        invariant
            0 <= j <= n,
            n == v@.len(),
            forall|m: int| 0 <= m < j ==> pair_views(v@)[m] != (x.0@, x.1@),
        decreases n - j,
    {
        if v[j].0 == x.0 && v[j].1 == x.1 {
            proof {
                assert(pair_views(v@)[j as int] == (x.0@, x.1@));
            }
            return true;
        }
        proof {
            assert(pair_views(v@)[j as int] != (x.0@, x.1@));
        }
        j = j + 1;
    }
    proof {
        if pair_views(v@).contains((x.0@, x.1@)) {
            let m = choose|m: int| 0 <= m < pair_views(v@).len()
                && pair_views(v@)[m] == (x.0@, x.1@);
        }
    }
    false
}

/// Unique pairs of `v`, first occurrences kept, order preserved.
pub fn dedup_pairs(v: Vec<(String, String)>) -> (r: Vec<(String, String)>)
    ensures
        pair_views(r@) == dedup(pair_views(v@)),
{
    let n = v.len();
    let mut out: Vec<(String, String)> = Vec::new();
    let mut i: usize = 0;
    proof {
        assert(pair_views(v@).subrange(0, 0) =~= Seq::<(Seq<char>, Seq<char>)>::empty());
        assert(pair_views(out@) =~= dedup(pair_views(v@).subrange(0, 0)));
    }
    while i < n
        invariant
            0 <= i <= n,
            n == v@.len(),
            pair_views(out@) == dedup(pair_views(v@).subrange(0, i as int)),
        decreases n - i,
    {
        let ghost pv = pair_views(v@);
        proof {
            assert(pv.subrange(0, i + 1) =~= pv.subrange(0, i as int).push(pv[i as int]));
            assert(pv.subrange(0, i + 1).drop_last() =~= pv.subrange(0, i as int));
        }
        if !contains_pair(&out, &v[i]) {
            let e = (v[i].0.clone(), v[i].1.clone());
            out.push(e);
            proof {
                assert(pair_views(out@)
                    =~= pair_views(out@.drop_last()).push((out@.last().0@, out@.last().1@)));
                assert((out@.last().0@, out@.last().1@) == pv[i as int]);
                assert(pair_views(out@) =~= dedup(pv.subrange(0, i + 1)));
            }
        } else {
            proof {
                assert(pair_views(out@) =~= dedup(pv.subrange(0, i + 1)));
            }
        }
        i = i + 1;
    }
    proof {
        assert(pair_views(v@).subrange(0, n as int) =~= pair_views(v@));
    }
    out
}

/// Tolerant parser for model responses.
pub struct ResponseParser;

impl ResponseParser {
    pub fn new() -> (r: Self) {
        ResponseParser
    }

    /// The ordered, de-duplicated tool calls of one model response.
    pub fn extract_tools(&self, text: &str) -> (r: Vec<(String, String)>)
        ensures
            pair_views(r@) == spec_extract_tools(text@),
    {
        proof {
            reveal_strlit("```rust");
            reveal_strlit("```sh");
            reveal_strlit("```bash");
            reveal_strlit("```");
            reveal_strlit("");
            assert(""@ =~= Seq::<char>::empty());
        }
        let c1 = replace(text, "```rust", "");
        let c2 = replace(c1.as_str(), "```sh", "");
        let c3 = replace(c2.as_str(), "```bash", "");
        let cleaned = replace(c3.as_str(), "```", "");
        let lines = split_lines(cleaned.as_str());
        let delta = delta_tools_from(&lines, 0);
        if delta.len() > 0 {
            dedup_pairs(delta)
        } else {
            dedup_pairs(simple_tools_of(&lines))
        }
    }
}

/// Every patch-block call is named `write_file_delta`.
pub proof fn lemma_delta_names(lines: Seq<Seq<char>>, i: int)
    requires
        0 <= i,
    ensures
        forall|k: int| 0 <= k < spec_delta_tools(lines, i).len()
            ==> spec_delta_tools(lines, i)[k].0 == name_write_file_delta(),
    decreases lines.len() - i,
{
    if i >= lines.len() {
        assert(spec_delta_tools(lines, i).len() == 0);
    } else if !starts_with(trim_spec(lines[i]), "CHANGE:"@) {
        lemma_delta_names(lines, i + 1);
        assert(spec_delta_tools(lines, i) == spec_delta_tools(lines, i + 1));
    } else {
        let a = scan_marker(lines, i + 1, "<<<<<<< CURRENT"@);
        lemma_scan_marker(lines, i + 1, "<<<<<<< CURRENT"@);
        if a >= lines.len() {
            assert(spec_delta_tools(lines, i).len() == 0);
        }
        if a < lines.len() {
            let b = scan_marker(lines, a + 1, "======="@);
            lemma_scan_marker(lines, a + 1, "======="@);
            if b >= lines.len() {
                assert(spec_delta_tools(lines, i).len() == 0);
            }
            if b < lines.len() {
                let c = scan_marker(lines, b + 1, ">>>>>>> NEW"@);
                lemma_scan_marker(lines, b + 1, ">>>>>>> NEW"@);
                if c >= lines.len() {
                    assert(spec_delta_tools(lines, i).len() == 0);
                }
                if c < lines.len() {
                    lemma_delta_names(lines, c + 1);
                    assert forall|k: int| 0 <= k < spec_delta_tools(lines, i).len()
                        implies spec_delta_tools(lines, i)[k].0 == name_write_file_delta() by {
                        if k > 0 {
                            assert(spec_delta_tools(lines, i)[k]
                                == spec_delta_tools(lines, c + 1)[k - 1]);
                        }
                    }
                }
            }
        }
    }
}

/// De-duplication is sound and complete: the result has no repeated pair and
/// holds exactly the pairs of its input.
pub proof fn lemma_dedup_unique(s: Seq<(Seq<char>, Seq<char>)>)
    ensures
        forall|i: int, j: int| 0 <= i < j < dedup(s).len() ==> dedup(s)[i] != dedup(s)[j],
        forall|x: (Seq<char>, Seq<char>)| #[trigger] dedup(s).contains(x) <==> s.contains(x),
    decreases s.len(),
{
    if s.len() == 0 {
        assert forall|x: (Seq<char>, Seq<char>)| !(#[trigger] s.contains(x)) by {
            if s.contains(x) {
                let k = choose|k: int| 0 <= k < s.len() && s[k] == x;
            }
        }
    } else {
        lemma_dedup_unique(s.drop_last());
        let pre = dedup(s.drop_last());
        let last = s.last();
        assert forall|x: (Seq<char>, Seq<char>)| #[trigger] s.contains(x)
            <==> (s.drop_last().contains(x) || x == last) by {
            if s.contains(x) {
                let k = choose|k: int| 0 <= k < s.len() && s[k] == x;
                if k < s.len() - 1 {
                    assert(s.drop_last()[k] == x);
                    assert(s.drop_last().contains(x));
                }
            }
            if s.drop_last().contains(x) {
                let k = choose|k: int| 0 <= k < s.drop_last().len() && s.drop_last()[k] == x;
                assert(s[k] == x);
            }
            if x == last {
                assert(s[s.len() - 1] == x);
            }
        }
        if pre.contains(last) {
        } else {
            assert forall|i: int, j: int| 0 <= i < j < dedup(s).len()
                implies dedup(s)[i] != dedup(s)[j] by {
                if j < pre.len() {
                } else {
                    assert(dedup(s)[j] == last);
                    if dedup(s)[i] == last {
                        assert(pre[i] == last);
                        assert(pre.contains(last));
                    }
                }
            }
            assert forall|x: (Seq<char>, Seq<char>)| #[trigger] dedup(s).contains(x)
                <==> (pre.contains(x) || x == last) by {
                if dedup(s).contains(x) {
                    let k = choose|k: int| 0 <= k < dedup(s).len() && dedup(s)[k] == x;
                    if k < pre.len() {
                        assert(pre[k] == x);
                        assert(pre.contains(x));
                    }
                }
                if pre.contains(x) {
                    let k = choose|k: int| 0 <= k < pre.len() && pre[k] == x;
                    assert(dedup(s)[k] == x);
                }
                if x == last {
                    assert(dedup(s)[dedup(s).len() - 1] == x);
                }
            }
        }
    }
}

/// A sequence without repeated pairs is its own de-duplication.
pub proof fn lemma_dedup_of_distinct(s: Seq<(Seq<char>, Seq<char>)>)
    requires
        forall|i: int, j: int| 0 <= i < j < s.len() ==> s[i] != s[j],
    ensures
        dedup(s) == s,
    decreases s.len(),
{
    if s.len() > 0 {
        assert(forall|i: int, j: int| 0 <= i < j < s.drop_last().len()
            ==> s.drop_last()[i] != s.drop_last()[j]);
        lemma_dedup_of_distinct(s.drop_last());
        let pre = dedup(s.drop_last());
        if pre.contains(s.last()) {
            let k = choose|k: int| 0 <= k < pre.len() && pre[k] == s.last();
            assert(s[k] == s.last());
            assert(s[k] != s[s.len() - 1]);
        }
        assert(dedup(s) =~= s.drop_last().push(s.last()));
        assert(s.drop_last().push(s.last()) =~= s);
    }
}

/// The parse result never repeats a `(name, parameter)` pair.
pub proof fn lemma_extract_tools_unique(text: Seq<char>)
    ensures
        forall|i: int, j: int| 0 <= i < j < spec_extract_tools(text).len()
            ==> spec_extract_tools(text)[i] != spec_extract_tools(text)[j],
{
    let lines = spec_lines(spec_clean(text));
    lemma_dedup_unique(spec_delta_tools(lines, 0));
    lemma_dedup_unique(spec_simple_tools(lines, 0));
}

/// A response with at least one well-formed patch block yields exactly the
/// de-duplicated patch-block calls, in source order, every one named
/// `write_file_delta`: no simple call is mixed in.
pub proof fn lemma_patch_blocks_only(text: Seq<char>)
    requires
        spec_delta_tools(spec_lines(spec_clean(text)), 0).len() > 0,
    ensures
        spec_extract_tools(text) == dedup(spec_delta_tools(spec_lines(spec_clean(text)), 0)),
        forall|k: int| 0 <= k < spec_extract_tools(text).len()
            ==> spec_extract_tools(text)[k].0 == name_write_file_delta(),
{
    let lines = spec_lines(spec_clean(text));
    let d = spec_delta_tools(lines, 0);
    lemma_delta_names(lines, 0);
    lemma_dedup_unique(d);
    assert forall|k: int| 0 <= k < dedup(d).len()
        implies dedup(d)[k].0 == name_write_file_delta() by {
        assert(dedup(d).contains(dedup(d)[k]));
        assert(d.contains(dedup(d)[k]));
        let m = choose|m: int| 0 <= m < d.len() && d[m] == dedup(d)[k];
    }
}

/// With pairwise distinct blocks the parse is exactly one call per
/// well-formed block, in source order.
pub proof fn lemma_distinct_blocks_exact(text: Seq<char>)
    requires
        spec_delta_tools(spec_lines(spec_clean(text)), 0).len() > 0,
        forall|i: int, j: int|
            0 <= i < j < spec_delta_tools(spec_lines(spec_clean(text)), 0).len()
            ==> spec_delta_tools(spec_lines(spec_clean(text)), 0)[i]
                != spec_delta_tools(spec_lines(spec_clean(text)), 0)[j],
    ensures
        spec_extract_tools(text) == spec_delta_tools(spec_lines(spec_clean(text)), 0),
{
    lemma_dedup_of_distinct(spec_delta_tools(spec_lines(spec_clean(text)), 0));
}

/// A `CHANGE:` block missing any of its three markers before the end of the
/// input emits nothing: the scan ends without a call for it.
pub proof fn lemma_malformed_block_emits_nothing(lines: Seq<Seq<char>>, i: int)
    requires
        0 <= i < lines.len(),
        starts_with(trim_spec(lines[i]), "CHANGE:"@),
        ({
            let a = scan_marker(lines, i + 1, "<<<<<<< CURRENT"@);
            a >= lines.len() || {
                let b = scan_marker(lines, a + 1, "======="@);
                b >= lines.len()
                    || scan_marker(lines, b + 1, ">>>>>>> NEW"@) >= lines.len()
            }
        }),
    ensures
        spec_delta_tools(lines, i) == Seq::<(Seq<char>, Seq<char>)>::empty(),
{
}

/// A text without backticks is untouched by fence stripping.
pub proof fn lemma_clean_id(s: Seq<char>)
    requires
        !has_char(s, '`'),
    ensures
        spec_clean(s) == s,
{
    reveal_strlit("```rust");
    reveal_strlit("```sh");
    reveal_strlit("```bash");
    reveal_strlit("```");
    assert("```rust"@.len() == 7);
    assert("```sh"@.len() == 5);
    assert("```bash"@.len() == 7);
    assert("```"@.len() == 3);
    lemma_replace_id_no_char(s, "```rust"@, Seq::empty(), '`');
    lemma_replace_id_no_char(s, "```sh"@, Seq::empty(), '`');
    lemma_replace_id_no_char(s, "```bash"@, Seq::empty(), '`');
    lemma_replace_id_no_char(s, "```"@, Seq::empty(), '`');
}

/// One patch block in wire format.
pub open spec fn render_block_spec(path: Seq<char>, old: Seq<char>, new: Seq<char>)
    -> Seq<char> {
    "CHANGE: "@ + path + seq!['\n']
        + "<<<<<<< CURRENT"@ + seq!['\n']
        + old + seq!['\n']
        + "======="@ + seq!['\n']
        + new + seq!['\n']
        + ">>>>>>> NEW"@
}

/// Serialize one patch request into the wire format the parser reads.
pub fn render_patch_block(path: &str, old_content: &str, new_content: &str) -> (r: String)
    ensures
        r@ == render_block_spec(path@, old_content@, new_content@),
{
    proof {
        reveal_strlit("\n");
        assert("\n"@ =~= seq!['\n']);
    }
    let mut out = String::from_str("CHANGE: ");
    out.append(path);
    out.append("\n");
    out.append("<<<<<<< CURRENT");
    out.append("\n");
    out.append(old_content);
    out.append("\n");
    out.append("=======");
    out.append("\n");
    out.append(new_content);
    out.append("\n");
    out.append(">>>>>>> NEW");
    out
}

/// `scan_marker` pinned to a known first marker line.
proof fn lemma_scan_at(lines: Seq<Seq<char>>, i: int, k: int, marker: Seq<char>)
    requires
        0 <= i <= k < lines.len(),
        starts_with(trim_spec(lines[k]), marker),
        forall|j: int| i <= j < k ==> !starts_with(trim_spec(lines[j]), marker),
    ensures
        scan_marker(lines, i, marker) == k,
    decreases k - i,
{
    if i < k {
        lemma_scan_at(lines, i + 1, k, marker);
    }
}

/// A non-empty chunk contributes at least one line.
proof fn lemma_content_lines_nonempty(x: Seq<char>)
    ensures
        content_lines(x).len() >= 1,
{
    if x.len() > 0 {
        lemma_find_char_from(x, '\n', 0);
    }
}

/// The lines of a rendered block parse to exactly its one tool call.
proof fn lemma_block_lines_parse(path: Seq<char>, old: Seq<char>, new: Seq<char>)
    requires
        path.len() > 0,
        !is_space(path[0]),
        !is_space(path.last()),
        no_cr_nl(old),
        old.len() == 0 || old.last() != '\n',
        forall|m: int| 0 <= m < content_lines(old).len()
            ==> !starts_with(trim_spec(content_lines(old)[m]), "======="@),
        no_cr_nl(new),
        new.len() == 0 || new.last() != '\n',
        forall|m: int| 0 <= m < content_lines(new).len()
            ==> !starts_with(trim_spec(content_lines(new)[m]), ">>>>>>> NEW"@),
    ensures
        spec_delta_tools(seq!["CHANGE: "@ + path, "<<<<<<< CURRENT"@]
            + content_lines(old) + seq!["======="@] + content_lines(new)
            + seq![">>>>>>> NEW"@], 0)
            == seq![(name_write_file_delta(), delta_param(path, old, new))],
{
    reveal_strlit("CHANGE: ");
    reveal_strlit("CHANGE:");
    reveal_strlit("<<<<<<< CURRENT");
    reveal_strlit("=======");
    reveal_strlit(">>>>>>> NEW");
    assert("CHANGE: "@.len() == 8);
    assert("CHANGE:"@.len() == 7);
    assert("<<<<<<< CURRENT"@.len() == 15);
    assert("======="@.len() == 7);
    assert(">>>>>>> NEW"@.len() == 11);
    let l0 = "CHANGE: "@ + path;
    let m_cur = "<<<<<<< CURRENT"@;
    let m_sep = "======="@;
    let m_new = ">>>>>>> NEW"@;
    let co = content_lines(old);
    let cn = content_lines(new);
    lemma_content_lines_nonempty(old);
    lemma_content_lines_nonempty(new);
    let no = co.len() as int;
    let nn = cn.len() as int;
    let lines = seq![l0, m_cur] + co + seq![m_sep] + cn + seq![m_new];
    assert(lines.len() == 4 + no + nn);
    assert(lines[0] == l0);
    assert(lines[1] == m_cur);
    assert(forall|m: int| 0 <= m < no ==> lines[2 + m] == co[m]);
    assert(lines[2 + no] == m_sep);
    assert(forall|m: int| 0 <= m < nn ==> lines[3 + no + m] == cn[m]);
    assert(lines[3 + no + nn] == m_new);

    // the markers are their own trims and start with themselves
    assert(!is_space(m_cur[0]) && !is_space(m_cur.last()));
    assert(trim_spec(m_cur) == m_cur);
    assert(m_cur.subrange(0, m_cur.len() as int) =~= m_cur);
    assert(starts_with(m_cur, m_cur));
    assert(!is_space(m_sep[0]) && !is_space(m_sep.last()));
    assert(trim_spec(m_sep) == m_sep);
    assert(m_sep.subrange(0, m_sep.len() as int) =~= m_sep);
    assert(starts_with(m_sep, m_sep));
    assert(!is_space(m_new[0]) && !is_space(m_new.last()));
    assert(trim_spec(m_new) == m_new);
    assert(m_new.subrange(0, m_new.len() as int) =~= m_new);
    assert(starts_with(m_new, m_new));

    // the CHANGE line is its own trim and starts with the keyword
    assert(l0[0] == 'C' && !is_space(l0[0]));
    assert(l0.last() == path.last());
    assert(trim_spec(l0) == l0);
    assert(l0.subrange(0, 7) =~= "CHANGE:"@);
    assert(starts_with(l0, "CHANGE:"@));

    // marker scans land on lines 1, 2 + |old lines| and 3 + |old| + |new|
    lemma_scan_at(lines, 1, 1, m_cur);
    lemma_scan_at(lines, 2, 2 + no, m_sep);
    lemma_scan_at(lines, 3 + no, 3 + no + nn, m_new);
    let a = scan_marker(lines, 1, m_cur);
    let b = scan_marker(lines, a + 1, m_sep);
    let c = scan_marker(lines, b + 1, m_new);
    assert(a == 1 && b == 2 + no && c == 3 + no + nn);

    // the path is the trimmed remainder of the CHANGE line
    assert(l0.subrange(7, l0.len() as int) =~= seq![' '] + path);
    assert(is_space(' '));
    assert((seq![' '] + path).drop_first() =~= path);
    assert(trim_start_spec(seq![' '] + path) == trim_start_spec(path));
    assert(trim_start_spec(path) == path);
    assert(trim_end_spec(path) == path);
    assert(trim_spec(l0.subrange(7, l0.len() as int)) == path);

    // the contents are the joined middle lines, exactly as rendered
    assert(lines.subrange(2, 2 + no) =~= co);
    lemma_join_sep_lines(old);
    assert(join_sep(lines.subrange(a + 1, b)) == old);
    assert(lines.subrange(3 + no, 3 + no + nn) =~= cn);
    lemma_join_sep_lines(new);
    assert(join_sep(lines.subrange(b + 1, c)) == new);

    // nothing follows the block
    assert(spec_delta_tools(lines, c + 1) =~= Seq::<(Seq<char>, Seq<char>)>::empty());
    assert(spec_delta_tools(lines, 0)
        =~= seq![(name_write_file_delta(), delta_param(path, old, new))]);
}

/// Round trip: a parsed patch request, rendered back into the wire format and
/// parsed again, yields exactly the same single tool call.  Stated for
/// contents free of backticks, of carriage-return line endings and of lines
/// that look like the block's own markers, with a trimmed, single-line,
/// non-empty path.
pub proof fn lemma_parse_round_trip(path: Seq<char>, old: Seq<char>, new: Seq<char>)
    requires
        path.len() > 0,
        trim_spec(path) == path,
        !has_char(path, '\n'),
        !has_char(path, '`'),
        no_cr_nl(old),
        old.len() == 0 || (old.last() != '\n' && old.last() != '\r'),
        !has_char(old, '`'),
        forall|m: int| 0 <= m < content_lines(old).len()
            ==> !starts_with(trim_spec(content_lines(old)[m]), "======="@),
        no_cr_nl(new),
        new.len() == 0 || (new.last() != '\n' && new.last() != '\r'),
        !has_char(new, '`'),
        forall|m: int| 0 <= m < content_lines(new).len()
            ==> !starts_with(trim_spec(content_lines(new)[m]), ">>>>>>> NEW"@),
    ensures
        spec_extract_tools(render_block_spec(path, old, new))
            == seq![(name_write_file_delta(), delta_param(path, old, new))],
{
    reveal_strlit("CHANGE: ");
    reveal_strlit("<<<<<<< CURRENT");
    reveal_strlit("=======");
    reveal_strlit(">>>>>>> NEW");
    assert("CHANGE: "@.len() == 8);
    assert("<<<<<<< CURRENT"@.len() == 15);
    assert("======="@.len() == 7);
    assert(">>>>>>> NEW"@.len() == 11);
    let rb = render_block_spec(path, old, new);
    let l0 = "CHANGE: "@ + path;
    let m_cur = "<<<<<<< CURRENT"@;
    let m_sep = "======="@;
    let m_new = ">>>>>>> NEW"@;
    let nl = seq!['\n'];

    lemma_trimmed_ends(path);

    // no backticks anywhere, so fence stripping leaves the text alone
    assert(forall|k: int| 0 <= k < l0.len() ==> l0[k] != '`');
    assert(!has_char(l0, '`')) by {
        if has_char(l0, '`') {
            let k = choose|k: int| 0 <= k < l0.len() && l0[k] == '`';
        }
    }
    assert(!has_char(nl, '`')) by {
        if has_char(nl, '`') {
            let k = choose|k: int| 0 <= k < nl.len() && nl[k] == '`';
        }
    }
    assert(!has_char(m_cur, '`')) by {
        if has_char(m_cur, '`') {
            let k = choose|k: int| 0 <= k < m_cur.len() && m_cur[k] == '`';
        }
    }
    assert(!has_char(m_sep, '`')) by {
        if has_char(m_sep, '`') {
            let k = choose|k: int| 0 <= k < m_sep.len() && m_sep[k] == '`';
        }
    }
    assert(!has_char(m_new, '`')) by {
        if has_char(m_new, '`') {
            let k = choose|k: int| 0 <= k < m_new.len() && m_new[k] == '`';
        }
    }
    assert(rb =~= l0 + nl + m_cur + nl + old + nl + m_sep + nl + new + nl + m_new);
    lemma_has_char_concat(l0, nl, '`');
    lemma_has_char_concat(l0 + nl, m_cur, '`');
    lemma_has_char_concat(l0 + nl + m_cur, nl, '`');
    lemma_has_char_concat(l0 + nl + m_cur + nl, old, '`');
    lemma_has_char_concat(l0 + nl + m_cur + nl + old, nl, '`');
    lemma_has_char_concat(l0 + nl + m_cur + nl + old + nl, m_sep, '`');
    lemma_has_char_concat(l0 + nl + m_cur + nl + old + nl + m_sep, nl, '`');
    lemma_has_char_concat(l0 + nl + m_cur + nl + old + nl + m_sep + nl, new, '`');
    lemma_has_char_concat(l0 + nl + m_cur + nl + old + nl + m_sep + nl + new, nl, '`');
    lemma_has_char_concat(l0 + nl + m_cur + nl + old + nl + m_sep + nl + new + nl,
        m_new, '`');
    lemma_clean_id(rb);

    // the text splits into the CHANGE line, the three marker lines, and the
    // two contents' own lines
    assert(!has_char(l0, '\n')) by {
        if has_char(l0, '\n') {
            let k = choose|k: int| 0 <= k < l0.len() && l0[k] == '\n';
            if k >= 8 {
                assert(path[k - 8] == '\n');
            }
        }
    }
    assert(!has_char(m_cur, '\n')) by {
        if has_char(m_cur, '\n') {
            let k = choose|k: int| 0 <= k < m_cur.len() && m_cur[k] == '\n';
        }
    }
    assert(!has_char(m_sep, '\n')) by {
        if has_char(m_sep, '\n') {
            let k = choose|k: int| 0 <= k < m_sep.len() && m_sep[k] == '\n';
        }
    }
    assert(!has_char(m_new, '\n')) by {
        if has_char(m_new, '\n') {
            let k = choose|k: int| 0 <= k < m_new.len() && m_new[k] == '\n';
        }
    }
    assert(no_cr_nl(l0));
    assert(no_cr_nl(m_cur));
    assert(no_cr_nl(m_sep));
    assert(l0.last() == path.last() && !is_space(path.last()));

    let rest1 = m_cur + nl + old + nl + m_sep + nl + new + nl + m_new;
    let rest2 = old + nl + m_sep + nl + new + nl + m_new;
    let rest3 = m_sep + nl + new + nl + m_new;
    let rest4 = new + nl + m_new;
    let rest5 = m_new;
    assert(rb =~= l0 + nl + rest1);
    lemma_lines_concat(l0, rest1);
    lemma_lines_single(l0);
    assert(rest1 =~= m_cur + nl + rest2);
    lemma_lines_concat(m_cur, rest2);
    lemma_lines_single(m_cur);
    assert(rest2 =~= old + nl + rest3);
    lemma_lines_concat(old, rest3);
    assert(rest3 =~= m_sep + nl + rest4);
    lemma_lines_concat(m_sep, rest4);
    lemma_lines_single(m_sep);
    assert(rest4 =~= new + nl + rest5);
    lemma_lines_concat(new, rest5);
    lemma_lines_single(m_new);
    let lines = seq![l0, m_cur] + content_lines(old) + seq![m_sep]
        + content_lines(new) + seq![m_new];
    assert(spec_lines(rb) =~= lines);

    // the block's lines parse to the one call
    lemma_block_lines_parse(path, old, new);
    let d = spec_delta_tools(lines, 0);
    assert(d.len() == 1);

    // a single call is its own de-duplication
    assert(dedup(d) =~= d) by {
        assert(d.drop_last() =~= Seq::<(Seq<char>, Seq<char>)>::empty());
        assert(dedup(d.drop_last()) =~= Seq::<(Seq<char>, Seq<char>)>::empty());
        if Seq::<(Seq<char>, Seq<char>)>::empty().contains(d.last()) {
            let k = choose|k: int| 0 <= k < 0 && Seq::<(Seq<char>, Seq<char>)>::empty()[k]
                == d.last();
        }
        assert(dedup(d) =~= Seq::<(Seq<char>, Seq<char>)>::empty().push(d.last()));
    }
}

} // verus!
