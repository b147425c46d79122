//! Parsing multi-file test inputs: a text holding one or more files, each
//! introduced by a `## <path>` header line, with an optional cursor marker
//! `$0` whose position is reported as a line and byte column.  Lines split
//! on newlines, a trailing carriage return per line and a final empty line
//! are dropped, and a header's path is trimmed of surrounding ASCII
//! whitespace.

use vstd::prelude::*;
use crate::strutil::{push_str_chars, push_all, chars_to_string, utf8_len, utf8_len_exec};

verus! {

/// A cursor position in a named file: the line and the byte column.
pub struct Location {
    pub path: String,
    pub line: u32,
    pub col: u32,
}

/// The files of a test input and the cursor position, where one was marked.
pub struct TestInput {
    pub files: Vec<(String, String)>,
    pub location: Option<Location>,
}

/// Mathematical model of a cursor position.
#[verifier::ext_equal]
pub struct GLoc {
    pub path: Seq<char>,
    pub line: u32,
    pub col: u32,
}

/// Mathematical model of the folding state: the files gathered so far, the
/// path and content lines of the file being gathered, and the marker found.
#[verifier::ext_equal]
pub struct GInputState {
    pub files: Seq<(Seq<char>, Seq<char>)>,
    pub cur_path: Seq<char>,
    pub cur: Seq<Seq<char>>,
    pub loc: Option<GLoc>,
}

// ------------------------------------------------------------------
// Lines.
// ------------------------------------------------------------------
/// The first newline of a text.
pub open spec fn g_find_nl(s: Seq<char>) -> Option<int>
    decreases s.len(),
{
    if s.len() == 0 {
        None
    } else if s[0] == '\n' {
        Some(0int)
    } else {
        match g_find_nl(s.drop_first()) {
            Some(i) => Some(i + 1),
            None => None,
        }
    }
}

/// The pieces between newlines, the terminator split off each; a text with
/// no newline is one piece.
pub open spec fn g_raw_lines(s: Seq<char>) -> Seq<Seq<char>>
    decreases s.len(),
{
    match g_find_nl(s) {
        None => seq![s],
        Some(k) => {
            proof {
                lemma_find_nl_in_range(s);
            }
            seq![s.take(k)] + g_raw_lines(s.skip(k + 1))
        },
    }
}

pub proof fn lemma_find_nl_in_range(s: Seq<char>)
    ensures
        match g_find_nl(s) {
            Some(k) => 0 <= k < s.len() && s[k] == '\n',
            None => true,
        },
    decreases s.len(),
{
    if s.len() > 0 && s[0] != '\n' {
        lemma_find_nl_in_range(s.drop_first());
    }
}

/// A line with one trailing carriage return dropped.
pub open spec fn g_strip_cr(line: Seq<char>) -> Seq<char> {
    if line.len() > 0 && line.last() == '\r' {
        line.drop_last()
    } else {
        line
    }
}

/// The lines of a text: split on newlines, carriage returns stripped, and no
/// empty line after a final newline.
pub open spec fn g_lines(s: Seq<char>) -> Seq<Seq<char>> {
    if s.len() == 0 {
        Seq::empty()
    } else {
        let raw = if s.last() == '\n' {
            g_raw_lines(s).drop_last()
        } else {
            g_raw_lines(s)
        };
        raw.map_values(|l: Seq<char>| g_strip_cr(l))
    }
}

// ------------------------------------------------------------------
// Headers, trimming, the marker, and positions.
// ------------------------------------------------------------------
/// The ASCII whitespace trimmed off header paths.
pub open spec fn is_space(c: char) -> bool {
    c == ' ' || c == '\t' || c == '\r' || c == '\n'
}

pub open spec fn g_trim_start(s: Seq<char>) -> Seq<char>
    decreases s.len(),
{
    if s.len() > 0 && is_space(s[0]) {
        g_trim_start(s.drop_first())
    } else {
        s
    }
}

pub open spec fn g_trim_end(s: Seq<char>) -> Seq<char>
    decreases s.len(),
{
    if s.len() > 0 && is_space(s.last()) {
        g_trim_end(s.drop_last())
    } else {
        s
    }
}

pub open spec fn g_trim(s: Seq<char>) -> Seq<char> {
    g_trim_end(g_trim_start(s))
}

/// The path a header line names: everything after the `##`, trimmed.
pub open spec fn g_header_of(line: Seq<char>) -> Option<Seq<char>> {
    if line.len() >= 3 && line[0] == '#' && line[1] == '#' && line[2] == ' ' {
        Some(g_trim(line.skip(2)))
    } else {
        None
    }
}

/// The first occurrence of the cursor marker.
pub open spec fn g_find_marker(s: Seq<char>) -> Option<int>
    decreases s.len(),
{
    if s.len() < 2 {
        None
    } else if s[0] == '$' && s[1] == '0' {
        Some(0int)
    } else {
        match g_find_marker(s.drop_first()) {
            Some(i) => Some(i + 1),
            None => None,
        }
    }
}

/// Content lines joined by newlines.
pub open spec fn g_join_nl(lines: Seq<Seq<char>>) -> Seq<char>
    decreases lines.len(),
{
    if lines.len() == 0 {
        Seq::empty()
    } else if lines.len() == 1 {
        lines[0]
    } else {
        lines[0] + seq!['\n'] + g_join_nl(lines.drop_first())
    }
}

/// The line and byte column at the end of a text prefix.
pub open spec fn g_line_col(s: Seq<char>) -> (int, int)
    decreases s.len(),
{
    if s.len() == 0 {
        (0int, 0int)
    } else {
        let (l, c) = g_line_col(s.drop_last());
        if s.last() == '\n' {
            (l + 1, 0int)
        } else {
            (l, c + utf8_len(s.last()))
        }
    }
}

/// A file added to the gathered list: an existing entry of the path is
/// replaced, a new path appended.
pub open spec fn g_insert_file(
    files: Seq<(Seq<char>, Seq<char>)>,
    path: Seq<char>,
    content: Seq<char>,
) -> Seq<(Seq<char>, Seq<char>)>
    decreases files.len(),
{
    if files.len() == 0 {
        seq![(path, content)]
    } else if files[0].0 == path {
        seq![(path, content)] + files.drop_first()
    } else {
        seq![files[0]] + g_insert_file(files.drop_first(), path, content)
    }
}

/// Closes the file being gathered: nothing happens without content lines;
/// otherwise they are joined, the first cursor marker (if any) is cut out
/// and its line and byte column recorded, and the file is stored.
pub open spec fn g_add_file(st: GInputState) -> GInputState {
    if st.cur.len() == 0 {
        st
    } else {
        let joined = g_join_nl(st.cur);
        match g_find_marker(joined) {
            None => GInputState {
                files: g_insert_file(st.files, st.cur_path, joined),
                cur_path: st.cur_path,
                cur: st.cur,
                loc: st.loc,
            },
            Some(off) => {
                let cleaned = joined.take(off) + joined.skip(off + 2);
                let lc = g_line_col(joined.take(off));
                GInputState {
                    files: g_insert_file(st.files, st.cur_path, cleaned),
                    cur_path: st.cur_path,
                    cur: st.cur,
                    loc: Some(
                        GLoc { path: st.cur_path, line: sat32(lc.0), col: sat32(lc.1) },
                    ),
                }
            },
        }
    }
}

/// One line folded into the state: a header closes the current file and
/// starts the named one; any other line joins the current content.
pub open spec fn g_input_step(st: GInputState, line: Seq<char>) -> GInputState {
    match g_header_of(line) {
        Some(p) => {
            let closed = g_add_file(st);
            GInputState { files: closed.files, cur_path: p, cur: Seq::empty(), loc: closed.loc }
        },
        None => GInputState {
            files: st.files,
            cur_path: st.cur_path,
            cur: st.cur.push(line),
            loc: st.loc,
        },
    }
}

pub open spec fn g_fold_lines(lines: Seq<Seq<char>>, st: GInputState) -> GInputState
    decreases lines.len(),
{
    if lines.len() == 0 {
        st
    } else {
        g_fold_lines(lines.drop_first(), g_input_step(st, lines[0]))
    }
}

/// The whole decomposition of a test input: lines folded from a nameless
/// starting file, the last file closed at the end.
pub open spec fn g_parse_test_input(s: Seq<char>) -> GInputState {
    let st0 = GInputState {
        files: Seq::empty(),
        cur_path: "/nowhere.nix"@,
        cur: Seq::empty(),
        loc: None,
    };
    g_add_file(g_fold_lines(g_lines(s), st0))
}

pub open spec fn files_view(fs: Seq<(String, String)>) -> Seq<(Seq<char>, Seq<char>)> {
    fs.map_values(|p: (String, String)| (p.0@, p.1@))
}

pub open spec fn loc_view(l: Option<Location>) -> Option<GLoc> {
    match l {
        Some(loc) => Some(GLoc { path: loc.path@, line: loc.line, col: loc.col }),
        None => None,
    }
}

// ------------------------------------------------------------------
// The executable decomposition.
// ------------------------------------------------------------------
pub open spec fn lines_view(ls: Seq<Vec<char>>) -> Seq<Seq<char>> {
    ls.map_values(|l: Vec<char>| l@)
}

fn find_nl_from(v: &Vec<char>, from: usize) -> (r: Option<usize>)
    requires
        from <= v@.len(),
    ensures
        match r {
            Some(q) => from <= q < v@.len() && g_find_nl(v@.skip(from as int)) == Some(
                q - from,
            ),
            None => g_find_nl(v@.skip(from as int)) is None,
        },
{
    let n = v.len();
    let mut q = from;
    proof {
        assert(v@.skip(from as int).skip(0) =~= v@.skip(from as int));
    }
    while q < n
        invariant
            n == v@.len(),
            from <= q <= n,
            match g_find_nl(v@.skip(q as int)) {
                Some(i) => g_find_nl(v@.skip(from as int)) == Some(i + q - from),
                None => g_find_nl(v@.skip(from as int)) is None,
            },
        decreases n - q,
    {
        proof {
            assert(v@.skip(q as int)[0] == v@[q as int]);
            assert(v@.skip(q as int).drop_first() =~= v@.skip(q + 1));
        }
        if v[q] == '\n' {
            return Some(q);
        }
        q = q + 1;
    }
    proof {
        assert(v@.skip(n as int) =~= Seq::<char>::empty());
    }
    None
}

fn copy_range(v: &Vec<char>, from: usize, to: usize) -> (r: Vec<char>)
    requires
        from <= to <= v@.len(),
    ensures
        r@ == v@.subrange(from as int, to as int),
{
    let mut out: Vec<char> = Vec::new();
    let mut i = from;
    while i < to
        invariant
            from <= i <= to <= v@.len(),
            out@ == v@.subrange(from as int, i as int),
        decreases to - i,
    {
        out.push(v[i]);
        proof {
            assert(v@.subrange(from as int, i + 1) =~= v@.subrange(from as int, i as int).push(
                v@[i as int],
            ));
        }
        i = i + 1;
    }
    out
}

/// Splits a text into its lines.
fn split_lines(v: &Vec<char>) -> (r: Vec<Vec<char>>)
    ensures
        lines_view(r@) == g_lines(v@),
{
    let n = v.len();
    if n == 0 {
        let r: Vec<Vec<char>> = Vec::new();
        proof {
            assert(lines_view(r@) =~= Seq::<Seq<char>>::empty());
        }
        return r;
    }
    let mut raw: Vec<Vec<char>> = Vec::new();
    let mut p: usize = 0;
    let mut done = false;
    proof {
        assert(v@.skip(0) =~= v@);
        assert(lines_view(raw@) + g_raw_lines(v@) =~= g_raw_lines(v@));
    }
    while !done
        invariant
            n == v@.len(),
            p <= n,
            !done ==> g_raw_lines(v@) == lines_view(raw@) + g_raw_lines(v@.skip(p as int)),
            done ==> g_raw_lines(v@) == lines_view(raw@),
        decreases n - p, (if done { 0int } else { 1int }),
    {
        match find_nl_from(v, p) {
            Some(q) => {
                let ghost before = raw@;
                raw.push(copy_range(v, p, q));
                proof {
                    lemma_find_nl_in_range(v@.skip(p as int));
                    assert(v@.skip(p as int).take(q - p) =~= v@.subrange(p as int, q as int));
                    assert(v@.skip(p as int).skip(q - p + 1) =~= v@.skip(q + 1));
                    assert(lines_view(raw@) =~= lines_view(before).push(
                        v@.subrange(p as int, q as int),
                    ));
                    assert(lines_view(raw@) + g_raw_lines(v@.skip(q + 1)) =~= lines_view(before)
                        + g_raw_lines(v@.skip(p as int)));
                }
                p = q + 1;
            }
            None => {
                let ghost before = raw@;
                raw.push(copy_range(v, p, n));
                proof {
                    assert(v@.subrange(p as int, n as int) =~= v@.skip(p as int));
                    assert(lines_view(raw@) =~= lines_view(before).push(v@.skip(p as int)));
                    assert(lines_view(raw@) =~= lines_view(before) + g_raw_lines(
                        v@.skip(p as int),
                    ));
                }
                done = true;
            }
        }
    }
    if v[n - 1] == '\n' {
        proof {
            assert(v@.last() == '\n');
        }
        let _ = raw.pop();
        proof {
            assert(lines_view(raw@) =~= g_raw_lines(v@).drop_last());
        }
    }
    // strip one trailing carriage return off each line
    let m = raw.len();
    let ghost pre_strip = lines_view(raw@);
    let mut out: Vec<Vec<char>> = Vec::new();
    let mut i: usize = 0;
    while i < m
        invariant
            m == raw@.len(),
            lines_view(raw@) == pre_strip,
            i <= m,
            lines_view(out@).len() == i,
            forall|j: int| 0 <= j < i ==> lines_view(out@)[j] == g_strip_cr(pre_strip[j]),
        decreases m - i,
    {
        let ghost before = out@;
        let line = &raw[i];
        if line.len() > 0 && line[line.len() - 1] == '\r' {
            out.push(copy_range(line, 0, line.len() - 1));
            proof {
                assert(line@.subrange(0, line@.len() - 1) =~= line@.drop_last());
                assert(lines_view(out@) =~= lines_view(before).push(g_strip_cr(
                    pre_strip[i as int],
                )));
            }
        } else {
            out.push(copy_range(line, 0, line.len()));
            proof {
                assert(line@.subrange(0, line@.len() as int) =~= line@);
                assert(lines_view(out@) =~= lines_view(before).push(g_strip_cr(
                    pre_strip[i as int],
                )));
            }
        }
        i = i + 1;
    }
    proof {
        assert(lines_view(out@) =~= pre_strip.map_values(|l: Seq<char>| g_strip_cr(l)));
    }
    out
}

fn trim_chars(v: &Vec<char>) -> (r: Vec<char>)
    ensures
        r@ == g_trim(v@),
{
    let n = v.len();
    let mut start: usize = 0;
    proof {
        assert(v@.skip(0) =~= v@);
    }
    while start < n && (v[start] == ' ' || v[start] == '\t' || v[start] == '\r' || v[start]
        == '\n')
        invariant
            n == v@.len(),
            start <= n,
            g_trim_start(v@) == g_trim_start(v@.skip(start as int)),
        decreases n - start,
    {
        proof {
            assert(v@.skip(start as int)[0] == v@[start as int]);
            assert(v@.skip(start as int).drop_first() =~= v@.skip(start + 1));
        }
        start = start + 1;
    }
    proof {
        if start < n {
            assert(v@.skip(start as int)[0] == v@[start as int]);
        } else {
            assert(v@.skip(start as int) =~= Seq::<char>::empty());
        }
        assert(g_trim_start(v@) == v@.skip(start as int));
    }
    let mut end: usize = n;
    while end > start && (v[end - 1] == ' ' || v[end - 1] == '\t' || v[end - 1] == '\r' || v[end
        - 1] == '\n')
        invariant
            n == v@.len(),
            start <= end <= n,
            g_trim_start(v@) == v@.skip(start as int),
            g_trim_end(v@.skip(start as int)) == g_trim_end(v@.subrange(start as int, end as int)),
        decreases end,
    {
        proof {
            assert(v@.subrange(start as int, end as int).last() == v@[end - 1]);
            assert(v@.subrange(start as int, end as int).drop_last() =~= v@.subrange(
                start as int,
                end - 1,
            ));
        }
        end = end - 1;
    }
    proof {
        let seg = v@.subrange(start as int, end as int);
        if end > start {
            assert(seg.last() == v@[end - 1]);
        }
        assert(g_trim_end(seg) == seg);
        assert(g_trim(v@) == seg);
    }
    copy_range(v, start, end)
}

fn find_marker(v: &Vec<char>) -> (r: Option<usize>)
    ensures
        match r {
            Some(q) => q + 2 <= v@.len() && g_find_marker(v@) == Some(q as int),
            None => g_find_marker(v@) is None,
        },
{
    let n = v.len();
    let mut q: usize = 0;
    proof {
        assert(v@.skip(0) =~= v@);
    }
    while n > 0 && q < n - 1
        invariant
            n == v@.len(),
            q <= n,
            match g_find_marker(v@.skip(q as int)) {
                Some(i) => g_find_marker(v@) == Some(i + q),
                None => g_find_marker(v@) is None,
            },
        decreases n - q,
    {
        proof {
            assert(v@.skip(q as int)[0] == v@[q as int]);
            assert(v@.skip(q as int)[1] == v@[q + 1]);
            assert(v@.skip(q as int).drop_first() =~= v@.skip(q + 1));
        }
        if v[q] == '$' && v[q + 1] == '0' {
            return Some(q);
        }
        q = q + 1;
    }
    proof {
        assert(v@.skip(q as int).len() < 2);
    }
    None
}

/// A value clamped to the column type's range.
pub open spec fn sat32(x: int) -> u32 {
    if x > u32::MAX {
        u32::MAX
    } else if x < 0 {
        0u32
    } else {
        x as u32
    }
}

/// The line and byte column at the end of a prefix, each saturating at the
/// position type's limit.
fn line_col_of_prefix(v: &Vec<char>, upto: usize) -> (r: (u32, u32))
    requires
        upto <= v@.len(),
    ensures
        r.0 == sat32(g_line_col(v@.take(upto as int)).0),
        r.1 == sat32(g_line_col(v@.take(upto as int)).1),
{
    let mut line: u32 = 0;
    let mut col: u32 = 0;
    let mut i: usize = 0;
    proof {
        assert(v@.take(0) =~= Seq::<char>::empty());
    }
    while i < upto
        invariant
            upto <= v@.len(),
            i <= upto,
            line == sat32(g_line_col(v@.take(i as int)).0),
            col == sat32(g_line_col(v@.take(i as int)).1),
            g_line_col(v@.take(i as int)).0 >= 0,
            g_line_col(v@.take(i as int)).1 >= 0,
        decreases upto - i,
    {
        proof {
            assert(v@.take(i + 1).drop_last() =~= v@.take(i as int));
            assert(v@.take(i + 1).last() == v@[i as int]);
        }
        if v[i] == '\n' {
            if line < u32::MAX {
                line = line + 1;
            }
            col = 0;
        } else {
            let w = utf8_len_exec(v[i]);
            if col as u64 + w as u64 <= u32::MAX as u64 {
                col = col + w as u32;
            } else {
                col = u32::MAX;
            }
        }
        i = i + 1;
    }
    (line, col)
}

pub open spec fn state_view(
    files: Seq<(String, String)>,
    cur_path: Seq<char>,
    cur: Seq<Vec<char>>,
    loc: Option<Location>,
) -> GInputState {
    GInputState {
        files: files_view(files),
        cur_path,
        cur: lines_view(cur),
        loc: loc_view(loc),
    }
}

fn insert_file(files: &mut Vec<(String, String)>, path: &Vec<char>, content: Vec<char>)
    ensures
        files_view(final(files)@) == g_insert_file(files_view(old(files)@), path@, content@),
{
    let ghost fs = files_view(old(files)@);
    let n = files.len();
    let mut i: usize = 0;
    proof {
        assert(fs.skip(0) =~= fs);
    }
    while i < n
        invariant
            n == files@.len(),
            files@ == old(files)@,
            fs == files_view(files@),
            i <= n,
            forall|j: int| 0 <= j < i ==> fs[j].0 != path@,
            g_insert_file(fs, path@, content@) == fs.take(i as int) + g_insert_file(
                fs.skip(i as int),
                path@,
                content@,
            ),
        decreases n - i,
    {
        proof {
            assert(fs.skip(i as int)[0] == fs[i as int]);
            assert(fs.skip(i as int).drop_first() =~= fs.skip(i + 1));
        }
        if crate::strutil::str_eq_chars(files[i].0.as_str(), path) {
            let ghost before = files@;
            let name = chars_to_string(path);
            let text = chars_to_string(&content);
            let _ = files.remove(i);
            files.insert(i, (name, text));
            proof {
                assert(files_view(files@) =~= fs.update(i as int, (path@, content@)));
                assert(g_insert_file(fs.skip(i as int), path@, content@) =~= seq![
                    (path@, content@)] + fs.skip(i + 1));
                assert(files_view(files@) =~= fs.take(i as int) + (seq![(path@, content@)]
                    + fs.skip(i + 1)));
            }
            return ;
        }
        proof {
            assert(fs.take(i + 1) =~= fs.take(i as int).push(fs[i as int]));
            assert(fs.take(i as int) + (seq![fs[i as int]] + g_insert_file(
                fs.skip(i + 1),
                path@,
                content@,
            )) =~= fs.take(i + 1) + g_insert_file(fs.skip(i + 1), path@, content@));
        }
        i = i + 1;
    }
    let ghost before = files@;
    let name = chars_to_string(path);
    let text = chars_to_string(&content);
    files.push((name, text));
    proof {
        assert(fs.skip(n as int) =~= Seq::<(Seq<char>, Seq<char>)>::empty());
        assert(files_view(files@) =~= fs.take(n as int) + seq![(path@, content@)]);
        assert(fs.take(n as int) =~= fs);
    }
}

fn join_lines(lines: &Vec<Vec<char>>) -> (r: Vec<char>)
    ensures
        r@ == g_join_nl(lines_view(lines@)),
{
    let ghost ls = lines_view(lines@);
    let n = lines.len();
    let mut out: Vec<char> = Vec::new();
    let mut i: usize = 0;
    proof {
        assert(ls.skip(0) =~= ls);
        assert(out@ + g_join_nl(ls) =~= g_join_nl(ls));
    }
    while i < n
        invariant
            n == lines@.len(),
            ls == lines_view(lines@),
            ls.len() == n,
            i <= n,
            out@ + g_join_nl(ls.skip(i as int)) == g_join_nl(ls),
        decreases n - i,
    {
        proof {
            assert(ls.skip(i as int)[0] == ls[i as int]);
            assert(ls.skip(i as int).drop_first() =~= ls.skip(i + 1));
        }
        push_all(&lines[i], &mut out);
        if i + 1 < n {
            out.push('\n');
        }
        proof {
            if i + 1 < n {
                assert(out@ + g_join_nl(ls.skip(i + 1)) =~= g_join_nl(ls));
            } else {
                assert(ls.skip(i + 1) =~= Seq::<Seq<char>>::empty());
                assert(out@ + g_join_nl(ls.skip(i + 1)) =~= out@);
            }
        }
        i = i + 1;
    }
    proof {
        if n == 0 {
            assert(g_join_nl(ls) =~= Seq::<char>::empty());
        }
        assert(ls.skip(n as int) =~= Seq::<Seq<char>>::empty());
        assert(out@ =~= g_join_nl(ls));
    }
    out
}

fn add_file(
    files: &mut Vec<(String, String)>,
    cur_path: &Vec<char>,
    cur: &Vec<Vec<char>>,
    loc: &mut Option<Location>,
)
    ensures
        ({
            let st = g_add_file(state_view(old(files)@, cur_path@, cur@, *old(loc)));
            files_view(final(files)@) == st.files && loc_view(*final(loc)) == st.loc
        }),
{
    if cur.len() == 0 {
        proof {
            assert(lines_view(cur@).len() == 0);
        }
        return ;
    }
    let joined = join_lines(cur);
    match find_marker(&joined) {
        None => {
            insert_file(files, cur_path, joined);
        }
        Some(off) => {
            proof {
                assert(g_find_marker(joined@) == Some(off as int));
            }
            let (line, col) = line_col_of_prefix(&joined, off);
            let mut cleaned = copy_range(&joined, 0, off);
            let mut tail = copy_range(&joined, off + 2, joined.len());
            proof {
                assert(joined@.subrange(0, off as int) =~= joined@.take(off as int));
                assert(joined@.subrange(off + 2, joined@.len() as int) =~= joined@.skip(off + 2));
            }
            push_all(&tail, &mut cleaned);
            *loc = Some(
                Location { path: chars_to_string(cur_path), line, col },
            );
            insert_file(files, cur_path, cleaned);
        }
    }
}

/// Decomposes a multi-file test input: the files it holds, each under its
/// header path (the first under a placeholder name), and the position of
/// the cursor marker, which is cut out of its file's text.
pub fn parse_test_input(input: &str) -> (r: TestInput)
    ensures
        files_view(r.files@) == g_parse_test_input(input@).files,
        loc_view(r.location) == g_parse_test_input(input@).loc,
{
    let mut v: Vec<char> = Vec::new();
    push_str_chars(input, &mut v);
    proof {
        assert(v@ =~= input@);
    }
    let lines = split_lines(&v);
    let ghost gls = g_lines(input@);
    let mut files: Vec<(String, String)> = Vec::new();
    let mut cur_path: Vec<char> = Vec::new();
    push_str_chars("/nowhere.nix", &mut cur_path);
    let mut cur: Vec<Vec<char>> = Vec::new();
    let mut loc: Option<Location> = None;
    let ghost st0 = GInputState {
        files: Seq::empty(),
        cur_path: "/nowhere.nix"@,
        cur: Seq::empty(),
        loc: None,
    };
    proof {
        assert(files_view(files@) =~= Seq::<(Seq<char>, Seq<char>)>::empty());
        assert(lines_view(cur@) =~= Seq::<Seq<char>>::empty());
        assert(cur_path@ =~= "/nowhere.nix"@);
        assert(state_view(files@, cur_path@, cur@, loc) =~= st0);
        assert(gls.skip(0) =~= gls);
    }
    let n = lines.len();
    let mut i: usize = 0;
    while i < n
        invariant
            n == lines@.len(),
            lines_view(lines@) == gls,
            gls.len() == n,
            i <= n,
            g_fold_lines(gls, st0) == g_fold_lines(
                gls.skip(i as int),
                state_view(files@, cur_path@, cur@, loc),
            ),
        decreases n - i,
    {
        proof {
            assert(gls.skip(i as int)[0] == gls[i as int]);
            assert(gls.skip(i as int).drop_first() =~= gls.skip(i + 1));
            assert(gls[i as int] == lines@[i as int]@);
        }
        let line = &lines[i];
        let is_header = line.len() >= 3 && line[0] == '#' && line[1] == '#' && line[2] == ' ';
        if is_header {
            let ghost st_before = state_view(files@, cur_path@, cur@, loc);
            add_file(&mut files, &cur_path, &cur, &mut loc);
            let rest = copy_range(line, 2, line.len());
            proof {
                assert(line@.subrange(2, line@.len() as int) =~= line@.skip(2));
            }
            cur_path = trim_chars(&rest);
            cur = Vec::new();
            proof {
                assert(lines_view(cur@) =~= Seq::<Seq<char>>::empty());
                assert(g_header_of(gls[i as int]) == Some(g_trim(line@.skip(2))));
                assert(state_view(files@, cur_path@, cur@, loc) =~= g_input_step(
                    st_before,
                    gls[i as int],
                ));
            }
        } else {
            let ghost st_before = state_view(files@, cur_path@, cur@, loc);
            let ghost before = cur@;
            let copy = copy_range(line, 0, line.len());
            proof {
                assert(copy@ =~= line@);
            }
            cur.push(copy);
            proof {
                assert(g_header_of(gls[i as int]) is None);
                assert(lines_view(cur@) =~= lines_view(before).push(line@));
                assert(state_view(files@, cur_path@, cur@, loc) =~= g_input_step(
                    st_before,
                    gls[i as int],
                ));
            }
        }
        i = i + 1;
    }
    proof {
        assert(gls.skip(n as int) =~= Seq::<Seq<char>>::empty());
    }
    add_file(&mut files, &cur_path, &cur, &mut loc);
    TestInput { files, location: loc }
}

} // verus!
