//! What the sidebar shows of a document: its outline (section headings),
//! the project files it pulls in, and its word count.

use vstd::prelude::*;

use crate::text::{
    chars_of, is_white_space, line_ranges, lines, str_ends_with, str_eq, string_from_chars, trim,
    trim_end, trim_start,
};

verus! {

/// Whether `c` is white space (exec side of [`is_white_space`]).
pub fn white_space(c: char) -> (r: bool)
    ensures
        r == is_white_space(c),
{
    ('\u{9}' <= c && c <= '\u{d}') || c == ' ' || c == '\u{85}' || c == '\u{a0}' || c
        == '\u{1680}' || ('\u{2000}' <= c && c <= '\u{200a}') || c == '\u{2028}' || c == '\u{2029}'
        || c == '\u{202f}' || c == '\u{205f}' || c == '\u{3000}'
}

/// The trimmed part of `cs[a..b]`, as a range.
pub fn trim_range(cs: &Vec<char>, a: usize, b: usize) -> (r: (usize, usize))
    requires
        a <= b <= cs@.len(),
    ensures
        a <= r.0 <= r.1 <= b,
        cs@.subrange(r.0 as int, r.1 as int) == trim(cs@.subrange(a as int, b as int)),
{
    let mut p = a;
    while p < b && white_space(cs[p])
        invariant
            a <= p <= b <= cs@.len(),
            trim_start(cs@.subrange(a as int, b as int)) == trim_start(
                cs@.subrange(p as int, b as int),
            ),
        decreases b - p,
    {
        assert(cs@.subrange(p as int, b as int).drop_first() =~= cs@.subrange(p + 1, b as int));
        p += 1;
    }
    let mut q = b;
    while q > p && white_space(cs[q - 1])
        invariant
            a <= p <= q <= b <= cs@.len(),
            trim_end(cs@.subrange(p as int, b as int)) == trim_end(
                cs@.subrange(p as int, q as int),
            ),
        decreases q - p,
    {
        assert(cs@.subrange(p as int, q as int).drop_last() =~= cs@.subrange(p as int, q - 1));
        q -= 1;
    }
    (p, q)
}

/// Whether `cs[p..q]` starts with `pat`.
pub fn starts_with_at(cs: &Vec<char>, p: usize, q: usize, pat: &Vec<char>) -> (r: bool)
    requires
        p <= q <= cs@.len(),
    ensures
        r == (pat@.len() <= q - p && cs@.subrange(p as int, p + pat@.len()) == pat@),
{
    if pat.len() > q - p {
        return false;
    }
    let mut i: usize = 0;
    while i < pat.len()
        invariant
            p + pat@.len() <= q <= cs@.len(),
            i <= pat@.len(),
            forall|k: int| 0 <= k < i ==> cs@[p + k] == pat@[k],
        decreases pat@.len() - i,
    {
        if cs[p + i] != pat[i] {
            assert(cs@.subrange(p as int, p + pat@.len())[i as int] != pat@[i as int]);
            return false;
        }
        i += 1;
    }
    assert(cs@.subrange(p as int, p + pat@.len()) =~= pat@);
    true
}

/// The first position in `cs[p..q]` holding `c`, or `q`.
pub fn position_or_end(cs: &Vec<char>, p: usize, q: usize, c: char) -> (r: usize)
    requires
        p <= q <= cs@.len(),
    ensures
        p <= r <= q,
        r < q ==> cs@[r as int] == c,
        forall|k: int| p <= k < r ==> cs@[k] != c,
{
    let mut i = p;
    while i < q && cs[i] != c
        invariant
            p <= i <= q <= cs@.len(),
            forall|k: int| p <= k < i ==> cs@[k] != c,
        decreases q - i,
    {
        i += 1;
    }
    i
}

/// The text before the first `}` (all of it when there is none), as
/// `split('}').next()` gives it.
pub open spec fn before_brace(s: Seq<char>) -> Seq<char> {
    if exists|i: int| 0 <= i < s.len() && s[i] == '}' {
        s.take(choose|i: int| 0 <= i < s.len() && s[i] == '}' && forall|j: int| 0 <= j < i ==> s[j] != '}')
    } else {
        s
    }
}

proof fn lemma_before_brace(s: Seq<char>, r: int)
    requires
        0 <= r <= s.len(),
        r < s.len() ==> s[r] == '}',
        forall|k: int| 0 <= k < r ==> s[k] != '}',
    ensures
        before_brace(s) == s.take(r),
{
    if exists|i: int| 0 <= i < s.len() && s[i] == '}' {
        let c = choose|i: int| 0 <= i < s.len() && s[i] == '}' && forall|j: int| 0 <= j < i ==> s[j] != '}';
        assert(0 <= c < s.len() && s[c] == '}' && forall|j: int| 0 <= j < c ==> s[j] != '}') by {
            let w = choose|i: int| 0 <= i < s.len() && s[i] == '}';
            lemma_first_brace_exists(s, w);
        }
        if c < r {
            assert(s[c] != '}');
        }
        if r < c {
            assert(s[r] != '}');
        }
    } else {
        if r < s.len() {
            assert(s[r] == '}');
        }
        assert(s.take(r) =~= s);
    }
}

proof fn lemma_first_brace_exists(s: Seq<char>, w: int)
    requires
        0 <= w < s.len(),
        s[w] == '}',
    ensures
        exists|i: int| 0 <= i < s.len() && s[i] == '}' && forall|j: int| 0 <= j < i ==> s[j] != '}',
    decreases w,
{
    if exists|j: int| 0 <= j < w && s[j] == '}' {
        let j = choose|j: int| 0 <= j < w && s[j] == '}';
        lemma_first_brace_exists(s, j);
    }
}

/// The outline entry the heading `prefix` gives a (trimmed) line: the
/// indentation, a bullet and the title up to the closing brace.
pub open spec fn heading_entry(t: Seq<char>, prefix: Seq<char>, depth: Seq<char>) -> Seq<
    Seq<char>,
> {
    if prefix.len() <= t.len() && t.take(prefix.len() as int) == prefix {
        seq![depth + "• "@ + before_brace(t.skip(prefix.len() as int))]
    } else {
        seq![]
    }
}

/// The outline entries of one line: `\\section{…}`, `\\subsection{…}` and
/// `\\subsubsection{…}` at the start of the trimmed line, indented by level.
pub open spec fn outline_entries(line: Seq<char>) -> Seq<Seq<char>> {
    let t = trim(line);
    heading_entry(t, "\\section{"@, ""@) + heading_entry(t, "\\subsection{"@, "  "@)
        + heading_entry(t, "\\subsubsection{"@, "    "@)
}

/// The outline entries of the lines `ls`, in order.
pub open spec fn outline_of(ls: Seq<Seq<char>>) -> Seq<Seq<char>>
    decreases ls.len(),
{
    if ls.len() == 0 {
        seq![]
    } else {
        outline_of(ls.drop_last()) + outline_entries(ls.last())
    }
}

/// The pieces joined with line breaks between them.
pub open spec fn join_lines(ss: Seq<Seq<char>>) -> Seq<char>
    decreases ss.len(),
{
    if ss.len() == 0 {
        Seq::empty()
    } else if ss.len() == 1 {
        ss[0]
    } else {
        join_lines(ss.drop_last()) + "\n"@ + ss.last()
    }
}

fn append_line(out: &mut String, empty: &mut bool, piece: &str)
    ensures
        !*final(empty),
        final(out)@ == (if *old(empty) {
            Seq::empty()
        } else {
            old(out)@ + "\n"@
        }) + piece@,
{
    if *empty {
        *out = String::new();
    } else {
        out.append("\n");
    }
    out.append(piece);
    *empty = false;
}

fn heading(
    cs: &Vec<char>,
    p: usize,
    q: usize,
    prefix: &str,
    depth: &str,
    out: &mut String,
    empty: &mut bool,
    entries: Ghost<Seq<Seq<char>>>,
) -> (new_entries: Ghost<Seq<Seq<char>>>)
    requires
        p <= q <= cs@.len(),
        *old(empty) == (entries@.len() == 0),
        old(out)@ == join_lines(entries@),
    ensures
        new_entries@ == entries@ + heading_entry(cs@.subrange(p as int, q as int), prefix@, depth@),
        *final(empty) == (new_entries@.len() == 0),
        final(out)@ == join_lines(new_entries@),
{
    let pat = chars_of(prefix);
    if starts_with_at(cs, p, q, &pat) {
        let start = p + pat.len();
        let close = position_or_end(cs, start, q, '}');
        proof {
            let t = cs@.subrange(p as int, q as int);
            let rest = t.skip(prefix@.len() as int);
            assert(rest =~= cs@.subrange(start as int, q as int));
            lemma_before_brace(rest, close - start);
            assert(rest.take(close - start) =~= cs@.subrange(start as int, close as int));
            assert(t.take(prefix@.len() as int) =~= cs@.subrange(p as int, p + pat@.len()));
        }
        let title = string_from_chars(cs, start, close);
        let mut entry = crate::collab::prefixed(depth, "• ");
        entry.append(title.as_str());
        let ghost old_entries = entries@;
        append_line(out, empty, entry.as_str());
        proof {
            let ne = old_entries.push(entry@);
            assert(ne.drop_last() =~= old_entries);
            assert(entries@ + heading_entry(cs@.subrange(p as int, q as int), prefix@, depth@) =~= ne);
        }
        Ghost(entries@.push(entry@))
    } else {
        proof {
            let t = cs@.subrange(p as int, q as int);
            if prefix@.len() <= t.len() {
                assert(t.take(prefix@.len() as int) =~= cs@.subrange(p as int, p + pat@.len()));
            }
            assert(entries@ + heading_entry(cs@.subrange(p as int, q as int), prefix@, depth@) =~= entries@);
        }
        entries
    }
}

proof fn lemma_outline_push(ls: Seq<Seq<char>>, k: int)
    requires
        0 <= k < ls.len(),
    ensures
        outline_of(ls.take(k + 1)) == outline_of(ls.take(k)) + outline_entries(ls[k]),
{
    assert(ls.take(k + 1).drop_last() =~= ls.take(k));
    assert(ls.take(k + 1).last() == ls[k]);
}

/// The document outline: one entry per section, subsection and
/// subsubsection heading that starts a line, indented by level, one per
/// line.
pub fn extract_outline(content: &str) -> (r: String)
    ensures
        r@ == join_lines(outline_of(lines(content@))),
{
    let cs = chars_of(content);
    let ranges = line_ranges(&cs);
    let ghost ls = lines(cs@);
    let mut out = String::new();
    let mut empty = true;
    let mut entries: Ghost<Seq<Seq<char>>> = Ghost(Seq::empty());
    let mut k: usize = 0;
    proof {
        assert(ls.take(0) =~= Seq::<Seq<char>>::empty());
        reveal_strlit("");
    }
    while k < ranges.len()
        invariant
            ranges@.len() == ls.len(),
            ls == lines(cs@),
            forall|j: int|
                #![trigger ranges@[j]]
                0 <= j < ranges@.len() ==> ranges@[j].0 <= ranges@[j].1 <= cs@.len()
                    && cs@.subrange(ranges@[j].0 as int, ranges@[j].1 as int) == ls[j],
            k <= ls.len(),
            entries@ == outline_of(ls.take(k as int)),
            empty == (entries@.len() == 0),
            out@ == join_lines(entries@),
        decreases ls.len() - k,
    {
        let (a, b) = ranges[k];
        let (p, q) = trim_range(&cs, a, b);
        let ghost e0 = entries@;
        entries = heading(&cs, p, q, "\\section{", "", &mut out, &mut empty, entries);
        entries = heading(&cs, p, q, "\\subsection{", "  ", &mut out, &mut empty, entries);
        entries = heading(&cs, p, q, "\\subsubsection{", "    ", &mut out, &mut empty, entries);
        proof {
            lemma_outline_push(ls, k as int);
            let t = cs@.subrange(p as int, q as int);
            assert(t == trim(ls[k as int]));
            assert(entries@ =~= e0 + outline_entries(ls[k as int]));
        }
        k += 1;
    }
    proof {
        assert(ls.take(k as int) =~= ls);
    }
    out
}

/// The file a `\\input{…}` or `\\include{…}` line names, when the trimmed
/// line `t` starts with `command`: the text up to the closing brace, with
/// `.tex` added unless it already ends so.
pub open spec fn included_file(t: Seq<char>, command: Seq<char>) -> Option<Seq<char>> {
    if command.len() <= t.len() && t.take(command.len() as int) == command {
        let path = before_brace(t.skip(command.len() as int));
        if ".tex"@.len() <= path.len() && path.skip(path.len() - ".tex"@.len()) == ".tex"@ {
            Some(path)
        } else {
            Some(path + ".tex"@)
        }
    } else {
        None
    }
}

/// `files` with `f` added at the end, unless it is already listed.
pub open spec fn add_file(files: Seq<Seq<char>>, f: Option<Seq<char>>) -> Seq<Seq<char>> {
    match f {
        Some(name) => if files.contains(name) {
            files
        } else {
            files.push(name)
        },
        None => files,
    }
}

/// The entries every project tree starts with.
pub open spec fn default_files() -> Seq<Seq<char>> {
    seq!["main.tex"@, "sections/"@, "figures/"@]
}

/// The project files listed for the lines `ls`: the defaults, then each
/// included file in order of first mention.
pub open spec fn project_files(ls: Seq<Seq<char>>) -> Seq<Seq<char>>
    decreases ls.len(),
{
    if ls.len() == 0 {
        default_files()
    } else {
        let t = trim(ls.last());
        add_file(
            add_file(project_files(ls.drop_last()), included_file(t, "\\input{"@)),
            included_file(t, "\\include{"@),
        )
    }
}

/// The views of a list of strings.
pub open spec fn views(v: Seq<String>) -> Seq<Seq<char>> {
    v.map_values(|s: String| s@)
}

fn listed(files: &Vec<String>, name: &str) -> (r: bool)
    ensures
        r == views(files@).contains(name@),
{
    let mut i: usize = 0;
    while i < files.len()
        invariant
            i <= files@.len(),
            forall|j: int| 0 <= j < i ==> files@[j]@ != name@,
        decreases files@.len() - i,
    {
        if str_eq(files[i].as_str(), name) {
            assert(views(files@)[i as int] == name@);
            return true;
        }
        i += 1;
    }
    proof {
        if views(files@).contains(name@) {
            let j = choose|j: int| 0 <= j < views(files@).len() && views(files@)[j] == name@;
            assert(files@[j]@ == name@);
        }
    }
    false
}

fn included_name(cs: &Vec<char>, p: usize, q: usize, command: &str) -> (r: Option<String>)
    requires
        p <= q <= cs@.len(),
    ensures
        match r {
            Some(name) => included_file(cs@.subrange(p as int, q as int), command@) == Some(name@),
            None => included_file(cs@.subrange(p as int, q as int), command@) is None,
        },
{
    let pat = chars_of(command);
    let ghost t = cs@.subrange(p as int, q as int);
    if starts_with_at(cs, p, q, &pat) {
        let start = p + pat.len();
        let close = position_or_end(cs, start, q, '}');
        proof {
            let rest = t.skip(command@.len() as int);
            assert(rest =~= cs@.subrange(start as int, q as int));
            lemma_before_brace(rest, close - start);
            assert(rest.take(close - start) =~= cs@.subrange(start as int, close as int));
            assert(t.take(command@.len() as int) =~= cs@.subrange(p as int, p + pat@.len()));
            reveal_strlit(".tex");
        }
        let mut candidate = string_from_chars(cs, start, close);
        if !str_ends_with(candidate.as_str(), ".tex") {
            candidate.append(".tex");
        }
        Some(candidate)
    } else {
        proof {
            if command@.len() <= t.len() {
                assert(t.take(command@.len() as int) =~= cs@.subrange(p as int, p + pat@.len()));
            }
        }
        None
    }
}

fn include_step(
    cs: &Vec<char>,
    p: usize,
    q: usize,
    command: &str,
    files: &mut Vec<String>,
)
    requires
        p <= q <= cs@.len(),
    ensures
        views(final(files)@) == add_file(
            views(old(files)@),
            included_file(cs@.subrange(p as int, q as int), command@),
        ),
{
    match included_name(cs, p, q, command) {
        Some(candidate) => {
            if !listed(files, candidate.as_str()) {
                let ghost before = files@;
                files.push(candidate);
                proof {
                    assert(views(files@) =~= views(before).push(files@.last()@));
                }
            }
        },
        None => {},
    }
}

proof fn lemma_files_push(ls: Seq<Seq<char>>, k: int)
    requires
        0 <= k < ls.len(),
    ensures
        project_files(ls.take(k + 1)) == add_file(
            add_file(project_files(ls.take(k)), included_file(trim(ls[k]), "\\input{"@)),
            included_file(trim(ls[k]), "\\include{"@),
        ),
{
    assert(ls.take(k + 1).drop_last() =~= ls.take(k));
    assert(ls.take(k + 1).last() == ls[k]);
}

/// `files` joined with line breaks.
fn join_files(files: &Vec<String>) -> (r: String)
    ensures
        r@ == join_lines(views(files@)),
{
    let mut out = String::new();
    let mut i: usize = 0;
    proof {
        reveal_strlit("");
        assert(views(files@).take(0) =~= Seq::<Seq<char>>::empty());
    }
    while i < files.len()
        invariant
            i <= files@.len(),
            out@ == join_lines(views(files@).take(i as int)),
        decreases files@.len() - i,
    {
        let ghost vs = views(files@);
        if i > 0 {
            out.append("\n");
        }
        out.append(files[i].as_str());
        proof {
            let t = vs.take(i + 1);
            assert(t.drop_last() =~= vs.take(i as int));
            assert(t.last() == files@[i as int]@);
            if i == 0 {
                assert(out@ =~= files@[0]@);
            }
        }
        i += 1;
    }
    proof {
        assert(views(files@).take(i as int) =~= views(files@));
    }
    out
}

/// The project tree: `main.tex`, `sections/` and `figures/`, then every
/// file an `\\input{…}` or `\\include{…}` line brings in (with `.tex`
/// added where it is missing), each once, one per line.
pub fn extract_project_tree(content: &str) -> (r: String)
    ensures
        r@ == join_lines(project_files(lines(content@))),
{
    let cs = chars_of(content);
    let ranges = line_ranges(&cs);
    let ghost ls = lines(cs@);
    let mut files: Vec<String> = Vec::new();
    files.push(String::from_str("main.tex"));
    files.push(String::from_str("sections/"));
    files.push(String::from_str("figures/"));
    let mut k: usize = 0;
    proof {
        reveal_strlit("main.tex");
        reveal_strlit("sections/");
        reveal_strlit("figures/");
        assert(ls.take(0) =~= Seq::<Seq<char>>::empty());
        assert(views(files@) =~= default_files());
    }
    while k < ranges.len()
        invariant
            ranges@.len() == ls.len(),
            ls == lines(cs@),
            forall|j: int|
                #![trigger ranges@[j]]
                0 <= j < ranges@.len() ==> ranges@[j].0 <= ranges@[j].1 <= cs@.len()
                    && cs@.subrange(ranges@[j].0 as int, ranges@[j].1 as int) == ls[j],
            k <= ls.len(),
            views(files@) == project_files(ls.take(k as int)),
        decreases ls.len() - k,
    {
        let (a, b) = ranges[k];
        let (p, q) = trim_range(&cs, a, b);
        include_step(&cs, p, q, "\\input{", &mut files);
        include_step(&cs, p, q, "\\include{", &mut files);
        proof {
            lemma_files_push(ls, k as int);
            assert(cs@.subrange(p as int, q as int) == trim(ls[k as int]));
        }
        k += 1;
    }
    proof {
        assert(ls.take(k as int) =~= ls);
    }
    join_files(&files)
}

/// Whether position `i` of `s` starts a word: a non-white-space character
/// at the start or after white space.
pub open spec fn starts_word(s: Seq<char>, i: int) -> bool {
    !is_white_space(s[i]) && (i == 0 || is_white_space(s[i - 1]))
}

/// The number of words of `s` (maximal runs of non-white-space
/// characters, as `split_whitespace` yields them).
pub open spec fn words(s: Seq<char>) -> nat
    decreases s.len(),
{
    if s.len() == 0 {
        0
    } else {
        words(s.drop_last()) + if starts_word(s, s.len() - 1) {
            1nat
        } else {
            0nat
        }
    }
}

/// The number of white-space separated words of `content`.
pub fn word_count(content: &str) -> (n: usize)
    ensures
        n == words(content@),
{
    let cs = chars_of(content);
    let mut n: usize = 0;
    let mut i: usize = 0;
    proof {
        assert(cs@.take(0) =~= Seq::<char>::empty());
    }
    while i < cs.len()
        invariant
            i <= cs@.len(),
            n <= i,
            n == words(cs@.take(i as int)),
        decreases cs@.len() - i,
    {
        let start = !white_space(cs[i]) && (i == 0 || white_space(cs[i - 1]));
        proof {
            let t = cs@.take(i + 1);
            assert(t.drop_last() =~= cs@.take(i as int));
            assert(starts_word(t, i as int) == start);
        }
        if start {
            n += 1;
        }
        i += 1;
    }
    proof {
        assert(cs@.take(i as int) =~= cs@);
    }
    n
}

/// The line count the status bar shows: the number of lines, at least one.
pub fn line_count(content: &str) -> (n: usize)
    ensures
        n == (if lines(content@).len() == 0 {
            1
        } else {
            lines(content@).len()
        }),
{
    let cs = chars_of(content);
    let ranges = line_ranges(&cs);
    if ranges.len() == 0 {
        1
    } else {
        ranges.len()
    }
}

/// The cursor column the status bar shows: one past the length of the
/// last line (the cursor is taken to be at the end of the document).
pub fn cursor_column(content: &str) -> (n: usize)
    requires
        content@.len() < usize::MAX,
    ensures
        n == (if lines(content@).len() == 0 {
            0
        } else {
            lines(content@).last().len()
        }) + 1,
{
    let cs = chars_of(content);
    let ranges = line_ranges(&cs);
    if ranges.len() == 0 {
        1
    } else {
        let (a, b) = ranges[ranges.len() - 1];
        proof {
            assert(ranges@[ranges@.len() - 1] == (a, b));
        }
        b - a + 1
    }
}

/// The number of non-empty lines among `ls`.
pub open spec fn nonempty_count(ls: Seq<Seq<char>>) -> nat
    decreases ls.len(),
{
    if ls.len() == 0 {
        0
    } else {
        nonempty_count(ls.drop_last()) + if ls.last().len() > 0 {
            1nat
        } else {
            0nat
        }
    }
}

/// The number of non-empty lines of `s`.
pub fn nonempty_line_count(s: &str) -> (n: usize)
    ensures
        n == nonempty_count(lines(s@)),
{
    let cs = chars_of(s);
    let ranges = line_ranges(&cs);
    let ghost ls = lines(cs@);
    let mut n: usize = 0;
    let mut k: usize = 0;
    proof {
        assert(ls.take(0) =~= Seq::<Seq<char>>::empty());
    }
    while k < ranges.len()
        invariant
            ranges@.len() == ls.len(),
            ls == lines(cs@),
            forall|j: int|
                #![trigger ranges@[j]]
                0 <= j < ranges@.len() ==> ranges@[j].0 <= ranges@[j].1 <= cs@.len()
                    && cs@.subrange(ranges@[j].0 as int, ranges@[j].1 as int) == ls[j],
            k <= ls.len(),
            n <= k,
            n == nonempty_count(ls.take(k as int)),
        decreases ls.len() - k,
    {
        let (a, b) = ranges[k];
        proof {
            assert(ls.take(k + 1).drop_last() =~= ls.take(k as int));
            assert(ls.take(k + 1).last() == ls[k as int]);
        }
        if a < b {
            n += 1;
        }
        k += 1;
    }
    proof {
        assert(ls.take(k as int) =~= ls);
    }
    n
}

/// The badge next to the outline heading: the number of outline lines,
/// or nothing when there are none.
pub fn outline_badge(outline: &str) -> (r: String)
    ensures
        r@ == (if nonempty_count(lines(outline@)) == 0 {
            Seq::empty()
        } else {
            crate::compiler::digits(nonempty_count(lines(outline@)))
        }),
{
    let n = nonempty_line_count(outline);
    if n == 0 {
        proof {
            reveal_strlit("");
        }
        String::new()
    } else {
        crate::editor::count_text(n)
    }
}

/// The outline panel's text: the outline, or a hint when it is empty.
pub fn outline_panel_text(outline: String) -> (r: String)
    ensures
        r@ == (if outline@.len() == 0 {
            "No headings yet."@
        } else {
            outline@
        }),
{
    if outline.as_str().unicode_len() == 0 {
        crate::collab::str_to_string("No headings yet.")
    } else {
        outline
    }
}


/// Words of a concatenation: the words of `s` and of `t` together, less
/// one when `s` ends and `t` starts inside the same word (a non-white-space
/// character on each side of the seam).
pub proof fn lemma_words_concat(s: Seq<char>, t: Seq<char>)
    ensures
        words(s + t) + (if s.len() > 0 && t.len() > 0 && !is_white_space(s.last())
            && !is_white_space(t[0]) {
            1int
        } else {
            0int
        }) == words(s) + words(t),
    decreases t.len(),
{
    if t.len() == 0 {
        assert(s + t =~= s);
    } else {
        let t1 = t.drop_last();
        lemma_words_concat(s, t1);
        assert((s + t).drop_last() =~= s + t1);
        let st = s + t;
        let x = t.last();
        assert(st.last() == x);
        if t1.len() == 0 {
            assert(t1 =~= Seq::<char>::empty());
            assert(t.drop_last() =~= Seq::<char>::empty());
            assert(s + t1 =~= s);
            assert(words(t1) == 0);
            if s.len() > 0 {
                assert(st[st.len() - 2] == s.last());
            }
            assert(t[0] == x);
        } else {
            assert(st[st.len() - 2] == t[t.len() - 2]);
            assert(t1[0] == t[0]);
        }
    }
}

/// Typing a non-white-space character right after another one (inside or
/// at the end of a word) leaves the number of words as it was: words are
/// the maximal runs of non-white-space characters, whatever they hold.
pub proof fn lemma_words_insert_in_word(s: Seq<char>, i: int, c: char)
    requires
        0 < i <= s.len(),
        !is_white_space(s[i - 1]),
        !is_white_space(c),
    ensures
        words(s.insert(i, c)) == words(s),
{
    let a = s.take(i);
    let b = s.skip(i);
    assert(s =~= a + b);
    assert(s.insert(i, c) =~= (a + seq![c]) + b);
    assert(a.last() == s[i - 1]);
    lemma_words_concat(a, seq![c]);
    assert(seq![c].drop_last() =~= Seq::<char>::empty());
    assert(words(seq![c].drop_last()) == 0);
    assert(seq![c][0] == c);
    assert(words(seq![c]) == 1);
    lemma_words_concat(a + seq![c], b);
    lemma_words_concat(a, b);
    assert((a + seq![c]).last() == c);
}

/// Words separated by white space add up: joining two texts with a
/// white-space character between them gives the words of both.
pub proof fn lemma_words_join_with_space(s: Seq<char>, w: char, t: Seq<char>)
    requires
        is_white_space(w),
    ensures
        words(s + seq![w] + t) == words(s) + words(t),
{
    lemma_words_concat(s, seq![w]);
    assert(seq![w].drop_last() =~= Seq::<char>::empty());
    assert(words(seq![w].drop_last()) == 0);
    assert(seq![w][0] == w);
    assert(words(seq![w]) == 0);
    lemma_words_concat(s + seq![w], t);
    assert((s + seq![w]).last() == w);
}

} // verus!
