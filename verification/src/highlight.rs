//! The LaTeX line highlighter: which byte ranges of an editor line are
//! commands, environment names, math, delimiters and comments. The editor
//! paints the spans in the order they are returned, later ones over
//! earlier ones.

use vstd::prelude::*;
use vstd::utf8::*;

use crate::text::{bytes_of, str_take, utf8_len};

verus! {

broadcast use group_utf8_lib;

#[derive(Clone, Copy, PartialEq, Eq, Structural, Debug)]
pub enum SpanKind {
    Command,
    Environment,
    Math,
    Delimiter,
    Comment,
}

/// The bytes `start..end` of a line, to be painted as `kind`.
#[derive(Clone, Copy, PartialEq, Eq, Structural, Debug)]
pub struct Span {
    pub start: usize,
    pub end: usize,
    pub kind: SpanKind,
}

pub open spec fn span(start: int, end: int, kind: SpanKind) -> Span {
    Span { start: start as usize, end: end as usize, kind }
}

/// The number of backslashes right before position `i`.
pub open spec fn backslashes_before(b: Seq<u8>, i: int) -> nat
    decreases i,
{
    if i > 0 && b[i - 1] == 92 {
        1 + backslashes_before(b, i - 1)
    } else {
        0
    }
}

/// A character is escaped when an odd number of backslashes precede it.
pub open spec fn escaped(b: Seq<u8>, i: int) -> bool {
    backslashes_before(b, i) % 2 == 1
}

/// Whether the byte at `index` is escaped by the backslashes before it.
pub fn is_escaped(bytes: &[u8], index: usize) -> (r: bool)
    requires
        index <= bytes@.len(),
    ensures
        r == escaped(bytes@, index as int),
{
    let mut backslashes: usize = 0;
    let mut cursor = index;
    while cursor > 0 && bytes[cursor - 1] == 92
        invariant
            cursor <= index <= bytes@.len(),
            backslashes + backslashes_before(bytes@, cursor as int) == backslashes_before(
                bytes@,
                index as int,
            ),
            backslashes <= index - cursor,
        decreases cursor,
    {
        cursor -= 1;
        backslashes += 1;
    }
    backslashes % 2 == 1
}

/// An unescaped `%` at `i`.
pub open spec fn comment_at(b: Seq<u8>, i: int) -> bool {
    b[i] == 37 && !escaped(b, i)
}

/// The byte position of the first unescaped `%` of the line, where its
/// comment starts.
pub fn comment_start(line: &str) -> (r: Option<usize>)
    ensures
        match r {
            Some(i) => i < bytes_of(line@).len() && comment_at(bytes_of(line@), i as int)
                && forall|j: int| 0 <= j < i ==> !comment_at(bytes_of(line@), j),
            None => forall|j: int| 0 <= j < bytes_of(line@).len() ==> !comment_at(bytes_of(line@), j),
        },
{
    let bytes = line.as_bytes();
    let n = bytes.len();
    let mut index: usize = 0;
    while index < n
        invariant
            bytes@ == bytes_of(line@),
            n == bytes@.len(),
            index <= n,
            forall|j: int| 0 <= j < index ==> !comment_at(bytes@, j),
        decreases n - index,
    {
        if bytes[index] == 37 && !is_escaped(bytes, index) {
            return Some(index);
        }
        index += 1;
    }
    None
}

/// A byte that can continue a control word: an ASCII letter or `@`.
pub open spec fn is_cmd_byte(c: u8) -> bool {
    (65 <= c <= 90) || (97 <= c <= 122) || c == 64
}

/// The end of the run of control-word bytes starting at `i`, not past
/// `limit`.
pub open spec fn word_end(b: Seq<u8>, i: int, limit: int) -> int
    decreases limit - i,
{
    if i < limit && is_cmd_byte(b[i]) {
        word_end(b, i + 1, limit)
    } else {
        i
    }
}

/// Where the command that starts with the backslash at `start` ends: after
/// the letters of a control word, or after the one character of a control
/// symbol, never past `limit` (unless nothing follows the backslash).
pub open spec fn cmd_end(b: Seq<u8>, start: int, limit: int) -> int {
    if start + 1 >= limit {
        start + 1
    } else if is_cmd_byte(b[start + 1]) {
        word_end(b, start + 2, limit)
    } else {
        if start + 2 <= limit {
            start + 2
        } else {
            limit
        }
    }
}

proof fn lemma_word_end(b: Seq<u8>, i: int, limit: int)
    requires
        i <= limit,
    ensures
        i <= word_end(b, i, limit) <= limit,
        forall|k: int| i <= k < word_end(b, i, limit) ==> is_cmd_byte(#[trigger] b[k]),
        word_end(b, i, limit) < limit ==> !is_cmd_byte(b[word_end(b, i, limit)]),
    decreases limit - i,
{
    if i < limit && is_cmd_byte(b[i]) {
        lemma_word_end(b, i + 1, limit);
    }
}

/// The end of the command starting with the backslash at `start` (see
/// [`cmd_end`]); just past `start` when nothing before `limit` follows it.
pub fn command_end(line: &str, start: usize, limit: usize) -> (e: usize)
    requires
        limit <= bytes_of(line@).len(),
        start < usize::MAX,
    ensures
        e == cmd_end(bytes_of(line@), start as int, limit as int),
        start < e,
        start < limit ==> e <= limit,
        start + 1 >= limit ==> e == start + 1,
{
    let bytes = line.as_bytes();
    if start + 1 >= limit {
        return start + 1;
    }
    let next = bytes[start + 1];
    if (65 <= next && next <= 90) || (97 <= next && next <= 122) || next == 64 {
        let mut index = start + 2;
        proof {
            lemma_word_end(bytes@, index as int, limit as int);
        }
        while index < limit && ((65 <= bytes[index] && bytes[index] <= 90) || (97 <= bytes[index]
            && bytes[index] <= 122) || bytes[index] == 64)
            invariant
                bytes@ == bytes_of(line@),
                start + 2 <= index <= limit <= bytes@.len(),
                word_end(bytes@, index as int, limit as int) == word_end(
                    bytes@,
                    start + 2,
                    limit as int,
                ),
            decreases limit - index,
        {
            index += 1;
        }
        index
    } else {
        if start + 2 <= limit {
            start + 2
        } else {
            limit
        }
    }
}

/// ASCII white space as `u8::is_ascii_whitespace` has it.
pub open spec fn is_ascii_ws(c: u8) -> bool {
    c == 32 || c == 9 || c == 10 || c == 12 || c == 13
}

/// The first position at or after `i` (before `limit`) that is not ASCII
/// white space.
pub open spec fn skip_ascii_ws(b: Seq<u8>, i: int, limit: int) -> int
    decreases limit - i,
{
    if i < limit && is_ascii_ws(b[i]) {
        skip_ascii_ws(b, i + 1, limit)
    } else {
        i
    }
}

/// The first position at or after `i` (before `limit`) holding `x`.
pub open spec fn find_byte(b: Seq<u8>, i: int, limit: int, x: u8) -> Option<int>
    decreases limit - i,
{
    if i < limit {
        if b[i] == x {
            Some(i)
        } else {
            find_byte(b, i + 1, limit, x)
        }
    } else {
        None
    }
}

/// `begin` or `end`.
pub open spec fn is_begin_or_end(name: Seq<u8>) -> bool {
    name == seq![98u8, 101u8, 103u8, 105u8, 110u8] || name == seq![101u8, 110u8, 100u8]
}

/// The environment name after `\begin` / `\end` (the command `name` ends
/// at `e`): the text inside the braces that follow, after optional white
/// space, up to the first closing brace before `limit`, when not empty.
pub open spec fn env_spans(b: Seq<u8>, e: int, limit: int, name: Seq<u8>) -> Seq<Span> {
    if is_begin_or_end(name) {
        let c = skip_ascii_ws(b, e, limit);
        if c < limit && b[c] == 123 {
            match find_byte(b, c + 1, limit, 125) {
                Some(close) => if c + 1 < close {
                    seq![span(c + 1, close, SpanKind::Environment)]
                } else {
                    seq![]
                },
                None => seq![],
            }
        } else {
            seq![]
        }
    } else {
        seq![]
    }
}

/// The command spans (with environment names) found scanning from `index`
/// to `limit`.
pub open spec fn commands_from(b: Seq<u8>, limit: int, index: int) -> Seq<Span>
    decreases limit - index,
{
    if index >= limit {
        seq![]
    } else if b[index] != 92 {
        commands_from(b, limit, index + 1)
    } else {
        let e = cmd_end(b, index, limit);
        if e <= index + 1 || e > limit {
            commands_from(b, limit, index + 1)
        } else {
            seq![span(index, e, SpanKind::Command)] + env_spans(b, e, limit, b.subrange(index + 1, e))
                + commands_from(b, limit, e)
        }
    }
}

/// No command found scanning from `index` is a backslash followed by a
/// multi-byte character: taking the name of such a command would cut that
/// character in two.
pub open spec fn commands_ok(b: Seq<u8>, limit: int, index: int) -> bool
    decreases limit - index,
{
    if index >= limit {
        true
    } else if b[index] != 92 {
        commands_ok(b, limit, index + 1)
    } else {
        let e = cmd_end(b, index, limit);
        if e <= index + 1 || e > limit {
            commands_ok(b, limit, index + 1)
        } else {
            b[index + 1] < 128 && commands_ok(b, limit, e)
        }
    }
}

fn is_begin_or_end_at(bytes: &[u8], from: usize, to: usize) -> (r: bool)
    requires
        from <= to <= bytes@.len(),
    ensures
        r == is_begin_or_end(bytes@.subrange(from as int, to as int)),
{
    let ghost name = bytes@.subrange(from as int, to as int);
    if to - from == 5 {
        let r = bytes[from] == 98 && bytes[from + 1] == 101 && bytes[from + 2] == 103 && bytes[from
            + 3] == 105 && bytes[from + 4] == 110;
        proof {
            if r {
                assert(name =~= seq![98u8, 101u8, 103u8, 105u8, 110u8]);
            } else {
                assert(name.len() != 3);
                if name == seq![98u8, 101u8, 103u8, 105u8, 110u8] {
                    assert(name[0] == 98 && name[1] == 101 && name[2] == 103 && name[3] == 105
                        && name[4] == 110);
                }
            }
        }
        r
    } else if to - from == 3 {
        let r = bytes[from] == 101 && bytes[from + 1] == 110 && bytes[from + 2] == 100;
        proof {
            if r {
                assert(name =~= seq![101u8, 110u8, 100u8]);
            } else {
                if name == seq![101u8, 110u8, 100u8] {
                    assert(name[0] == 101 && name[1] == 110 && name[2] == 100);
                }
            }
        }
        r
    } else {
        proof {
            assert(seq![98u8, 101u8, 103u8, 105u8, 110u8].len() == 5);
            assert(seq![101u8, 110u8, 100u8].len() == 3);
        }
        false
    }
}

fn environment_span(bytes: &[u8], e: usize, limit: usize) -> (r: Option<Span>)
    requires
        e <= limit <= bytes@.len(),
    ensures
        (match r {
            Some(s) => seq![s],
            None => seq![],
        }) == env_spans(bytes@, e as int, limit as int, seq![98u8, 101u8, 103u8, 105u8, 110u8]),
{
    let mut cursor = e;
    while cursor < limit && (bytes[cursor] == 32 || bytes[cursor] == 9 || bytes[cursor] == 10
        || bytes[cursor] == 12 || bytes[cursor] == 13)
        invariant
            e <= cursor <= limit <= bytes@.len(),
            skip_ascii_ws(bytes@, cursor as int, limit as int) == skip_ascii_ws(
                bytes@,
                e as int,
                limit as int,
            ),
        decreases limit - cursor,
    {
        cursor += 1;
    }
    if cursor < limit && bytes[cursor] == 123 {
        let mut k = cursor + 1;
        while k < limit && bytes[k] != 125
            invariant
                cursor + 1 <= k <= limit <= bytes@.len(),
                find_byte(bytes@, k as int, limit as int, 125) == find_byte(
                    bytes@,
                    cursor + 1,
                    limit as int,
                    125,
                ),
            decreases limit - k,
        {
            k += 1;
        }
        if k < limit && cursor + 1 < k {
            Some(Span { start: cursor + 1, end: k, kind: SpanKind::Environment })
        } else {
            None
        }
    } else {
        None
    }
}

/// The command spans of a line up to `limit`: every unescaped control
/// word or control symbol, each followed, for `\begin` / `\end`, by the
/// environment name in the braces after it.
pub fn highlight_commands(line: &str, limit: usize) -> (spans: Vec<Span>)
    requires
        limit <= bytes_of(line@).len(),
        commands_ok(bytes_of(line@), limit as int, 0),
    ensures
        spans@ == commands_from(bytes_of(line@), limit as int, 0),
{
    let bytes = line.as_bytes();
    let ghost b = bytes@;
    let mut spans: Vec<Span> = Vec::new();
    let mut index: usize = 0;
    while index < limit
        invariant
            b == bytes@,
            b == bytes_of(line@),
            limit <= b.len(),
            index <= limit,
            commands_ok(b, limit as int, index as int),
            spans@ + commands_from(b, limit as int, index as int) == commands_from(
                b,
                limit as int,
                0,
            ),
        decreases limit - index,
    {
        if bytes[index] != 92 {
            index += 1;
        } else {
            let ce = command_end(line, index, limit);
            if ce <= index + 1 {
                index += 1;
            } else {
                let ghost before = spans@;
                spans.push(Span { start: index, end: ce, kind: SpanKind::Command });
                let ghost env = env_spans(b, ce as int, limit as int, b.subrange(index + 1, ce as int));
                if is_begin_or_end_at(bytes, index + 1, ce) {
                    let env_span = environment_span(bytes, ce, limit);
                    match env_span {
                        Some(s) => {
                            spans.push(s);
                        },
                        None => {},
                    }
                    proof {
                        assert(env == env_spans(b, ce as int, limit as int, seq![98u8, 101u8, 103u8, 105u8, 110u8]));
                        assert(spans@ =~= before + seq![span(index as int, ce as int, SpanKind::Command)] + env);
                    }
                } else {
                    proof {
                        assert(env =~= Seq::<Span>::empty());
                        assert(spans@ =~= before + seq![span(index as int, ce as int, SpanKind::Command)] + env);
                    }
                }
                proof {
                    assert(before + commands_from(b, limit as int, index as int) == commands_from(b, limit as int, 0));
                    assert(commands_from(b, limit as int, index as int) == seq![span(index as int, ce as int, SpanKind::Command)] + env + commands_from(b, limit as int, ce as int));
                    assert(spans@ + commands_from(b, limit as int, ce as int) =~= before + commands_from(b, limit as int, index as int));
                }
                index = ce;
            }
        }
    }
    proof {
        assert(spans@ + Seq::<Span>::empty() =~= spans@);
    }
    spans
}

/// The math spans found scanning from `index` to `limit`, with `open`
/// the start and delimiter length (`$` or `$$`) of a math span still open.
/// A closing delimiter must have the opening one's length; a span still
/// open at `limit` runs to `limit`.
pub open spec fn math_from(b: Seq<u8>, limit: int, index: int, open: Option<(int, int)>) -> Seq<
    Span,
>
    decreases limit - index,
{
    if index >= limit {
        match open {
            Some(o) => seq![span(o.0, limit, SpanKind::Math)],
            None => seq![],
        }
    } else if b[index] == 36 && !escaped(b, index) {
        let dl = if index + 1 < limit && b[index + 1] == 36 {
            2int
        } else {
            1int
        };
        match open {
            Some(o) => if o.1 == dl {
                seq![span(o.0, index + dl, SpanKind::Math)] + math_from(b, limit, index + dl, None)
            } else {
                math_from(b, limit, index + 1, open)
            },
            None => math_from(b, limit, index + dl, Some((index, dl))),
        }
    } else {
        math_from(b, limit, index + 1, open)
    }
}

pub open spec fn open_view(start: Option<usize>, len: usize) -> Option<(int, int)> {
    match start {
        Some(s) => Some((s as int, len as int)),
        None => None,
    }
}

/// The math spans of a line up to `limit`, between unescaped `$` … `$` or
/// `$$` … `$$`.
pub fn highlight_math(line: &str, limit: usize) -> (spans: Vec<Span>)
    requires
        limit <= bytes_of(line@).len(),
    ensures
        spans@ == math_from(bytes_of(line@), limit as int, 0, None),
{
    let bytes = line.as_bytes();
    let ghost b = bytes@;
    let mut spans: Vec<Span> = Vec::new();
    let mut index: usize = 0;
    let mut open_start: Option<usize> = None;
    let mut open_len: usize = 0;
    while index < limit
        invariant
            b == bytes@,
            b == bytes_of(line@),
            limit <= b.len(),
            index <= limit,
            open_len <= 2,
            open_start matches Some(s) ==> s <= index,
            spans@ + math_from(b, limit as int, index as int, open_view(open_start, open_len))
                == math_from(b, limit as int, 0, None),
        decreases limit - index,
    {
        let ghost before = spans@;
        let ghost o = open_view(open_start, open_len);
        if bytes[index] == 36 && !is_escaped(bytes, index) {
            let delim_len: usize = if index + 1 < limit && bytes[index + 1] == 36 {
                2
            } else {
                1
            };
            match open_start {
                Some(start) => {
                    if open_len == delim_len {
                        spans.push(Span { start, end: index + delim_len, kind: SpanKind::Math });
                        open_start = None;
                        open_len = 0;
                        index += delim_len;
                        assert(spans@ + math_from(b, limit as int, index as int, None) =~= before
                            + math_from(b, limit as int, index - delim_len, o));
                    } else {
                        index += 1;
                    }
                },
                None => {
                    open_start = Some(index);
                    open_len = delim_len;
                    index += delim_len;
                },
            }
        } else {
            index += 1;
        }
    }
    match open_start {
        Some(start) => {
            let ghost before = spans@;
            spans.push(Span { start, end: limit, kind: SpanKind::Math });
            assert(spans@ =~= before + math_from(b, limit as int, index as int, open_view(open_start, open_len)));
        },
        None => {
            assert(spans@ =~= spans@ + math_from(b, limit as int, index as int, None));
        },
    }
    spans
}

/// `{`, `}`, `[`, `]`, `(` or `)`.
pub open spec fn is_delim(c: u8) -> bool {
    c == 123 || c == 125 || c == 91 || c == 93 || c == 40 || c == 41
}

/// The delimiter spans among the first `n` bytes, one per delimiter.
pub open spec fn delims_upto(b: Seq<u8>, n: int) -> Seq<Span>
    decreases n,
{
    if n <= 0 {
        seq![]
    } else {
        delims_upto(b, n - 1) + (if is_delim(b[n - 1]) {
            seq![span(n - 1, n, SpanKind::Delimiter)]
        } else {
            seq![]
        })
    }
}

/// The delimiter spans of a line before `limit`: every bracket, brace and
/// parenthesis.
pub fn highlight_delimiters(line: &str, limit: usize) -> (spans: Vec<Span>)
    ensures
        spans@ == delims_upto(
            bytes_of(line@),
            if limit <= bytes_of(line@).len() {
                limit as int
            } else {
                bytes_of(line@).len() as int
            },
        ),
{
    let bytes = line.as_bytes();
    let n = if limit <= bytes.len() {
        limit
    } else {
        bytes.len()
    };
    let mut spans: Vec<Span> = Vec::new();
    let mut index: usize = 0;
    while index < n
        invariant
            bytes@ == bytes_of(line@),
            n <= bytes@.len(),
            index <= n,
            spans@ == delims_upto(bytes@, index as int),
        decreases n - index,
    {
        let c = bytes[index];
        if c == 123 || c == 125 || c == 91 || c == 93 || c == 40 || c == 41 {
            spans.push(Span { start: index, end: index + 1, kind: SpanKind::Delimiter });
        }
        index += 1;
    }
    spans
}

/// The length of a line without its line break (`\r\n` or `\n`).
pub open spec fn body_len(b: Seq<u8>) -> int {
    if b.len() >= 2 && b[b.len() - 2] == 13 && b[b.len() - 1] == 10 {
        b.len() - 2
    } else if b.len() >= 1 && b[b.len() - 1] == 10 {
        b.len() - 1
    } else {
        b.len() as int
    }
}

/// Where parsing of a line body stops: at its comment, or at its end.
pub open spec fn parse_limit(body: Seq<u8>) -> int {
    if exists|i: int| 0 <= i < body.len() && comment_at(body, i) {
        choose|i: int|
            0 <= i < body.len() && comment_at(body, i) && forall|j: int|
                0 <= j < i ==> !comment_at(body, j)
    } else {
        body.len() as int
    }
}

/// All spans of an editor line, in painting order: commands, math,
/// delimiters (all before the comment), then the comment itself.
pub open spec fn line_spans_spec(b: Seq<u8>) -> Seq<Span> {
    let body = b.take(body_len(b));
    let limit = parse_limit(body);
    if body.len() == 0 {
        seq![]
    } else {
        commands_from(body, limit, 0) + math_from(body, limit, 0, None) + delims_upto(body, limit)
            + (if limit < body.len() {
            seq![span(limit, body.len() as int, SpanKind::Comment)]
        } else {
            seq![]
        })
    }
}

/// Whether highlighting the line would cut a character in two (a
/// backslash followed by a multi-byte character).
pub open spec fn line_ok(b: Seq<u8>) -> bool {
    let body = b.take(body_len(b));
    commands_ok(body, parse_limit(body), 0)
}

proof fn lemma_first_comment_unique(b: Seq<u8>, i: int)
    requires
        0 <= i < b.len(),
        comment_at(b, i),
        forall|j: int| 0 <= j < i ==> !comment_at(b, j),
    ensures
        parse_limit(b) == i,
{
    let k = choose|k: int|
        0 <= k < b.len() && comment_at(b, k) && forall|j: int| 0 <= j < k ==> !comment_at(b, j);
    if k < i {
        assert(!comment_at(b, k));
    }
    if i < k {
        assert(!comment_at(b, i));
    }
}

/// The line body (without its line break) and where its parsing stops.
fn line_body(line: &str) -> (r: (&str, usize))
    ensures
        bytes_of(r.0@) == bytes_of(line@).take(body_len(bytes_of(line@))),
        r.1 == parse_limit(bytes_of(r.0@)),
        r.1 <= bytes_of(r.0@).len(),
{
    let bytes = line.as_bytes();
    let n = bytes.len();
    let body_n = if n >= 2 && bytes[n - 2] == 13 && bytes[n - 1] == 10 {
        n - 2
    } else if n >= 1 && bytes[n - 1] == 10 {
        n - 1
    } else {
        n
    };
    proof {
        let b = bytes@;
        assert(b == bytes_of(line@));
        encode_utf8_valid_utf8(line@);
        if body_n < n {
            is_char_boundary_iff_not_is_continuation_byte(b, body_n as int);
            assert(is_char_boundary(b, body_n as int));
        } else {
            is_char_boundary_start_end_of_seq(b);
        }
    }
    let body = str_take(line, body_n);
    let limit = match comment_start(body) {
        Some(i) => {
            proof {
                lemma_first_comment_unique(bytes_of(body@), i as int);
            }
            i
        },
        None => utf8_len(body),
    };
    (body, limit)
}

/// Whether scanning the commands of a line up to `limit` avoids cutting a
/// character in two (see [`commands_ok`]).
pub fn commands_check(line: &str, limit: usize) -> (r: bool)
    requires
        limit <= bytes_of(line@).len(),
    ensures
        r == commands_ok(bytes_of(line@), limit as int, 0),
{
    let bytes = line.as_bytes();
    let ghost b = bytes@;
    let mut index: usize = 0;
    while index < limit
        invariant
            b == bytes@,
            b == bytes_of(line@),
            limit <= b.len(),
            index <= limit,
            commands_ok(b, limit as int, index as int) == commands_ok(b, limit as int, 0),
        decreases limit - index,
    {
        if bytes[index] != 92 {
            index += 1;
        } else {
            let ce = command_end(line, index, limit);
            if ce <= index + 1 {
                index += 1;
            } else {
                if bytes[index + 1] >= 128 {
                    return false;
                }
                index = ce;
            }
        }
    }
    true
}

/// Whether the line can be highlighted without cutting a character in two
/// (see [`line_ok`]).
pub fn line_check(line: &str) -> (r: bool)
    ensures
        r == line_ok(bytes_of(line@)),
{
    let (body, limit) = line_body(line);
    commands_check(body, limit)
}

/// All spans of an editor line, in painting order: commands, math and
/// delimiters before the comment (or the line end), then the comment.
/// The line may end with its line break, which is not painted.
pub fn line_spans(line: &str) -> (spans: Vec<Span>)
    requires
        line_ok(bytes_of(line@)),
    ensures
        spans@ == line_spans_spec(bytes_of(line@)),
{
    let (body, limit) = line_body(line);
    let body_n = utf8_len(body);
    if body_n == 0 {
        return Vec::new();
    }
    let mut spans = highlight_commands(body, limit);
    let mut math = highlight_math(body, limit);
    spans.append(&mut math);
    let mut delimiters = highlight_delimiters(body, limit);
    spans.append(&mut delimiters);
    if limit < body_n {
        spans.push(Span { start: limit, end: body_n, kind: SpanKind::Comment });
    }
    spans
}

/// Whether every span of `ss` is non-empty and ends at or before `hi`.
pub open spec fn spans_within(ss: Seq<Span>, hi: int) -> bool {
    forall|i: int| 0 <= i < ss.len() ==> (#[trigger] ss[i]).start < ss[i].end <= hi
}

proof fn lemma_within_concat(a: Seq<Span>, c: Seq<Span>, hi: int)
    requires
        spans_within(a, hi),
        spans_within(c, hi),
    ensures
        spans_within(a + c, hi),
{
    assert forall|i: int| 0 <= i < (a + c).len() implies (#[trigger] (a + c)[i]).start < (a
        + c)[i].end <= hi by {
        if i < a.len() {
            assert((a + c)[i] == a[i]);
        } else {
            assert((a + c)[i] == c[i - a.len()]);
        }
    }
}

proof fn lemma_skip_ws_bounds(b: Seq<u8>, i: int, limit: int)
    requires
        i <= limit,
    ensures
        i <= skip_ascii_ws(b, i, limit) <= limit,
    decreases limit - i,
{
    if i < limit && is_ascii_ws(b[i]) {
        lemma_skip_ws_bounds(b, i + 1, limit);
    }
}

proof fn lemma_find_byte_bounds(b: Seq<u8>, i: int, limit: int, x: u8)
    ensures
        find_byte(b, i, limit, x) matches Some(k) ==> i <= k < limit,
    decreases limit - i,
{
    if i < limit && b[i] != x {
        lemma_find_byte_bounds(b, i + 1, limit, x);
    }
}

proof fn lemma_commands_within(b: Seq<u8>, limit: int, index: int)
    requires
        0 <= index,
        limit <= usize::MAX,
    ensures
        spans_within(commands_from(b, limit, index), limit),
    decreases limit - index,
{
    if index < limit {
        if b[index] != 92 {
            lemma_commands_within(b, limit, index + 1);
        } else {
            let e = cmd_end(b, index, limit);
            if e <= index + 1 || e > limit {
                lemma_commands_within(b, limit, index + 1);
            } else {
                lemma_commands_within(b, limit, e);
                let name = b.subrange(index + 1, e);
                if is_begin_or_end(name) {
                    lemma_skip_ws_bounds(b, e, limit);
                    let c = skip_ascii_ws(b, e, limit);
                    lemma_find_byte_bounds(b, c + 1, limit, 125);
                }
                let env = env_spans(b, e, limit, name);
                assert(spans_within(env, limit));
                let head = seq![span(index, e, SpanKind::Command)];
                assert(spans_within(head, limit));
                lemma_within_concat(head, env, limit);
                lemma_within_concat(head + env, commands_from(b, limit, e), limit);
            }
        }
    }
}

proof fn lemma_math_within(b: Seq<u8>, limit: int, index: int, open: Option<(int, int)>)
    requires
        0 <= index <= limit,
        limit <= usize::MAX,
        open matches Some(o) ==> 0 <= o.0 <= index && o.0 < limit,
    ensures
        spans_within(math_from(b, limit, index, open), limit),
    decreases limit - index,
{
    if index < limit {
        if b[index] == 36 && !escaped(b, index) {
            let dl = if index + 1 < limit && b[index + 1] == 36 {
                2int
            } else {
                1int
            };
            match open {
                Some(o) => {
                    if o.1 == dl {
                        lemma_math_within(b, limit, index + dl, None);
                        let head = seq![span(o.0, index + dl, SpanKind::Math)];
                        assert(spans_within(head, limit));
                        lemma_within_concat(head, math_from(b, limit, index + dl, None), limit);
                    } else {
                        lemma_math_within(b, limit, index + 1, open);
                    }
                },
                None => {
                    lemma_math_within(b, limit, index + dl, Some((index, dl)));
                },
            }
        } else {
            lemma_math_within(b, limit, index + 1, open);
        }
    }
}

proof fn lemma_delims_within(b: Seq<u8>, n: int)
    requires
        n <= usize::MAX,
    ensures
        spans_within(delims_upto(b, n), n),
    decreases n,
{
    if n > 0 {
        lemma_delims_within(b, n - 1);
        let d = delims_upto(b, n - 1);
        let tail = if is_delim(b[n - 1]) {
            seq![span(n - 1, n, SpanKind::Delimiter)]
        } else {
            seq![]
        };
        assert(spans_within(d, n));
        assert(spans_within(tail, n));
        lemma_within_concat(d, tail, n);
    }
}

proof fn lemma_first_comment_exists(b: Seq<u8>, w: int)
    requires
        0 <= w < b.len(),
        comment_at(b, w),
    ensures
        exists|i: int|
            0 <= i < b.len() && comment_at(b, i) && forall|j: int| 0 <= j < i ==> !comment_at(b, j),
    decreases w,
{
    if exists|j: int| 0 <= j < w && comment_at(b, j) {
        let j = choose|j: int| 0 <= j < w && comment_at(b, j);
        lemma_first_comment_exists(b, j);
    }
}

proof fn lemma_parse_limit_bounds(body: Seq<u8>)
    ensures
        0 <= parse_limit(body) <= body.len(),
{
    if exists|i: int| 0 <= i < body.len() && comment_at(body, i) {
        let w = choose|i: int| 0 <= i < body.len() && comment_at(body, i);
        lemma_first_comment_exists(body, w);
    }
}

/// Every span painted on a line is non-empty and lies within the line's
/// text (its line break excluded), and every span but the comment's ends
/// at or before the comment.
pub proof fn lemma_line_spans_within(b: Seq<u8>)
    requires
        b.len() <= usize::MAX,
    ensures
        spans_within(line_spans_spec(b), body_len(b)),
        forall|i: int|
            0 <= i < line_spans_spec(b).len() && (#[trigger] line_spans_spec(b)[i]).kind
                != SpanKind::Comment ==> line_spans_spec(b)[i].end <= parse_limit(
                b.take(body_len(b)),
            ),
{
    let body = b.take(body_len(b));
    let limit = parse_limit(body);
    lemma_parse_limit_bounds(body);
    if body.len() > 0 {
        lemma_commands_within(body, limit, 0);
        lemma_math_within(body, limit, 0, None);
        lemma_delims_within(body, limit);
        let cs = commands_from(body, limit, 0);
        let ms = math_from(body, limit, 0, None);
        let ds = delims_upto(body, limit);
        lemma_within_concat(cs, ms, limit);
        lemma_within_concat(cs + ms, ds, limit);
        let front = cs + ms + ds;
        let tail = if limit < body.len() {
            seq![span(limit, body.len() as int, SpanKind::Comment)]
        } else {
            seq![]
        };
        assert(spans_within(front, body.len() as int));
        assert(spans_within(tail, body.len() as int));
        lemma_within_concat(front, tail, body.len() as int);
        assert forall|i: int|
            0 <= i < line_spans_spec(b).len() && (#[trigger] line_spans_spec(b)[i]).kind
                != SpanKind::Comment implies line_spans_spec(b)[i].end <= limit by {
            if i < front.len() {
                assert(line_spans_spec(b)[i] == front[i]);
            } else {
                assert(line_spans_spec(b)[i] == tail[i - front.len()]);
            }
        }
    }
}


/// A bracket, brace or parenthesis byte: `{` `}` `[` `]` `(` `)`.
pub open spec fn bracket_byte(c: u8) -> bool {
    c == '{' as u8 || c == '}' as u8 || c == '[' as u8 || c == ']' as u8 || c == '(' as u8
        || c == ')' as u8
}

/// The delimiter spans before `n` are exactly one span `i..i + 1` of kind
/// `Delimiter` for each position `i < n` holding a bracket, brace or
/// parenthesis byte, in increasing order, and nothing else.
pub proof fn lemma_delimiter_spans_exact(b: Seq<u8>, n: int)
    requires
        0 <= n <= b.len(),
        b.len() <= usize::MAX,
    ensures
        forall|i: int|
            0 <= i < n && bracket_byte(b[i]) ==> exists|j: int|
                0 <= j < delims_upto(b, n).len() && #[trigger] delims_upto(b, n)[j] == span(
                    i,
                    i + 1,
                    SpanKind::Delimiter,
                ),
        forall|j: int|
            0 <= j < delims_upto(b, n).len() ==> {
                let sp = #[trigger] delims_upto(b, n)[j];
                &&& 0 <= sp.start < n
                &&& sp.end == sp.start + 1
                &&& sp.kind == SpanKind::Delimiter
                &&& bracket_byte(b[sp.start as int])
            },
        forall|j: int, k: int|
            0 <= j < k < delims_upto(b, n).len() ==> #[trigger] delims_upto(b, n)[j].start
                < #[trigger] delims_upto(b, n)[k].start,
    decreases n,
{
    if n > 0 {
        lemma_delimiter_spans_exact(b, n - 1);
        let d = delims_upto(b, n - 1);
        let all = delims_upto(b, n);
        assert forall|j: int| 0 <= j < d.len() implies #[trigger] all[j] == d[j] by {}
        assert(bracket_byte(b[n - 1]) == is_delim(b[n - 1]));
        if is_delim(b[n - 1]) {
            let last = span(n - 1, n, SpanKind::Delimiter);
            assert(all.len() == d.len() + 1);
            assert(all[d.len() as int] == last);
            assert(last.start == n - 1 && last.end == n);
            assert forall|j: int| 0 <= j < d.len() implies #[trigger] all[j].start < last.start by {
                assert(all[j] == d[j]);
            }
        } else {
            assert(all =~= d);
        }
        assert forall|i: int| 0 <= i < n && bracket_byte(b[i]) implies exists|j: int|
            0 <= j < all.len() && #[trigger] all[j] == span(i, i + 1, SpanKind::Delimiter) by {
            if i < n - 1 {
                let j = choose|j: int|
                    0 <= j < d.len() && #[trigger] d[j] == span(i, i + 1, SpanKind::Delimiter);
                assert(all[j] == d[j]);
            } else {
                assert(all[d.len() as int] == span(i, i + 1, SpanKind::Delimiter));
            }
        }
    }
}

} // verus!
