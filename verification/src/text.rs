//! Byte-level facts about UTF-8 strings, and the few `String` edits the
//! document buffer needs, stated over the UTF-8 bytes of the string.

use vstd::prelude::*;
use vstd::utf8::*;

verus! {

broadcast use group_utf8_lib;

/// The UTF-8 bytes of a character sequence.
pub open spec fn bytes_of(s: Seq<char>) -> Seq<u8> {
    encode_utf8(s)
}

/// Encoding distributes over concatenation.
pub proof fn lemma_encode_concat(a: Seq<char>, b: Seq<char>)
    ensures
        encode_utf8(a + b) == encode_utf8(a) + encode_utf8(b),
    decreases a.len(),
{
    if a.len() == 0 {
        assert(a + b =~= b);
        assert(encode_utf8(a) =~= Seq::<u8>::empty());
        assert(encode_utf8(a) + encode_utf8(b) =~= encode_utf8(b));
    } else {
        lemma_encode_concat(a.drop_first(), b);
        assert((a + b).drop_first() =~= a.drop_first() + b);
        assert((a + b)[0] == a[0]);
        assert(encode_utf8(a + b) =~= encode_scalar(a[0] as u32) + encode_utf8(a.drop_first() + b));
        assert(encode_utf8(a) =~= encode_scalar(a[0] as u32) + encode_utf8(a.drop_first()));
    }
}

/// The end of an encoded prefix is a character boundary of the whole.
pub proof fn lemma_boundary_at_prefix(a: Seq<char>, b: Seq<char>)
    ensures
        is_char_boundary(encode_utf8(a) + encode_utf8(b), encode_utf8(a).len() as int),
    decreases a.len(),
{
    lemma_encode_concat(a, b);
    let whole = encode_utf8(a + b);
    if a.len() == 0 {
        assert(encode_utf8(a) =~= Seq::<u8>::empty());
    } else {
        let rest = a.drop_first();
        lemma_boundary_at_prefix(rest, b);
        lemma_encode_concat(rest, b);
        assert((a + b).drop_first() =~= rest + b);
        assert((a + b)[0] == a[0]);
        encode_utf8_first_scalar(a + b);
        let w = encode_scalar(a[0] as u32);
        assert(whole =~= w + encode_utf8(rest + b));
        assert(pop_first_scalar(whole) =~= encode_utf8(rest + b));
        assert(encode_utf8(a) =~= w + encode_utf8(rest));
    }
}

/// `str::len`: the number of UTF-8 bytes of `s`, which always fits a
/// `usize` (a `str` is never longer than `isize::MAX` bytes).
#[verifier::external_body]
pub(crate) fn utf8_len(s: &str) -> (n: usize)
    ensures
        n == bytes_of(s@).len(),
{
    s.len()
}

/// Inserts `t` into `s` at the byte position `idx` (`String::insert_str`).
#[verifier::external_body]
pub(crate) fn string_insert_str(s: &mut String, idx: usize, t: &str)
    requires
        is_char_boundary(bytes_of(old(s)@), idx as int),
    ensures
        bytes_of(final(s)@) == bytes_of(old(s)@).take(idx as int) + bytes_of(t@) + bytes_of(
            old(s)@,
        ).skip(idx as int),
{
    s.insert_str(idx, t)
}

/// Removes the bytes `start..end` of `s` (`String::replace_range` with an
/// empty replacement).
#[verifier::external_body]
pub(crate) fn string_remove_range(s: &mut String, start: usize, end: usize)
    requires
        start <= end,
        is_char_boundary(bytes_of(old(s)@), start as int),
        is_char_boundary(bytes_of(old(s)@), end as int),
    ensures
        bytes_of(final(s)@) == bytes_of(old(s)@).take(start as int) + bytes_of(old(s)@).skip(
            end as int,
        ),
{
    s.replace_range(start..end, "")
}

/// Appends one character to `s` (`String::push`).
#[verifier::external_body]
pub(crate) fn string_push(s: &mut String, c: char)
    ensures
        final(s)@ == old(s)@.push(c),
{
    s.push(c)
}

/// Whether `c` has the Unicode `White_Space` property (the definition
/// `char::is_whitespace`, `str::trim` and `str::split_whitespace` use).
pub open spec fn is_white_space(c: char) -> bool {
    ||| '\u{9}' <= c <= '\u{d}'
    ||| c == ' '
    ||| c == '\u{85}'
    ||| c == '\u{a0}'
    ||| c == '\u{1680}'
    ||| '\u{2000}' <= c <= '\u{200a}'
    ||| c == '\u{2028}'
    ||| c == '\u{2029}'
    ||| c == '\u{202f}'
    ||| c == '\u{205f}'
    ||| c == '\u{3000}'
}

/// `s` without its leading white space.
pub open spec fn trim_start(s: Seq<char>) -> Seq<char>
    decreases s.len(),
{
    if s.len() > 0 && is_white_space(s[0]) {
        trim_start(s.drop_first())
    } else {
        s
    }
}

/// `s` without its trailing white space.
pub open spec fn trim_end(s: Seq<char>) -> Seq<char>
    decreases s.len(),
{
    if s.len() > 0 && is_white_space(s.last()) {
        trim_end(s.drop_last())
    } else {
        s
    }
}

/// `s` without leading and trailing white space.
pub open spec fn trim(s: Seq<char>) -> Seq<char> {
    trim_end(trim_start(s))
}

/// `&s[..n]`: the first `n` bytes of `s`, which must end on a character
/// boundary.
#[verifier::external_body]
pub(crate) fn str_take(s: &str, n: usize) -> (r: &str)
    requires
        is_char_boundary(bytes_of(s@), n as int),
    ensures
        bytes_of(r@) == bytes_of(s@).take(n as int),
{
    &s[..n]
}

/// `str::trim`: `s` with leading and trailing white space removed.
#[verifier::external_body]
pub(crate) fn str_trim(s: &str) -> (r: &str)
    ensures
        r@ == trim(s@),
{
    s.trim()
}

/// `str::starts_with` with a string pattern.
#[verifier::external_body]
pub(crate) fn str_starts_with(s: &str, prefix: &str) -> (r: bool)
    ensures
        r == (prefix@.len() <= s@.len() && s@.take(prefix@.len() as int) == prefix@),
{
    s.starts_with(prefix)
}

/// `str::ends_with` with a string pattern.
#[verifier::external_body]
pub(crate) fn str_ends_with(s: &str, suffix: &str) -> (r: bool)
    ensures
        r == (suffix@.len() <= s@.len() && s@.skip(s@.len() - suffix@.len()) == suffix@),
{
    s.ends_with(suffix)
}

/// `str` equality.
#[verifier::external_body]
pub(crate) fn str_eq(a: &str, b: &str) -> (r: bool)
    ensures
        r == (a@ == b@),
{
    a == b
}

/// The Unicode uppercase mapping of a string (`str::to_uppercase`).
pub uninterp spec fn uppercase(s: Seq<char>) -> Seq<char>;

/// The ASCII uppercase of one character.
pub open spec fn ascii_upper(c: char) -> char {
    if 'a' <= c <= 'z' {
        ((c as u32) - 32) as char
    } else {
        c
    }
}

/// `str::to_uppercase`: the uppercase equivalent of `s`; on ASCII text
/// this maps `a`..`z` to `A`..`Z` and keeps every other character.
#[verifier::external_body]
pub(crate) fn str_to_uppercase(s: &str) -> (r: String)
    ensures
        r@ == uppercase(s@),
        is_ascii_chars(s@) ==> r@ == s@.map_values(|c: char| ascii_upper(c)),
{
    s.to_uppercase()
}

/// The characters of `s`, in order.
pub(crate) fn chars_of(s: &str) -> (v: Vec<char>)
    ensures
        v@ == s@,
{
    let mut v: Vec<char> = Vec::new();
    for c in it: s.chars()
        invariant
            it.seq() == s@,
            v@ == s@.take(it.index() as int),
    {
        v.push(c);
    }
    assert(v@ =~= s@);
    v
}

/// The string made of the characters `cs[from..to]`.
pub fn string_from_chars(cs: &Vec<char>, from: usize, to: usize) -> (s: String)
    requires
        from <= to <= cs@.len(),
    ensures
        s@ == cs@.subrange(from as int, to as int),
{
    let mut s = String::new();
    let mut i = from;
    while i < to
        invariant
            from <= i <= to <= cs@.len(),
            s@ == cs@.subrange(from as int, i as int),
        decreases to - i,
    {
        string_push(&mut s, cs[i]);
        i += 1;
        assert(s@ =~= cs@.subrange(from as int, i as int));
    }
    s
}

/// The first position at or after `i` holding `c`, if any.
pub open spec fn find_char(s: Seq<char>, i: int, c: char) -> Option<int>
    decreases s.len() - i,
{
    if i < s.len() {
        if s[i] == c {
            Some(i)
        } else {
            find_char(s, i + 1, c)
        }
    } else {
        None
    }
}

/// A line without a carriage return that ends it.
pub open spec fn strip_cr(l: Seq<char>) -> Seq<char> {
    if l.len() > 0 && l.last() == '\r' {
        l.drop_last()
    } else {
        l
    }
}

/// The lines of `s` from position `i` as `str::lines` yields them: split
/// at each `\n`, each without its `\n` and a `\r` right before it; a
/// final line ending adds no empty line, and a last line without `\n`
/// keeps a `\r` it ends with.
pub open spec fn lines_from(s: Seq<char>, i: int) -> Seq<Seq<char>>
    decreases s.len() - i,
{
    if i >= s.len() || i < 0 {
        seq![]
    } else {
        match find_char(s, i, '\n') {
            Some(j) => if i <= j < s.len() {
                seq![strip_cr(s.subrange(i, j))] + lines_from(s, j + 1)
            } else {
                seq![]
            },
            None => seq![s.subrange(i, s.len() as int)],
        }
    }
}

/// The lines of `s`, as `str::lines` yields them.
pub open spec fn lines(s: Seq<char>) -> Seq<Seq<char>> {
    lines_from(s, 0)
}

proof fn lemma_find_char(s: Seq<char>, i: int, c: char)
    requires
        0 <= i,
    ensures
        find_char(s, i, c) matches Some(j) ==> i <= j < s.len() && s[j] == c && forall|k: int|
            i <= k < j ==> s[k] != c,
        find_char(s, i, c) is None ==> forall|k: int| i <= k < s.len() ==> s[k] != c,
    decreases s.len() - i,
{
    if i < s.len() && s[i] != c {
        lemma_find_char(s, i + 1, c);
    }
}

/// The lines of `cs`, each as the range of its characters (without line
/// ending).
pub fn line_ranges(cs: &Vec<char>) -> (r: Vec<(usize, usize)>)
    ensures
        r@.len() == lines(cs@).len(),
        forall|k: int|
            #![trigger r@[k]]
            0 <= k < r@.len() ==> r@[k].0 <= r@[k].1 <= cs@.len() && cs@.subrange(
                r@[k].0 as int,
                r@[k].1 as int,
            ) == lines(cs@)[k],
{
    let mut r: Vec<(usize, usize)> = Vec::new();
    let n = cs.len();
    let mut start: usize = 0;
    let mut i: usize = 0;
    proof {
        lemma_find_char(cs@, 0, '\n');
    }
    while i < n
        invariant
            n == cs@.len(),
            start <= i <= n,
            forall|k: int| start <= k < i ==> cs@[k] != '\n',
            lines(cs@) == r@.map_values(|p: (usize, usize)| cs@.subrange(p.0 as int, p.1 as int))
                + lines_from(cs@, start as int),
            forall|k: int| 0 <= k < r@.len() ==> #[trigger] r@[k].0 <= r@[k].1 <= cs@.len(),
        decreases n - i,
    {
        if cs[i] == '\n' {
            let end = if i > start && cs[i - 1] == '\r' {
                i - 1
            } else {
                i
            };
            proof {
                lemma_find_char(cs@, start as int, '\n');
                assert(find_char(cs@, start as int, '\n') == Some(i as int)) by {
                    if find_char(cs@, start as int, '\n') != Some(i as int) {
                        match find_char(cs@, start as int, '\n') {
                            Some(j) => {
                                assert(cs@[j] == '\n');
                            },
                            None => {},
                        }
                    }
                }
                assert(strip_cr(cs@.subrange(start as int, i as int)) =~= cs@.subrange(start as int, end as int));
                assert(lines_from(cs@, start as int) == seq![cs@.subrange(start as int, end as int)] + lines_from(cs@, i + 1));
            }
            let ghost old_r = r@;
            r.push((start, end));
            proof {
                assert(forall|k: int| 0 <= k < r@.len() ==> #[trigger] r@[k].0 <= r@[k].1 <= cs@.len()) by {
                    assert forall|k: int| 0 <= k < r@.len() implies #[trigger] r@[k].0 <= r@[k].1 <= cs@.len() by {
                        if k < old_r.len() {
                            assert(r@[k] == old_r[k]);
                        }
                    }
                }
                assert(r@.map_values(|p: (usize, usize)| cs@.subrange(p.0 as int, p.1 as int)) =~= old_r.map_values(|p: (usize, usize)| cs@.subrange(p.0 as int, p.1 as int)).push(cs@.subrange(start as int, end as int)));
            }
            start = i + 1;
        }
        i += 1;
    }
    if start < n {
        let end = n;
        proof {
            lemma_find_char(cs@, start as int, '\n');
            assert(find_char(cs@, start as int, '\n') is None) by {
                match find_char(cs@, start as int, '\n') {
                    Some(j) => {
                        assert(cs@[j] == '\n');
                    },
                    None => {},
                }
            }
        }
        let ghost old_r = r@;
        r.push((start, end));
        proof {
            assert forall|k: int| 0 <= k < r@.len() implies #[trigger] r@[k].0 <= r@[k].1 <= cs@.len() by {
                if k < old_r.len() {
                    assert(r@[k] == old_r[k]);
                }
            }
            assert(r@.map_values(|p: (usize, usize)| cs@.subrange(p.0 as int, p.1 as int)) =~= old_r.map_values(|p: (usize, usize)| cs@.subrange(p.0 as int, p.1 as int)).push(cs@.subrange(start as int, end as int)));
            assert(lines_from(cs@, n as int) =~= Seq::<Seq<char>>::empty());
        }
    }
    proof {
        let m = r@.map_values(|p: (usize, usize)| cs@.subrange(p.0 as int, p.1 as int));
        assert(lines_from(cs@, start as int) =~= Seq::<Seq<char>>::empty() || start < n);
        assert(lines(cs@) =~= m);
        assert forall|k: int| #![trigger r@[k]] 0 <= k < r@.len() implies r@[k].0 <= r@[k].1 <= cs@.len()
            && cs@.subrange(r@[k].0 as int, r@[k].1 as int) == lines(cs@)[k] by {
            assert(m[k] == cs@.subrange(r@[k].0 as int, r@[k].1 as int));
        }
        assert(r@.len() == m.len());
    }
    r
}

} // verus!
