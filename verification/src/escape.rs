//! Unescaping of string literals and the cleanup of comment text.
use vstd::prelude::*;
use crate::text::{chars_of, push_char};

verus! {

/// Unicode `White_Space`, as `char::is_whitespace` documents it.
pub open spec fn is_ws(c: char) -> bool {
    ||| c == ' '
    ||| ('\t' <= c && c <= '\r')
    ||| c == '\u{85}'
    ||| c == '\u{a0}'
    ||| c == '\u{1680}'
    ||| ('\u{2000}' <= c && c <= '\u{200a}')
    ||| c == '\u{2028}'
    ||| c == '\u{2029}'
    ||| c == '\u{202f}'
    ||| c == '\u{205f}'
    ||| c == '\u{3000}'
}

/// `s` without its leading white space.
pub open spec fn trim_start(s: Seq<char>) -> Seq<char>
    decreases s.len(),
{
    if s.len() > 0 && is_ws(s[0]) {
        trim_start(s.skip(1))
    } else {
        s
    }
}

/// `s` without its trailing white space.
pub open spec fn trim_end(s: Seq<char>) -> Seq<char>
    decreases s.len(),
{
    if s.len() > 0 && is_ws(s.last()) {
        trim_end(s.drop_last())
    } else {
        s
    }
}

/// `s` without leading or trailing white space.
pub open spec fn trim(s: Seq<char>) -> Seq<char> {
    trim_end(trim_start(s))
}

/// The character an escape `\c` stands for.
pub open spec fn escaped(c: char) -> char {
    if c == 'n' {
        '\n'
    } else if c == 't' {
        '\t'
    } else {
        c
    }
}

/// The text of a literal body with its escapes resolved; a lone backslash
/// at the very end stands for nothing.
pub open spec fn unescape_raw(s: Seq<char>) -> Seq<char>
    decreases s.len(),
{
    if s.len() == 0 {
        Seq::empty()
    } else if s[0] == '\\' {
        if s.len() >= 2 {
            seq![escaped(s[1])] + unescape_raw(s.skip(2))
        } else {
            Seq::empty()
        }
    } else {
        seq![s[0]] + unescape_raw(s.skip(1))
    }
}

/// The value of a string literal body: escapes resolved, then trimmed.
pub open spec fn spec_unescape(s: Seq<char>) -> Seq<char> {
    trim(unescape_raw(s))
}

/// A line without the carriage return that ended it.
pub open spec fn strip_cr(l: Seq<char>) -> Seq<char> {
    if l.len() > 0 && l.last() == '\r' {
        l.drop_last()
    } else {
        l
    }
}

/// Index of the first line feed at or after `k`, or the length.
pub open spec fn newline_from(s: Seq<char>, k: int) -> int
    decreases s.len() - k,
{
    if 0 <= k < s.len() && s[k] != '\n' {
        newline_from(s, k + 1)
    } else {
        k
    }
}

/// The lines of a text, as `str::lines` splits them: at `\n` or `\r\n`,
/// with no empty line after a final line feed.
pub open spec fn lines(s: Seq<char>) -> Seq<Seq<char>>
    decreases s.len(),
{
    if s.len() == 0 {
        Seq::empty()
    } else {
        let j = newline_from(s, 0);
        if j < s.len() {
            proof { lemma_newline_from_bounds(s, 0); }
            seq![strip_cr(s.subrange(0, j))] + lines(s.skip(j + 1))
        } else {
            seq![s]
        }
    }
}

/// Lines joined with `\n` between them.
pub open spec fn join_lines(ls: Seq<Seq<char>>) -> Seq<char>
    decreases ls.len(),
{
    if ls.len() == 0 {
        Seq::empty()
    } else if ls.len() == 1 {
        ls[0]
    } else {
        join_lines(ls.drop_last()) + seq!['\n'] + ls.last()
    }
}

/// The text of a comment: each line without leading white space, lines
/// joined with `\n`, the whole trimmed.
pub open spec fn spec_unescape_comment(s: Seq<char>) -> Seq<char> {
    trim(join_lines(lines(s).map_values(|l: Seq<char>| trim_start(l))))
}

pub proof fn lemma_newline_from_bounds(s: Seq<char>, k: int)
    requires
        0 <= k <= s.len(),
    ensures
        k <= newline_from(s, k) <= s.len(),
        newline_from(s, k) < s.len() ==> s[newline_from(s, k)] == '\n',
        forall|j: int| k <= j < newline_from(s, k) ==> s[j] != '\n',
    decreases s.len() - k,
{
    if k < s.len() && s[k] != '\n' {
        lemma_newline_from_bounds(s, k + 1);
    }
}

proof fn lemma_newline_from_is(s: Seq<char>, k: int, j: int)
    requires
        0 <= k <= j <= s.len(),
        forall|m: int| k <= m < j ==> s[m] != '\n',
        j == s.len() || s[j] == '\n',
    ensures
        newline_from(s, k) == j,
    decreases j - k,
{
    if k < j {
        lemma_newline_from_is(s, k + 1, j);
    }
}

proof fn lemma_trim_start_is(s: Seq<char>, a: int)
    requires
        0 <= a <= s.len(),
        forall|m: int| 0 <= m < a ==> is_ws(s[m]),
        a == s.len() || !is_ws(s[a]),
    ensures
        trim_start(s) == s.skip(a),
    decreases a,
{
    if a > 0 {
        lemma_trim_start_is(s.skip(1), a - 1);
        assert(s.skip(1).skip(a - 1) =~= s.skip(a));
    } else {
        assert(s.skip(0) =~= s);
    }
}

proof fn lemma_trim_end_is(s: Seq<char>, b: int)
    requires
        0 <= b <= s.len(),
        forall|m: int| b <= m < s.len() ==> is_ws(s[m]),
        b == 0 || !is_ws(s[b - 1]),
    ensures
        trim_end(s) == s.take(b),
    decreases s.len() - b,
{
    if b < s.len() {
        lemma_trim_end_is(s.drop_last(), b);
        assert(s.drop_last().take(b) =~= s.take(b));
    } else {
        assert(s.take(b) =~= s);
    }
}

/// Whether `c` is white space, as `char::is_whitespace` says.
pub fn char_is_ws(c: char) -> (r: bool)
    ensures
        r == is_ws(c),
{
    c == ' ' || ('\t' <= c && c <= '\r') || c == '\u{85}' || c == '\u{a0}' || c == '\u{1680}'
        || ('\u{2000}' <= c && c <= '\u{200a}') || c == '\u{2028}' || c == '\u{2029}'
        || c == '\u{202f}' || c == '\u{205f}' || c == '\u{3000}'
}

/// Appends `v[from..to]` without leading and trailing white space.
fn push_trimmed(out: &mut String, v: &Vec<char>, from: usize, to: usize)
    requires
        from <= to <= v@.len(),
    ensures
        final(out)@ == old(out)@ + trim(v@.subrange(from as int, to as int)),
{
    let ghost seg = v@.subrange(from as int, to as int);
    let mut a = from;
    while a < to && char_is_ws(v[a])
        invariant
            from <= a <= to <= v@.len(),
            forall|m: int| from <= m < a ==> is_ws(v@[m]),
        decreases to - a,
    {
        a += 1;
    }
    proof {
        lemma_trim_start_is(seg, a - from);
        assert(seg.skip(a - from) =~= v@.subrange(a as int, to as int));
    }
    let ghost ts = v@.subrange(a as int, to as int);
    let mut b = to;
    while b > a && char_is_ws(v[b - 1])
        invariant
            from <= a <= b <= to <= v@.len(),
            forall|m: int| b <= m < to ==> is_ws(v@[m]),
        decreases b - a,
    {
        b -= 1;
    }
    proof {
        lemma_trim_end_is(ts, b - a);
        assert(ts.take(b - a) =~= v@.subrange(a as int, b as int));
    }
    let mut k = a;
    while k < b
        invariant
            a <= k <= b <= v@.len(),
            out@ == old(out)@ + v@.subrange(a as int, k as int),
        decreases b - k,
    {
        push_char(out, v[k]);
        assert(v@.subrange(a as int, k + 1) =~= v@.subrange(a as int, k as int).push(v@[k as int]));
        k += 1;
    }
}

/// Appends `v[from..to]` without leading white space.
fn push_trim_start(out: &mut String, v: &Vec<char>, from: usize, to: usize)
    requires
        from <= to <= v@.len(),
    ensures
        final(out)@ == old(out)@ + trim_start(v@.subrange(from as int, to as int)),
{
    let ghost seg = v@.subrange(from as int, to as int);
    let mut a = from;
    while a < to && char_is_ws(v[a])
        invariant
            from <= a <= to <= v@.len(),
            forall|m: int| from <= m < a ==> is_ws(v@[m]),
        decreases to - a,
    {
        a += 1;
    }
    proof {
        lemma_trim_start_is(seg, a - from);
        assert(seg.skip(a - from) =~= v@.subrange(a as int, to as int));
    }
    let mut k = a;
    while k < to
        invariant
            a <= k <= to <= v@.len(),
            out@ == old(out)@ + v@.subrange(a as int, k as int),
        decreases to - k,
    {
        push_char(out, v[k]);
        assert(v@.subrange(a as int, k + 1) =~= v@.subrange(a as int, k as int).push(v@[k as int]));
        k += 1;
    }
}

/// Resolves the escapes of a string literal body and trims the result.
pub fn unescape(src: &str) -> (r: String)
    ensures
        r@ == spec_unescape(src@),
{
    let v = chars_of(src);
    assert(v@.subrange(0, v@.len() as int) =~= v@);
    unescape_chars(&v, 0, v.len())
}

/// Resolves the escapes of `v[from..to]` and trims the result.
pub fn unescape_chars(v: &Vec<char>, from: usize, to: usize) -> (r: String)
    requires
        from <= to <= v@.len(),
    ensures
        r@ == spec_unescape(v@.subrange(from as int, to as int)),
{
    let ghost s = v@.subrange(from as int, to as int);
    let mut raw: Vec<char> = Vec::new();
    let mut k = from;
    assert(s.skip(0) =~= s);
    while k < to
        invariant
            from <= k <= to <= v@.len(),
            s == v@.subrange(from as int, to as int),
            raw@ + unescape_raw(s.skip(k - from)) == unescape_raw(s),
        decreases to - k,
    {
        let ghost rest = s.skip(k - from);
        let c = v[k];
        if c == '\\' {
            if k + 1 < to {
                let n = v[k + 1];
                let e = if n == 'n' { '\n' } else if n == 't' { '\t' } else { n };
                raw.push(e);
                assert(rest.skip(2) =~= s.skip(k + 2 - from));
                k += 2;
            } else {
                assert(unescape_raw(rest) =~= Seq::<char>::empty());
                assert(s.skip(to - from) =~= Seq::<char>::empty());
                k = to;
            }
        } else {
            raw.push(c);
            assert(rest.skip(1) =~= s.skip(k + 1 - from));
            k += 1;
        }
        proof {
            assert(raw@ + unescape_raw(s.skip(k - from)) =~= unescape_raw(s));
        }
    }
    assert(unescape_raw(s.skip(to - from)) =~= Seq::<char>::empty());
    assert(raw@ =~= unescape_raw(s));
    let mut out = String::new();
    push_trimmed(&mut out, &raw, 0, raw.len());
    assert(raw@.subrange(0, raw@.len() as int) =~= raw@);
    assert(out@ =~= spec_unescape(s));
    out
}

proof fn lemma_join_push(ls: Seq<Seq<char>>, x: Seq<char>)
    ensures
        join_lines(ls.push(x)) == if ls.len() == 0 { x } else { join_lines(ls) + seq!['\n'] + x },
{
    assert(ls.push(x).drop_last() =~= ls);
}

/// Cleans the text of a comment: leading white space of each line removed,
/// lines joined with `\n`, the whole trimmed.
pub fn unescape_comment(src: &str) -> (r: String)
    ensures
        r@ == spec_unescape_comment(src@),
{
    let v = chars_of(src);
    assert(v@.subrange(0, v@.len() as int) =~= v@);
    unescape_comment_chars(&v, 0, v.len())
}

/// Cleans the comment text `v[from..to]`.
pub fn unescape_comment_chars(v: &Vec<char>, from: usize, to: usize) -> (r: String)
    requires
        from <= to <= v@.len(),
    ensures
        r@ == spec_unescape_comment(v@.subrange(from as int, to as int)),
{
    let ghost s = v@.subrange(from as int, to as int);
    let ghost f = |l: Seq<char>| trim_start(l);
    let mut joined_s = String::new();
    let ghost mut done: Seq<Seq<char>> = Seq::empty();
    let mut start = from;
    let mut first = true;
    assert(s.skip(0) =~= s);
    while start < to
        invariant
            first == (done.len() == 0),
            from <= start <= to <= v@.len(),
            s == v@.subrange(from as int, to as int),
            done + lines(s.skip(start - from)) == lines(s),
            joined_s@ == join_lines(done.map_values(f)),
            f == (|l: Seq<char>| trim_start(l)),
        decreases to - start,
    {
        let mut j = start;
        while j < to && v[j] != '\n'
            invariant
                start <= j <= to <= v@.len(),
                forall|m: int| start <= m < j ==> v@[m] != '\n',
            decreases to - j,
        {
            j += 1;
        }
        let ghost rest = s.skip(start - from);
        proof {
            lemma_newline_from_is(rest, 0, j - start);
        }
        let ghost before = done;
        if !first {
            push_char(&mut joined_s, '\n');
        }
        first = false;
        if j < to {
            let mut end = j;
            if end > start && v[end - 1] == '\r' {
                end -= 1;
            }
            push_trim_start(&mut joined_s, v, start, end);
            proof {
                assert(rest.subrange(0, j - start) =~= v@.subrange(start as int, j as int));
                assert(strip_cr(rest.subrange(0, j - start)) =~= v@.subrange(start as int, end as int));
                assert(rest.skip(j - start + 1) =~= s.skip(j + 1 - from));
                done = done.push(strip_cr(rest.subrange(0, j - start)));
                assert(before + lines(rest) =~= done + lines(s.skip(j + 1 - from)));
            }
            start = j + 1;
        } else {
            push_trim_start(&mut joined_s, v, start, to);
            proof {
                assert(rest =~= v@.subrange(start as int, to as int));
                assert(lines(rest) =~= seq![rest]);
                done = done.push(rest);
                assert(s.skip(to - from) =~= Seq::<char>::empty());
                assert(before + lines(rest) =~= done + lines(s.skip(to - from)));
            }
            start = to;
        }
        proof {
            lemma_join_push(before.map_values(f), f(done.last()));
            assert(done.map_values(f) =~= before.map_values(f).push(f(done.last())));
            assert(joined_s@ =~= join_lines(done.map_values(f)));
        }
    }
    assert(s.skip(to - from) =~= Seq::<char>::empty());
    assert(done =~= lines(s));
    let jv = chars_of(joined_s.as_str());
    let mut out = String::new();
    push_trimmed(&mut out, &jv, 0, jv.len());
    assert(jv@.subrange(0, jv@.len() as int) =~= jv@);
    out
}

} // verus!
