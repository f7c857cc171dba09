//! Text as sequences of characters: the few operations on lines and fields
//! that the parsers share, each with its meaning as a function on `Seq<char>`.

use vstd::prelude::*;

verus! {

/// `String::push` appends one character.
pub assume_specification[ std::string::String::push ](s: &mut std::string::String, c: char)
    ensures
        final(s)@ == old(s)@.push(c),
;

/// The upper-case form of a text, as `str::to_uppercase` gives it.
pub uninterp spec fn uppercase(s: Seq<char>) -> Seq<char>;

/// `str::to_uppercase` maps a text to its upper-case form, which Unicode
/// defines; nothing is claimed here but that it depends on the text alone.
pub assume_specification[ str::to_uppercase ](s: &str) -> (upper: std::string::String)
    ensures
        upper@ == uppercase(s@),
;

/// Whether a character is white space: one of the characters that have
/// Unicode's `White_Space` property.
pub open spec fn whitespace(c: char) -> bool {
    ||| '\u{9}' <= c <= '\u{d}'
    ||| c == ' '
    ||| c == '\u{85}'
    ||| c == '\u{a0}'
    ||| c == '\u{1680}'
    ||| '\u{2000}' <= c <= '\u{200a}'
    ||| c == '\u{2028}'
    ||| c == '\u{2029}'
    ||| c == '\u{202f}'
    ||| c == '\u{205f}'
    ||| c == '\u{3000}'
}

/// `char::is_whitespace` tells whether a character has Unicode's
/// `White_Space` property. Not proved: that those are the characters that
/// `whitespace` lists.
pub assume_specification[ char::is_whitespace ](c: char) -> (b: bool)
    ensures
        b == whitespace(c),
;

/// The characters of a text.
pub fn to_chars(s: &str) -> (chars: Vec<char>)
    ensures
        chars@ == s@,
{
    let mut chars: Vec<char> = Vec::new();
    for c in it: s.chars()
        invariant
            it.seq() == s@,
            chars@ == it.seq().take(it.index() as int),
    {
        chars.push(c);
    }
    chars
}

/// The text made of the characters `chars[from..to]`.
pub fn substring(chars: &Vec<char>, from: usize, to: usize) -> (s: String)
    requires
        from <= to <= chars.len(),
    ensures
        s@ == chars@.subrange(from as int, to as int),
{
    let mut s = String::new();
    let mut i: usize = from;
    while i < to
        invariant
            from <= i <= to <= chars.len(),
            s@ == chars@.subrange(from as int, i as int),
        decreases to - i,
    {
        s.push(chars[i]);
        i += 1;
    }
    s
}

/// `a` followed by `b`.
pub fn concatenate(a: &str, b: &str) -> (s: String)
    ensures
        s@ == a@ + b@,
{
    let mut s = String::from_str(a);
    s.append(b);
    s
}

/// Whether two texts hold the same characters.
pub fn same(a: &str, b: &str) -> (eq: bool)
    ensures
        eq == (a@ == b@),
{
    let x = String::from_str(a);
    let y = String::from_str(b);
    x == y
}

/// Whether `s` begins with `prefix`.
pub fn starts_with(s: &str, prefix: &str) -> (b: bool)
    ensures
        b == prefix@.is_prefix_of(s@),
{
    let x = to_chars(s);
    let p = to_chars(prefix);
    if p.len() > x.len() {
        return false;
    }
    let mut i: usize = 0;
    while i < p.len()
        invariant
            i <= p.len() <= x.len(),
            x@ == s@,
            p@ == prefix@,
            x@.take(i as int) == p@.take(i as int),
        decreases p.len() - i,
    {
        if x[i] != p[i] {
            assert(x@.subrange(0, p.len() as int)[i as int] != p@[i as int]);
            return false;
        }
        assert(x@.take(i + 1) == x@.take(i as int).push(x@[i as int]));
        assert(p@.take(i + 1) == p@.take(i as int).push(p@[i as int]));
        i += 1;
    }
    assert(p@ == p@.take(p.len() as int));
    true
}

/// Whether `s` ends with `suffix`.
pub fn ends_with(s: &str, suffix: &str) -> (b: bool)
    ensures
        b == suffix@.is_suffix_of(s@),
{
    let x = to_chars(s);
    let p = to_chars(suffix);
    if p.len() > x.len() {
        return false;
    }
    let shift: usize = x.len() - p.len();
    let mut i: usize = 0;
    while i < p.len()
        invariant
            i <= p.len() <= x.len(),
            shift == x.len() - p.len(),
            x@ == s@,
            p@ == suffix@,
            x@.subrange(shift as int, shift + i) == p@.take(i as int),
        decreases p.len() - i,
    {
        if x[shift + i] != p[i] {
            assert(x@.subrange(shift as int, x.len() as int)[i as int] != p@[i as int]);
            return false;
        }
        assert(x@.subrange(shift as int, shift + i + 1) == x@.subrange(
            shift as int,
            shift + i,
        ).push(x@[shift + i]));
        assert(p@.take(i + 1) == p@.take(i as int).push(p@[i as int]));
        i += 1;
    }
    assert(p@ == p@.take(p.len() as int));
    true
}

/// `s` with every `from` replaced by `to`.
pub open spec fn replaced(s: Seq<char>, from: char, to: char) -> Seq<char> {
    s.map_values(
        |c: char|
            if c == from {
                to
            } else {
                c
            },
    )
}

/// `s` with every `from` replaced by `to`.
pub fn replace(s: &str, from: char, to: char) -> (out: String)
    ensures
        out@ == replaced(s@, from, to),
{
    let chars = to_chars(s);
    let mut out = String::new();
    let mut i: usize = 0;
    while i < chars.len()
        invariant
            i <= chars.len(),
            chars@ == s@,
            out@ == replaced(s@, from, to).take(i as int),
        decreases chars.len() - i,
    {
        let c = chars[i];
        if c == from {
            out.push(to);
        } else {
            out.push(c);
        }
        assert(replaced(s@, from, to).take(i + 1) == replaced(s@, from, to).take(i as int).push(
            replaced(s@, from, to)[i as int],
        ));
        i += 1;
    }
    assert(replaced(s@, from, to) == replaced(s@, from, to).take(chars.len() as int));
    out
}

/// `s` without the white space at its start.
pub open spec fn trimmed_start(s: Seq<char>) -> Seq<char>
    decreases s.len(),
{
    if s.len() > 0 && whitespace(s[0]) {
        trimmed_start(s.skip(1))
    } else {
        s
    }
}

/// `s` without the white space at its end.
pub open spec fn trimmed_end(s: Seq<char>) -> Seq<char>
    decreases s.len(),
{
    if s.len() > 0 && whitespace(s.last()) {
        trimmed_end(s.drop_last())
    } else {
        s
    }
}

/// `s` without the white space at its start and at its end.
pub open spec fn trimmed(s: Seq<char>) -> Seq<char> {
    trimmed_end(trimmed_start(s))
}

/// Dropping `n` leading white-space characters does not change what
/// `trimmed_start` gives.
pub proof fn lemma_trimmed_start_skip(s: Seq<char>, n: int)
    requires
        0 <= n <= s.len(),
        forall|k: int| 0 <= k < n ==> whitespace(s[k]),
    ensures
        trimmed_start(s) == trimmed_start(s.skip(n)),
    decreases n,
{
    if n == 0 {
        assert(s.skip(0) == s);
    } else {
        lemma_trimmed_start_skip(s.skip(1), n - 1);
        assert(s.skip(1).skip(n - 1) == s.skip(n));
    }
}

/// Dropping trailing white-space characters down to length `n` does not
/// change what `trimmed_end` gives.
pub proof fn lemma_trimmed_end_take(s: Seq<char>, n: int)
    requires
        0 <= n <= s.len(),
        forall|k: int| n <= k < s.len() ==> whitespace(s[k]),
    ensures
        trimmed_end(s) == trimmed_end(s.take(n)),
    decreases s.len() - n,
{
    if n == s.len() {
        assert(s.take(n) == s);
    } else {
        lemma_trimmed_end_take(s.drop_last(), n);
        assert(s.drop_last().take(n) == s.take(n));
    }
}

/// `s` without the white space at its start and at its end.
pub fn trim(s: &str) -> (out: String)
    ensures
        out@ == trimmed(s@),
{
    let chars = to_chars(s);
    let mut from: usize = 0;
    while from < chars.len() && chars[from].is_whitespace()
        invariant
            from <= chars.len(),
            forall|k: int| 0 <= k < from ==> whitespace(chars@[k]),
        decreases chars.len() - from,
    {
        from += 1;
    }
    let mut to: usize = chars.len();
    while to > from && chars[to - 1].is_whitespace()
        invariant
            from <= to <= chars.len(),
            forall|k: int| to <= k < chars.len() ==> whitespace(chars@[k]),
        decreases to,
    {
        to -= 1;
    }
    proof {
        let rest = chars@.skip(from as int);
        lemma_trimmed_start_skip(chars@, from as int);
        assert(trimmed_start(rest) == rest);
        assert forall|k: int| to - from <= k < rest.len() implies whitespace(rest[k]) by {
            assert(rest[k] == chars@[k + from]);
        }
        lemma_trimmed_end_take(rest, to - from);
        assert(rest.take(to - from) == chars@.subrange(from as int, to as int));
        let kept = chars@.subrange(from as int, to as int);
        assert(trimmed_end(kept) == kept) by {
            if kept.len() > 0 {
                assert(kept.last() == chars@[to - 1]);
            }
        }
    }
    substring(&chars, from, to)
}

/// The fields of `s` between the separators from position `i` on, the first
/// of them starting at `start`.
pub open spec fn fields_from(s: Seq<char>, sep: char, start: int, i: int) -> Seq<Seq<char>>
    decreases s.len() - i,
{
    if i >= s.len() {
        seq![s.subrange(start, s.len() as int)]
    } else if s[i] == sep {
        seq![s.subrange(start, i)] + fields_from(s, sep, i + 1, i + 1)
    } else {
        fields_from(s, sep, start, i + 1)
    }
}

/// The fields of `s` that the separator `sep` parts: one more than `sep`
/// occurs, in order, none holding `sep`.
pub open spec fn fields(s: Seq<char>, sep: char) -> Seq<Seq<char>> {
    fields_from(s, sep, 0, 0)
}

/// The views of the texts in `v`.
pub open spec fn texts(v: Seq<String>) -> Seq<Seq<char>> {
    v.map_values(|s: String| s@)
}

/// The fields of `s` that the separator `sep` parts.
pub fn split(s: &str, sep: char) -> (out: Vec<String>)
    ensures
        texts(out@) == fields(s@, sep),
{
    let chars = to_chars(s);
    let mut out: Vec<String> = Vec::new();
    let mut start: usize = 0;
    let mut i: usize = 0;
    while i < chars.len()
        invariant
            start <= i <= chars.len(),
            chars@ == s@,
            fields(s@, sep) == texts(out@) + fields_from(s@, sep, start as int, i as int),
        decreases chars.len() - i,
    {
        if chars[i] == sep {
            let field = substring(&chars, start, i);
            proof {
                let rest = fields_from(s@, sep, i + 1, i + 1);
                assert(texts(out@.push(field)) == texts(out@).push(field@));
                assert(texts(out@).push(field@) + rest == texts(out@) + (seq![field@] + rest));
            }
            out.push(field);
            start = i + 1;
        }
        i += 1;
    }
    let field = substring(&chars, start, i);
    proof {
        assert(texts(out@.push(field)) == texts(out@).push(field@));
        assert(texts(out@).push(field@) == texts(out@) + seq![field@]);
    }
    out.push(field);
    out
}

/// A line that a line feed ended, without the carriage return that may stand
/// before the line feed.
pub open spec fn without_return(line: Seq<char>) -> Seq<char> {
    if line.len() > 0 && line.last() == '\r' {
        line.drop_last()
    } else {
        line
    }
}

/// The lines of `s` from position `i` on, the first of them starting at
/// `start`.
pub open spec fn lines_from(s: Seq<char>, start: int, i: int) -> Seq<Seq<char>>
    decreases s.len() - i,
{
    if i >= s.len() {
        if start < s.len() {
            seq![s.subrange(start, s.len() as int)]
        } else {
            Seq::empty()
        }
    } else if s[i] == '\n' {
        seq![without_return(s.subrange(start, i))] + lines_from(s, i + 1, i + 1)
    } else {
        lines_from(s, start, i + 1)
    }
}

/// The lines of `s`. A line feed ends a line and is no part of it, nor is a
/// carriage return just before it; what follows the last line feed is a line
/// of its own unless it is empty.
pub open spec fn lines_of(s: Seq<char>) -> Seq<Seq<char>> {
    lines_from(s, 0, 0)
}

/// The lines of `s`.
pub fn lines(s: &str) -> (out: Vec<String>)
    ensures
        texts(out@) == lines_of(s@),
{
    let chars = to_chars(s);
    let mut out: Vec<String> = Vec::new();
    let mut start: usize = 0;
    let mut i: usize = 0;
    while i < chars.len()
        invariant
            start <= i <= chars.len(),
            chars@ == s@,
            lines_of(s@) == texts(out@) + lines_from(s@, start as int, i as int),
        decreases chars.len() - i,
    {
        if chars[i] == '\n' {
            let end: usize = if i > start && chars[i - 1] == '\r' {
                i - 1
            } else {
                i
            };
            let line = substring(&chars, start, end);
            proof {
                let whole = s@.subrange(start as int, i as int);
                if whole.len() > 0 {
                    assert(whole.last() == s@[i - 1]);
                    assert(whole.drop_last() == s@.subrange(start as int, i - 1));
                }
                assert(line@ == without_return(whole));
                let rest = lines_from(s@, i + 1, i + 1);
                assert(texts(out@.push(line)) == texts(out@).push(line@));
                assert(texts(out@).push(line@) + rest == texts(out@) + (seq![line@] + rest));
            }
            out.push(line);
            start = i + 1;
        }
        i += 1;
    }
    if start < i {
        let line = substring(&chars, start, i);
        proof {
            assert(texts(out@.push(line)) == texts(out@).push(line@));
            assert(texts(out@).push(line@) == texts(out@) + seq![line@]);
        }
        out.push(line);
    } else {
        assert(texts(out@) + Seq::<Seq<char>>::empty() == texts(out@));
    }
    out
}

/// The lines of the rear part of a text are those of that part alone.
pub proof fn lemma_lines_shift(a: Seq<char>, b: Seq<char>, start: int, i: int)
    requires
        0 <= start <= i <= b.len(),
    ensures
        lines_from(a + b, a.len() + start, a.len() + i) == lines_from(b, start, i),
    decreases b.len() - i,
{
    let whole = a + b;
    assert(whole.subrange(a.len() + start, whole.len() as int) =~= b.subrange(
        start,
        b.len() as int,
    ));
    if i < b.len() {
        assert(whole[a.len() + i] == b[i]);
        assert(whole.subrange(a.len() + start, a.len() + i) =~= b.subrange(start, i));
        if b[i] == '\n' {
            lemma_lines_shift(a, b, i + 1, i + 1);
        } else {
            lemma_lines_shift(a, b, start, i + 1);
        }
    }
}

/// In a text whose front part ends with a line feed, the lines from a place
/// in the front part on are those of the front part, then those of the rest.
pub proof fn lemma_lines_front(a: Seq<char>, b: Seq<char>, start: int, i: int)
    requires
        0 <= start <= i <= a.len(),
        a.len() == 0 || a.last() == '\n',
        forall|k: int| start <= k < i ==> a[k] != '\n',
    ensures
        lines_from(a + b, start, i) == lines_from(a, start, i) + lines_of(b),
    decreases a.len() - i,
{
    let whole = a + b;
    if i == a.len() {
        if start < a.len() {
            assert(a[a.len() - 1] == '\n');
        }
        lemma_lines_shift(a, b, 0, 0);
        assert(lines_from(a, start, i) + lines_of(b) =~= lines_of(b));
    } else {
        assert(whole[i] == a[i]);
        assert(whole.subrange(start, i) =~= a.subrange(start, i));
        if a[i] == '\n' {
            lemma_lines_front(a, b, i + 1, i + 1);
            assert(seq![without_return(a.subrange(start, i))] + (lines_from(a, i + 1, i + 1)
                + lines_of(b)) =~= (seq![without_return(a.subrange(start, i))] + lines_from(
                a,
                i + 1,
                i + 1,
            )) + lines_of(b));
        } else {
            lemma_lines_front(a, b, start, i + 1);
        }
    }
}

/// The lines of a text that ends with a line feed, followed by another
/// text, are the lines of the one, then those of the other.
pub proof fn lemma_lines_of_both(a: Seq<char>, b: Seq<char>)
    requires
        a.len() == 0 || a.last() == '\n',
    ensures
        lines_of(a + b) == lines_of(a) + lines_of(b),
{
    lemma_lines_front(a, b, 0, 0);
}

/// A text without a line feed is one line, or none where it is empty.
pub proof fn lemma_one_line(line: Seq<char>, i: int)
    requires
        0 <= i <= line.len(),
        forall|k: int| 0 <= k < line.len() ==> line[k] != '\n',
    ensures
        lines_from(line, 0, i) == if line.len() > 0 {
            seq![line]
        } else {
            Seq::<Seq<char>>::empty()
        },
    decreases line.len() - i,
{
    if i < line.len() {
        lemma_one_line(line, i + 1);
    } else {
        assert(line.subrange(0, line.len() as int) =~= line);
    }
}

/// A line that a line feed ends is the first line of a text, whatever
/// follows the line feed.
pub proof fn lemma_first_line(line: Seq<char>, rest: Seq<char>)
    requires
        forall|k: int| 0 <= k < line.len() ==> line[k] != '\n',
    ensures
        lines_of(line + seq!['\n'] + rest) == seq![without_return(line)] + lines_of(rest),
{
    let ended = line + seq!['\n'];
    lemma_lines_of_both(ended, rest);
    lemma_ended_line(line, 0);
}

/// A line with the line feed that ends it is that one line.
pub proof fn lemma_ended_line(line: Seq<char>, i: int)
    requires
        0 <= i <= line.len(),
        forall|k: int| 0 <= k < line.len() ==> line[k] != '\n',
    ensures
        lines_from(line + seq!['\n'], 0, i) == seq![without_return(line)],
    decreases line.len() - i,
{
    let ended = line + seq!['\n'];
    if i < line.len() {
        assert(ended[i] == line[i]);
        lemma_ended_line(line, i + 1);
    } else {
        assert(ended[i] == '\n');
        assert(ended.subrange(0, i) =~= line);
        assert(lines_from(ended, i + 1, i + 1) =~= Seq::<Seq<char>>::empty());
        assert(seq![without_return(line)] + Seq::<Seq<char>>::empty() =~= seq![
            without_return(line),
        ]);
    }
}

/// A text without the separator from `i` on is one field from there.
pub proof fn lemma_last_field(s: Seq<char>, sep: char, start: int, i: int)
    requires
        0 <= start <= i <= s.len(),
        forall|k: int| i <= k < s.len() ==> s[k] != sep,
    ensures
        fields_from(s, sep, start, i) == seq![s.subrange(start, s.len() as int)],
    decreases s.len() - i,
{
    if i < s.len() {
        lemma_last_field(s, sep, start, i + 1);
    }
}

/// Two texts without the separator, with the separator between them, are
/// the two fields of the whole.
pub proof fn lemma_two_fields(left: Seq<char>, right: Seq<char>, sep: char, i: int)
    requires
        0 <= i <= left.len(),
        forall|k: int| 0 <= k < left.len() ==> left[k] != sep,
        forall|k: int| 0 <= k < right.len() ==> right[k] != sep,
    ensures
        fields_from(left + seq![sep] + right, sep, 0, i) == seq![left, right],
    decreases left.len() - i,
{
    let s = left + seq![sep] + right;
    if i < left.len() {
        assert(s[i] == left[i]);
        lemma_two_fields(left, right, sep, i + 1);
    } else {
        assert(s[i] == sep);
        assert(s.subrange(0, i) =~= left);
        assert forall|k: int| i + 1 <= k < s.len() implies s[k] != sep by {
            assert(s[k] == right[k - i - 1]);
        }
        lemma_last_field(s, sep, i + 1, i + 1);
        assert(s.subrange(i + 1, s.len() as int) =~= right);
        assert(seq![left] + seq![right] =~= seq![left, right]);
    }
}

/// A text that neither begins nor ends with white space, with white space
/// in front of it, is what is left when the whole is trimmed.
pub proof fn lemma_trimmed_padded(gap: Seq<char>, s: Seq<char>)
    requires
        forall|k: int| 0 <= k < gap.len() ==> whitespace(gap[k]),
        s.len() > 0 ==> !whitespace(s.first()) && !whitespace(s.last()),
    ensures
        trimmed(gap + s) == s,
{
    let padded = gap + s;
    assert forall|k: int| 0 <= k < gap.len() implies whitespace(padded[k]) by {
        assert(padded[k] == gap[k]);
    }
    lemma_trimmed_start_skip(padded, gap.len() as int);
    assert(padded.skip(gap.len() as int) =~= s);
}

} // verus!
