//! Text as sequences of characters: the string operations that the rest of the
//! library needs, each stated over `Seq<char>`.

use vstd::prelude::*;

verus! {

/// `std::string::String::push`: the character is added at the end.
pub assume_specification[ std::string::String::push ](s: &mut String, c: char)
    ensures
        final(s)@ == old(s)@.push(c),
;

// ── Characters ──────────────────────────────────────────────────────────────

/// A character with Unicode's `White_Space` property.
pub open spec fn is_space(c: char) -> bool {
    ||| '\u{9}' <= c <= '\u{d}'
    ||| c == ' '
    ||| c == '\u{85}'
    ||| c == '\u{a0}'
    ||| c == '\u{1680}'
    ||| '\u{2000}' <= c <= '\u{200a}'
    ||| c == '\u{2028}'
    ||| c == '\u{2029}'
    ||| c == '\u{202f}'
    ||| c == '\u{205f}'
    ||| c == '\u{3000}'
}

/// Tells whether `c` is white space.
pub fn char_is_space(c: char) -> (r: bool)
    ensures
        r == is_space(c),
{
    ('\u{9}' <= c && c <= '\u{d}') || c == ' ' || c == '\u{85}' || c == '\u{a0}' || c == '\u{1680}'
        || ('\u{2000}' <= c && c <= '\u{200a}') || c == '\u{2028}' || c == '\u{2029}'
        || c == '\u{202f}' || c == '\u{205f}' || c == '\u{3000}'
}

/// An ASCII decimal digit.
pub open spec fn is_digit(c: char) -> bool {
    '0' <= c <= '9'
}

/// An ASCII hexadecimal digit, in either case.
pub open spec fn is_hex_digit(c: char) -> bool {
    is_digit(c) || 'a' <= c <= 'f' || 'A' <= c <= 'F'
}

/// The number that a hexadecimal digit stands for.
pub open spec fn hex_value(c: char) -> nat {
    if is_digit(c) {
        (c as nat - '0' as nat) as nat
    } else if 'a' <= c <= 'f' {
        (c as nat - 'a' as nat + 10) as nat
    } else {
        (c as nat - 'A' as nat + 10) as nat
    }
}

/// ASCII lower case; every other character stays.
pub open spec fn lower(c: char) -> char {
    if 'A' <= c <= 'Z' {
        (c as u32 + 32) as char
    } else {
        c
    }
}

/// Lower-cases one ASCII character.
pub fn char_lower(c: char) -> (r: char)
    ensures
        r == lower(c),
{
    if 'A' <= c && c <= 'Z' {
        ((c as u8) + 32) as char
    } else {
        c
    }
}

/// Lower-cases the ASCII letters of a text.
pub open spec fn lowered(s: Seq<char>) -> Seq<char> {
    s.map_values(|c: char| lower(c))
}

// ── Strings and vectors of characters ───────────────────────────────────────

/// The texts of a sequence of strings.
pub open spec fn texts(v: Seq<String>) -> Seq<Seq<char>> {
    v.map_values(|s: String| s@)
}

/// The text of an optional string.
pub open spec fn text_opt(s: Option<String>) -> Option<Seq<char>> {
    match s {
        Some(x) => Some(x@),
        None => None,
    }
}

/// The values of several strings that may not be there.
pub open spec fn text_opts(v: Seq<Option<String>>) -> Seq<Option<Seq<char>>> {
    v.map_values(|s: Option<String>| text_opt(s))
}

/// The value of a string slice that may not be there.
pub open spec fn str_opt(s: Option<&str>) -> Option<Seq<char>> {
    match s {
        Some(x) => Some(x@),
        None => None,
    }
}

/// The characters of a string, as a vector.
pub fn chars_of(s: &str) -> (r: Vec<char>)
    ensures
        r@ == s@,
{
    let mut out: Vec<char> = Vec::new();
    for c in it: s.chars()
        invariant
            out@ == s@.take(it.index()),
            it.seq() == s@,
    {
        out.push(c);
        assert(s@.take(it.index() + 1) =~= s@.take(it.index()).push(c));
    }
    assert(s@.take(s@.len() as int) =~= s@);
    out
}

/// The string of the characters from `from` up to `to`.
pub fn string_between(chars: &Vec<char>, from: usize, to: usize) -> (r: String)
    requires
        from <= to <= chars@.len(),
    ensures
        r@ == chars@.subrange(from as int, to as int),
{
    let mut out: String = String::new();
    let mut i: usize = from;
    while i < to
        invariant
            from <= i <= to <= chars@.len(),
            out@ == chars@.subrange(from as int, i as int),
        decreases to - i,
    {
        out.push(chars[i]);
        assert(chars@.subrange(from as int, i + 1) =~= chars@.subrange(from as int, i as int).push(
            chars@[i as int],
        ));
        i = i + 1;
    }
    out
}

/// An owned copy of a string slice.
pub fn owned(s: &str) -> (r: String)
    ensures
        r@ == s@,
{
    s.to_owned()
}

/// Whether two strings hold the same characters.
pub fn str_eq(a: &str, b: &str) -> (r: bool)
    ensures
        r == (a@ == b@),
{
    let x: Vec<char> = chars_of(a);
    let y: Vec<char> = chars_of(b);
    chars_eq(&x, &y)
}

/// Whether two vectors hold the same characters.
pub fn chars_eq(x: &Vec<char>, y: &Vec<char>) -> (r: bool)
    ensures
        r == (x@ == y@),
{
    if x.len() != y.len() {
        return false;
    }
    let mut i: usize = 0;
    while i < x.len()
        invariant
            i <= x@.len(),
            x@.len() == y@.len(),
            forall|k: int| 0 <= k < i ==> x@[k] == y@[k],
        decreases x@.len() - i,
    {
        if x[i] != y[i] {
            return false;
        }
        i = i + 1;
    }
    assert(x@ =~= y@);
    true
}

// ── Joining ─────────────────────────────────────────────────────────────────

/// The texts one after another, with `sep` between neighbours.
pub open spec fn joined(parts: Seq<Seq<char>>, sep: Seq<char>) -> Seq<char>
    decreases parts.len(),
{
    if parts.len() == 0 {
        Seq::empty()
    } else if parts.len() == 1 {
        parts[0]
    } else {
        joined(parts.drop_last(), sep) + sep + parts.last()
    }
}

/// Joins strings with a separator.
pub fn join(parts: &Vec<String>, sep: &str) -> (r: String)
    ensures
        r@ == joined(texts(parts@), sep@),
{
    assert(texts(parts@).skip(0) =~= texts(parts@));
    join_from(parts, 0, sep)
}

/// Joins the strings from index `from` on.
pub fn join_from(parts: &Vec<String>, from: usize, sep: &str) -> (r: String)
    requires
        from <= parts@.len(),
    ensures
        r@ == joined(texts(parts@).skip(from as int), sep@),
{
    let ghost all = texts(parts@).skip(from as int);
    let mut out: String = String::new();
    let mut i: usize = from;
    while i < parts.len()
        invariant
            from <= i <= parts@.len(),
            all == texts(parts@).skip(from as int),
            out@ == joined(all.take(i - from), sep@),
        decreases parts@.len() - i,
    {
        if i > from {
            out.append(sep);
        }
        out.append(parts[i].as_str());
        proof {
            let next = all.take(i + 1 - from);
            assert(next.drop_last() =~= all.take(i - from));
            assert(next.last() == parts@[i as int]@);
            if i == from {
                assert(next[0] == parts@[i as int]@);
                assert(out@ =~= next[0]);
            }
        }
        i = i + 1;
    }
    assert(all.take(all.len() as int) =~= all);
    out
}

// ── Trimming ────────────────────────────────────────────────────────────────

/// What is left of `s` without leading white space.
pub open spec fn trimmed_start(s: Seq<char>) -> Seq<char>
    decreases s.len(),
{
    if s.len() > 0 && is_space(s[0]) {
        trimmed_start(s.drop_first())
    } else {
        s
    }
}

/// What is left of `s` without trailing white space.
pub open spec fn trimmed_end(s: Seq<char>) -> Seq<char>
    decreases s.len(),
{
    if s.len() > 0 && is_space(s.last()) {
        trimmed_end(s.drop_last())
    } else {
        s
    }
}

/// What is left of `s` without white space at either end.
pub open spec fn trimmed(s: Seq<char>) -> Seq<char> {
    trimmed_end(trimmed_start(s))
}

/// Whether `s` holds nothing but white space.
pub open spec fn is_blank(s: Seq<char>) -> bool {
    trimmed(s).len() == 0
}

/// Removes white space from both ends.
pub fn trim(s: &str) -> (r: String)
    ensures
        r@ == trimmed(s@),
{
    let chars: Vec<char> = chars_of(s);
    let mut from: usize = 0;
    assert(chars@.skip(0) =~= chars@);
    while from < chars.len() && char_is_space(chars[from])
        invariant
            from <= chars@.len(),
            trimmed_start(chars@) == trimmed_start(chars@.skip(from as int)),
        decreases chars@.len() - from,
    {
        assert(chars@.skip(from as int).drop_first() =~= chars@.skip(from + 1));
        from = from + 1;
    }
    let mut to: usize = chars.len();
    assert(chars@.subrange(from as int, to as int) =~= chars@.skip(from as int));
    while to > from && char_is_space(chars[to - 1])
        invariant
            from <= to <= chars@.len(),
            trimmed_end(chars@.skip(from as int)) == trimmed_end(
                chars@.subrange(from as int, to as int),
            ),
        decreases to,
    {
        assert(chars@.subrange(from as int, to as int).drop_last() =~= chars@.subrange(
            from as int,
            to - 1,
        ));
        to = to - 1;
    }
    string_between(&chars, from, to)
}

/// Whether a string holds nothing but white space.
pub fn str_is_blank(s: &str) -> (r: bool)
    ensures
        r == is_blank(s@),
{
    trim(s).as_str().is_empty()
}

// ── Searching and replacing ─────────────────────────────────────────────────

/// Whether `needle` stands in `s` at position `at`.
pub open spec fn occurs_at(s: Seq<char>, needle: Seq<char>, at: int) -> bool {
    0 <= at && at + needle.len() <= s.len() && s.subrange(at, at + needle.len()) == needle
}

/// Whether `needle` stands somewhere in `s`.
pub open spec fn occurs(s: Seq<char>, needle: Seq<char>) -> bool {
    exists|at: int| occurs_at(s, needle, at)
}

/// `s` with each occurrence of `from`, found from left to right and not
/// overlapping an earlier one, replaced by `to`.
pub open spec fn replaced(s: Seq<char>, from: Seq<char>, to: Seq<char>) -> Seq<char>
    decreases s.len(),
{
    if from.len() == 0 || s.len() < from.len() {
        s
    } else if occurs_at(s, from, 0) {
        to + replaced(s.skip(from.len() as int), from, to)
    } else {
        seq![s[0]] + replaced(s.skip(1), from, to)
    }
}

/// Whether `needle` stands in `s` at `at`.
pub fn chars_at(s: &Vec<char>, needle: &Vec<char>, at: usize) -> (r: bool)
    requires
        at <= s@.len(),
    ensures
        r == occurs_at(s@, needle@, at as int),
{
    if needle.len() > s.len() - at {
        return false;
    }
    let mut i: usize = 0;
    while i < needle.len()
        invariant
            i <= needle@.len(),
            at + needle@.len() <= s@.len() <= usize::MAX,
            forall|k: int| 0 <= k < i ==> s@[at + k] == needle@[k],
        decreases needle@.len() - i,
    {
        if s[at + i] != needle[i] {
            assert(s@.subrange(at as int, at + needle@.len())[i as int] == s@[at + i]);
            return false;
        }
        i = i + 1;
    }
    assert(s@.subrange(at as int, at + needle@.len()) =~= needle@);
    true
}

/// Whether `needle` stands somewhere in `s`.
pub fn contains(s: &str, needle: &str) -> (r: bool)
    ensures
        r == occurs(s@, needle@),
{
    let hay: Vec<char> = chars_of(s);
    let pin: Vec<char> = chars_of(needle);
    let mut i: usize = 0;
    while i < hay.len()
        invariant
            i <= hay@.len(),
            hay@ == s@,
            pin@ == needle@,
            forall|k: int| 0 <= k < i ==> !#[trigger] occurs_at(hay@, pin@, k),
        decreases hay@.len() - i,
    {
        if chars_at(&hay, &pin, i) {
            return true;
        }
        i = i + 1;
    }
    chars_at(&hay, &pin, i)
}

/// Whether `s` starts with `prefix`.
pub fn starts_with(s: &str, prefix: &str) -> (r: bool)
    ensures
        r == occurs_at(s@, prefix@, 0),
{
    let x: Vec<char> = chars_of(s);
    let y: Vec<char> = chars_of(prefix);
    chars_at(&x, &y, 0)
}

/// Replaces each occurrence of `from`, left to right, by `to`.
pub fn replace(s: &str, from: &str, to: &str) -> (r: String)
    requires
        from@.len() > 0,
    ensures
        r@ == replaced(s@, from@, to@),
{
    let hay: Vec<char> = chars_of(s);
    let pin: Vec<char> = chars_of(from);
    let mut out: String = String::new();
    let mut i: usize = 0;
    assert(hay@.skip(0) =~= hay@);
    assert(out@ + replaced(s@, from@, to@) =~= replaced(s@, from@, to@));
    while i < hay.len()
        invariant
            i <= hay@.len(),
            hay@ == s@,
            pin@ == from@,
            pin@.len() > 0,
            out@ + replaced(hay@.skip(i as int), from@, to@) == replaced(s@, from@, to@),
        decreases hay@.len() - i,
    {
        let ghost rest = hay@.skip(i as int);
        if chars_at(&hay, &pin, i) {
            proof {
                assert(rest.subrange(0, pin@.len() as int) =~= hay@.subrange(
                    i as int,
                    i + pin@.len(),
                ));
                assert(rest.skip(pin@.len() as int) =~= hay@.skip(i + pin@.len()));
                lemma_add_assoc(out@, to@, replaced(hay@.skip(i + pin@.len()), from@, to@));
            }
            out.append(to);
            i = i + pin.len();
        } else {
            proof {
                if rest.len() >= pin@.len() {
                    assert(rest.subrange(0, pin@.len() as int) =~= hay@.subrange(
                        i as int,
                        i + pin@.len(),
                    ));
                    assert(!occurs_at(rest, from@, 0));
                    assert(rest.skip(1) =~= hay@.skip(i + 1));
                    lemma_add_assoc(out@, seq![hay@[i as int]], replaced(hay@.skip(i + 1), from@, to@));
                } else {
                    assert(replaced(rest, from@, to@) == rest);
                    assert(replaced(hay@.skip(i + 1), from@, to@) == hay@.skip(i + 1));
                    assert(rest =~= seq![hay@[i as int]] + hay@.skip(i + 1));
                    lemma_add_assoc(out@, seq![hay@[i as int]], hay@.skip(i + 1));
                }
                assert(out@.push(hay@[i as int]) =~= out@ + seq![hay@[i as int]]);
            }
            out.push(hay[i]);
            i = i + 1;
        }
        assert(i == hay@.len() ==> hay@.skip(i as int) =~= Seq::empty());
    }
    assert(hay@.skip(hay@.len() as int) =~= Seq::empty());
    assert(out@ + Seq::<char>::empty() =~= out@);
    out
}

/// Concatenation is associative.
pub proof fn lemma_add_assoc(a: Seq<char>, b: Seq<char>, c: Seq<char>)
    ensures
        (a + b) + c == a + (b + c),
{
    assert((a + b) + c =~= a + (b + c));
}

// ── Lines ───────────────────────────────────────────────────────────────────

/// How many characters stand before the first line feed.
pub open spec fn first_newline(s: Seq<char>) -> nat
    decreases s.len(),
{
    if s.len() == 0 || s[0] == '\n' {
        0
    } else {
        1 + first_newline(s.drop_first())
    }
}

/// A line without the carriage return that its line ending began with.
pub open spec fn without_cr(line: Seq<char>) -> Seq<char> {
    if line.len() > 0 && line.last() == '\r' {
        line.drop_last()
    } else {
        line
    }
}

/// The lines of a text, without their line endings. A line feed at the very end
/// starts no further line.
pub open spec fn lines(s: Seq<char>) -> Seq<Seq<char>>
    decreases s.len(),
{
    if s.len() == 0 {
        Seq::empty()
    } else {
        let n = first_newline(s) as int;
        if n >= s.len() {
            seq![s]
        } else {
            seq![without_cr(s.take(n))] + lines(s.skip(n + 1))
        }
    }
}

/// The lines of a text that hold more than white space.
pub open spec fn nonblank_lines(s: Seq<char>) -> Seq<Seq<char>> {
    lines(s).filter(|line: Seq<char>| !is_blank(line))
}

proof fn lemma_first_newline(s: Seq<char>, n: int)
    requires
        0 <= n <= s.len(),
        forall|k: int| 0 <= k < n ==> s[k] != '\n',
        n < s.len() ==> s[n] == '\n',
    ensures
        first_newline(s) == n,
    decreases s.len(),
{
    if s.len() > 0 && s[0] != '\n' {
        assert forall|k: int| 0 <= k < n - 1 implies s.drop_first()[k] != '\n' by {
            assert(s.drop_first()[k] == s[k + 1]);
        }
        lemma_first_newline(s.drop_first(), n - 1);
    }
}

/// Splits a text into its lines.
pub fn split_lines(s: &str) -> (r: Vec<String>)
    ensures
        texts(r@) == lines(s@),
{
    let chars: Vec<char> = chars_of(s);
    let mut out: Vec<String> = Vec::new();
    let mut start: usize = 0;
    assert(chars@.skip(0) =~= chars@);
    assert(texts(out@) + lines(chars@) =~= lines(chars@));
    while start < chars.len()
        invariant
            start <= chars@.len(),
            texts(out@) + lines(chars@.skip(start as int)) == lines(chars@),
        decreases chars@.len() - start,
    {
        let ghost rest = chars@.skip(start as int);
        let ghost had = out@;
        let mut n: usize = start;
        while n < chars.len() && chars[n] != '\n'
            invariant
                start <= n <= chars@.len(),
                forall|k: int| start <= k < n ==> chars@[k] != '\n',
            decreases chars@.len() - n,
        {
            n = n + 1;
        }
        proof {
            lemma_first_newline(rest, n - start);
        }
        if n == chars.len() {
            out.push(string_between(&chars, start, n));
            proof {
                assert(chars@.subrange(start as int, n as int) =~= rest);
                assert(texts(out@) =~= texts(had) + seq![rest]);
                assert(chars@.skip(n as int) =~= Seq::empty());
                assert(texts(out@) + lines(chars@.skip(n as int)) =~= texts(out@));
            }
            start = n;
        } else {
            let end: usize = if n > start && chars[n - 1] == '\r' {
                n - 1
            } else {
                n
            };
            out.push(string_between(&chars, start, end));
            proof {
                let line = chars@.subrange(start as int, end as int);
                assert(rest.take(n - start).len() == n - start);
                if n > start {
                    assert(rest.take(n - start).last() == chars@[n - 1]);
                }
                assert(line =~= without_cr(rest.take(n - start)));
                assert(rest.skip(n - start + 1) =~= chars@.skip(n + 1));
                assert(texts(out@) =~= texts(had) + seq![line]);
                assert(texts(out@) + lines(chars@.skip(n + 1)) =~= texts(had) + (seq![line] + lines(
                    chars@.skip(n + 1),
                )));
            }
            start = n + 1;
        }
    }
    assert(chars@.skip(start as int) =~= Seq::empty());
    assert(texts(out@) + lines(chars@.skip(start as int)) =~= texts(out@));
    out
}

/// Splits a text into the lines that hold more than white space.
pub fn split_nonblank_lines(s: &str) -> (r: Vec<String>)
    ensures
        texts(r@) == nonblank_lines(s@),
{
    let all: Vec<String> = split_lines(s);
    let ghost keep = |line: Seq<char>| !is_blank(line);
    let mut out: Vec<String> = Vec::new();
    let mut i: usize = 0;
    assert(texts(all@).take(0).filter(keep) =~= Seq::empty()) by {
        reveal(Seq::filter);
    }
    while i < all.len()
        invariant
            i <= all@.len(),
            keep == (|line: Seq<char>| !is_blank(line)),
            texts(out@) == texts(all@).take(i as int).filter(keep),
        decreases all@.len() - i,
    {
        let ghost had = out@;
        proof {
            let line = texts(all@)[i as int];
            assert(texts(all@).take(i + 1) =~= texts(all@).take(i as int).push(line));
            texts(all@).take(i as int).lemma_filter_push(line, keep);
        }
        if !str_is_blank(all[i].as_str()) {
            out.push(all[i].clone());
            assert(texts(out@) =~= texts(had).push(texts(all@)[i as int]));
        }
        i = i + 1;
    }
    assert(texts(all@).take(all@.len() as int) =~= texts(all@));
    out
}

/// The lines one after the other, each ended by a line feed.
pub open spec fn written(list: Seq<Seq<char>>) -> Seq<char>
    decreases list.len(),
{
    if list.len() == 0 {
        Seq::empty()
    } else {
        list[0] + seq!['\n'] + written(list.drop_first())
    }
}

/// Whether a text is one line, as [`lines`] gives lines back.
pub open spec fn is_line(s: Seq<char>) -> bool {
    &&& !s.contains('\n')
    &&& s.len() > 0 ==> s.last() != '\r'
}

proof fn lemma_written_push(list: Seq<Seq<char>>, line: Seq<char>)
    ensures
        written(list.push(line)) == written(list) + line + seq!['\n'],
    decreases list.len(),
{
    if list.len() == 0 {
        assert(list.push(line).drop_first() =~= Seq::empty());
        assert(line + seq!['\n'] + written(Seq::empty()) =~= written(list) + line + seq!['\n']);
    } else {
        let rest = list.drop_first();
        lemma_written_push(rest, line);
        assert(list.push(line).drop_first() =~= rest.push(line));
        assert(list[0] + seq!['\n'] + (written(rest) + line + seq!['\n']) =~= list[0] + seq!['\n']
            + written(rest) + line + seq!['\n']);
    }
}

/// Writes lines, each ended by a line feed.
pub fn write_lines(list: &Vec<String>) -> (r: String)
    ensures
        r@ == written(texts(list@)),
{
    let mut out: String = String::new();
    let mut i: usize = 0;
    assert(texts(list@).take(0) =~= Seq::empty());
    while i < list.len()
        invariant
            i <= list@.len(),
            out@ == written(texts(list@).take(i as int)),
        decreases list@.len() - i,
    {
        proof {
            let line = texts(list@)[i as int];
            lemma_written_push(texts(list@).take(i as int), line);
            assert(texts(list@).take(i + 1) =~= texts(list@).take(i as int).push(line));
        }
        out.append(list[i].as_str());
        out.push('\n');
        i = i + 1;
    }
    assert(texts(list@).take(list@.len() as int) =~= texts(list@));
    out
}

/// Lines that were written are read back as they were.
pub proof fn law_written_lines_read_back(list: Seq<Seq<char>>)
    requires
        forall|i: int| 0 <= i < list.len() ==> is_line(#[trigger] list[i]),
    ensures
        lines(written(list)) == list,
    decreases list.len(),
{
    let s = written(list);
    if list.len() > 0 {
        let line = list[0];
        let rest = list.drop_first();
        let n = line.len() as int;
        assert(is_line(line));
        assert(s.len() > n && s[n] == '\n');
        assert forall|k: int| 0 <= k < n implies s[k] != '\n' by {
            assert(s[k] == line[k]);
        }
        lemma_first_newline(s, n);
        assert(s.take(n) =~= line);
        assert(s.skip(n + 1) =~= written(rest));
        assert forall|i: int| 0 <= i < rest.len() implies is_line(#[trigger] rest[i]) by {
            assert(rest[i] == list[i + 1]);
        }
        law_written_lines_read_back(rest);
        assert(seq![line] + rest =~= list);
    } else {
        assert(list =~= Seq::empty());
    }
}

/// Written lines that hold more than white space are read back as they were.
pub proof fn law_written_nonblank_lines_read_back(list: Seq<Seq<char>>)
    requires
        forall|i: int|
            0 <= i < list.len() ==> is_line(#[trigger] list[i]) && !is_blank(list[i]),
    ensures
        nonblank_lines(written(list)) == list,
{
    let keep = |line: Seq<char>| !is_blank(line);
    law_written_lines_read_back(list);
    lemma_filter_of_kept(list, keep, list.len() as int);
    assert(list.take(list.len() as int) =~= list);
}

proof fn lemma_filter_of_kept(list: Seq<Seq<char>>, keep: spec_fn(Seq<char>) -> bool, n: int)
    requires
        0 <= n <= list.len(),
        forall|i: int| 0 <= i < list.len() ==> keep(#[trigger] list[i]),
    ensures
        list.take(n).filter(keep) == list.take(n),
    decreases n,
{
    if n == 0 {
        reveal(Seq::filter);
        assert(list.take(0) =~= Seq::empty());
    } else {
        lemma_filter_of_kept(list, keep, n - 1);
        assert(list.take(n) =~= list.take(n - 1).push(list[n - 1]));
        list.take(n - 1).lemma_filter_push(list[n - 1], keep);
    }
}

// ── Shortening ──────────────────────────────────────────────────────────────

/// `s` cut to `max` characters, with an ellipsis in place of what was cut off.
pub open spec fn truncated(s: Seq<char>, max: nat) -> Seq<char> {
    if s.len() <= max {
        s
    } else {
        s.take(max as int).push('\u{2026}')
    }
}

/// Cuts a text to a number of characters.
pub fn truncate_chars(s: &str, max: usize) -> (r: String)
    ensures
        r@ == truncated(s@, max as nat),
{
    let chars: Vec<char> = chars_of(s);
    if chars.len() <= max {
        s.to_owned()
    } else {
        let mut out: String = string_between(&chars, 0, max);
        out.push('\u{2026}');
        assert(chars@.subrange(0, max as int) =~= s@.take(max as int));
        out
    }
}

// ── Order ───────────────────────────────────────────────────────────────────

/// Whether `a` comes before `b` in the order of their characters.
pub open spec fn less(a: Seq<char>, b: Seq<char>) -> bool
    decreases a.len(),
{
    if b.len() == 0 {
        false
    } else if a.len() == 0 {
        true
    } else {
        a[0] < b[0] || (a[0] == b[0] && less(a.drop_first(), b.drop_first()))
    }
}

/// Of two different texts one comes first, and only one.
pub proof fn lemma_less_total(a: Seq<char>, b: Seq<char>)
    ensures
        less(a, b) || less(b, a) || a == b,
        !(less(a, b) && less(b, a)),
        a == b ==> !less(a, b),
    decreases a.len(),
{
    if a.len() > 0 && b.len() > 0 {
        lemma_less_total(a.drop_first(), b.drop_first());
        if a[0] == b[0] && a.drop_first() == b.drop_first() {
            assert(a =~= seq![a[0]] + a.drop_first());
            assert(b =~= seq![b[0]] + b.drop_first());
        }
    } else if a.len() == 0 && b.len() == 0 {
        assert(a =~= b);
    }
}

/// The order of texts is transitive.
pub proof fn lemma_less_transitive(a: Seq<char>, b: Seq<char>, c: Seq<char>)
    requires
        less(a, b),
        less(b, c),
    ensures
        less(a, c),
    decreases a.len(),
{
    if a.len() > 0 && a[0] == b[0] && b[0] == c[0] {
        lemma_less_transitive(a.drop_first(), b.drop_first(), c.drop_first());
    }
}

/// How one thing stands to another in an order.
#[derive(Clone, Copy, Debug, PartialEq, Eq, Structural)]
pub enum Rank {
    /// It comes before.
    Before,
    /// It is the same.
    Same,
    /// It comes after.
    After,
}

/// How `a` stands to `b`.
pub open spec fn rank_of(a: Seq<char>, b: Seq<char>) -> Rank {
    if less(a, b) {
        Rank::Before
    } else if a == b {
        Rank::Same
    } else {
        Rank::After
    }
}

/// Tells how one string stands to another.
pub fn rank(a: &str, b: &str) -> (r: Rank)
    ensures
        r == rank_of(a@, b@),
{
    let x: Vec<char> = chars_of(a);
    let y: Vec<char> = chars_of(b);
    let mut i: usize = 0;
    assert(x@.skip(0) =~= x@ && y@.skip(0) =~= y@);
    while i < x.len() && i < y.len()
        invariant
            i <= x@.len(),
            i <= y@.len(),
            x@ == a@,
            y@ == b@,
            forall|k: int| 0 <= k < i ==> x@[k] == y@[k],
            less(a@, b@) == less(x@.skip(i as int), y@.skip(i as int)),
        decreases x@.len() - i,
    {
        if x[i] < y[i] {
            return Rank::Before;
        }
        if x[i] > y[i] {
            return Rank::After;
        }
        assert(x@.skip(i as int).drop_first() =~= x@.skip(i + 1));
        assert(y@.skip(i as int).drop_first() =~= y@.skip(i + 1));
        i = i + 1;
    }
    if i < y.len() {
        Rank::Before
    } else if i < x.len() {
        Rank::After
    } else {
        assert(a@ =~= b@);
        proof {
            lemma_less_total(a@, b@);
        }
        Rank::Same
    }
}

// ── Numbers ─────────────────────────────────────────────────────────────────

/// The character of a decimal digit.
pub open spec fn digit_char(d: nat) -> char {
    ('0' as nat + d) as char
}

/// The decimal digits of `n`, without leading zeros.
pub open spec fn decimal(n: nat) -> Seq<char>
    decreases n,
{
    if n < 10 {
        seq![digit_char(n)]
    } else {
        decimal(n / 10).push(digit_char(n % 10))
    }
}

/// The number that a sequence of decimal digits stands for.
pub open spec fn decimal_value(s: Seq<char>) -> nat
    decreases s.len(),
{
    if s.len() == 0 {
        0
    } else {
        decimal_value(s.drop_last()) * 10 + hex_value(s.last())
    }
}

/// A number is recovered from its decimal digits, of which there is at least one.
pub proof fn lemma_decimal_value(n: nat)
    ensures
        decimal_value(decimal(n)) == n,
        decimal(n).len() > 0,
        forall|i: int| 0 <= i < decimal(n).len() ==> is_digit(#[trigger] decimal(n)[i]),
    decreases n,
{
    let d = digit_char(n % 10);
    if n < 10 {
        assert(decimal(n).drop_last() =~= Seq::empty());
        assert(decimal_value(Seq::<char>::empty()) == 0);
    } else {
        lemma_decimal_value(n / 10);
        assert(decimal(n).drop_last() =~= decimal(n / 10));
    }
}

/// Two numbers with the same decimal digits are the same number.
pub proof fn lemma_decimal_injective(a: nat, b: nat)
    requires
        decimal(a) == decimal(b),
    ensures
        a == b,
{
    lemma_decimal_value(a);
    lemma_decimal_value(b);
}

/// The decimal digits of a 64-bit number.
pub fn decimal_string(n: u64) -> (r: String)
    ensures
        r@ == decimal(n as nat),
{
    decimal_wide(n as u128)
}

/// The decimal digits of a 128-bit number.
pub fn decimal_wide(n: u128) -> (r: String)
    ensures
        r@ == decimal(n as nat),
    decreases n,
{
    let last: char = (48u8 + (n % 10) as u8) as char;
    let mut out: String = if n < 10 {
        String::new()
    } else {
        decimal_wide(n / 10)
    };
    out.push(last);
    assert(n < 10 ==> out@ =~= seq![digit_char(n as nat)]);
    out
}

/// The text of an integer: a minus sign before negative numbers, then the digits.
pub open spec fn signed_decimal(n: int) -> Seq<char> {
    if n < 0 {
        seq!['-'] + decimal((-n) as nat)
    } else {
        decimal(n as nat)
    }
}

/// The text of a signed integer.
pub fn signed_string(n: i64) -> (r: String)
    ensures
        r@ == signed_decimal(n as int),
{
    if n < 0 {
        let mut out: String = String::new();
        out.push('-');
        let magnitude: u64 = (-(n as i128)) as u64;
        let digits: String = decimal_string(magnitude);
        out.append(digits.as_str());
        assert(Seq::<char>::empty().push('-') =~= seq!['-']);
        out
    } else {
        decimal_string(n as u64)
    }
}

/// The character of a hexadecimal digit, in lower case.
pub open spec fn hex_char(d: nat) -> char {
    if d < 10 {
        digit_char(d)
    } else {
        ('a' as nat + d - 10) as char
    }
}

/// Four lower-case hexadecimal digits of `n`, with leading zeros.
pub open spec fn hex4(n: nat) -> Seq<char> {
    seq![
        hex_char(n / 4096 % 16),
        hex_char(n / 256 % 16),
        hex_char(n / 16 % 16),
        hex_char(n % 16),
    ]
}

fn hex_digit(d: u16) -> (r: char)
    requires
        d < 16,
    ensures
        r == hex_char(d as nat),
{
    if d < 10 {
        (48u8 + d as u8) as char
    } else {
        (87u8 + d as u8) as char
    }
}

/// Four lower-case hexadecimal digits of `n`.
pub fn hex4_string(n: u16) -> (r: String)
    ensures
        r@ == hex4(n as nat),
{
    let mut out: String = String::new();
    out.push(hex_digit(n / 4096 % 16));
    out.push(hex_digit(n / 256 % 16));
    out.push(hex_digit(n / 16 % 16));
    out.push(hex_digit(n % 16));
    assert(out@ =~= hex4(n as nat));
    out
}

/// The digits of an unsigned number in text, after an optional plus sign.
pub open spec fn unsigned_digits(s: Seq<char>) -> Seq<char> {
    if s.len() > 1 && s[0] == '+' {
        s.drop_first()
    } else {
        s
    }
}

/// Whether `s` is a plain decimal number: an optional plus sign and digits.
pub open spec fn is_unsigned(s: Seq<char>) -> bool {
    let digits = unsigned_digits(s);
    digits.len() > 0 && forall|i: int| 0 <= i < digits.len() ==> is_digit(#[trigger] digits[i])
}

/// The number written in `s`, where it is one that fits in 64 bits.
pub open spec fn parsed_u64(s: Seq<char>) -> Option<u64> {
    if is_unsigned(s) && decimal_value(unsigned_digits(s)) <= u64::MAX {
        Some(decimal_value(unsigned_digits(s)) as u64)
    } else {
        None
    }
}

proof fn lemma_decimal_value_monotone(s: Seq<char>, n: int)
    requires
        0 <= n <= s.len(),
    ensures
        decimal_value(s.take(n)) <= decimal_value(s),
    decreases s.len(),
{
    if n < s.len() {
        lemma_decimal_value_monotone(s.drop_last(), n);
        assert(s.drop_last().take(n) =~= s.take(n));
    } else {
        assert(s.take(n) =~= s);
    }
}

/// Reads an unsigned 64-bit decimal number.
pub fn parse_u64(s: &str) -> (r: Option<u64>)
    ensures
        r == parsed_u64(s@),
{
    let chars: Vec<char> = chars_of(s);
    let start: usize = if chars.len() > 1 && chars[0] == '+' {
        1
    } else {
        0
    };
    let ghost digits = unsigned_digits(s@);
    assert(digits =~= s@.skip(start as int));
    if start == chars.len() {
        return None;
    }
    let mut value: u64 = 0;
    let mut i: usize = start;
    assert(digits.take(0) =~= Seq::empty());
    while i < chars.len()
        invariant
            start <= i <= chars@.len(),
            chars@ == s@,
            digits == unsigned_digits(s@),
            digits == s@.skip(start as int),
            digits.len() > 0,
            forall|k: int| 0 <= k < i - start ==> is_digit(#[trigger] digits[k]),
            value == decimal_value(digits.take(i - start)),
        decreases chars@.len() - i,
    {
        let c: char = chars[i];
        assert(digits[i - start] == c);
        if c < '0' || c > '9' {
            return None;
        }
        let d: u64 = (c as u64) - 48;
        proof {
            let next = digits.take(i - start + 1);
            assert(next.drop_last() =~= digits.take(i - start));
            assert(decimal_value(next) == value * 10 + d);
            lemma_decimal_value_monotone(digits, i - start + 1);
        }
        match value.checked_mul(10) {
            None => {
                return None;
            },
            Some(scaled) => match scaled.checked_add(d) {
                None => {
                    return None;
                },
                Some(sum) => {
                    value = sum;
                },
            },
        }
        i = i + 1;
    }
    assert(digits.take(digits.len() as int) =~= digits);
    Some(value)
}

// ── Printing ────────────────────────────────────────────────────────────────

/// The text that std's `Debug` prints for a string.
pub uninterp spec fn debug_text(s: Seq<char>) -> Seq<char>;

/// `<str as std::fmt::Debug>::fmt`: the string in quotes, with escapes.
#[verifier::external_body]
pub(crate) fn debug_string(s: &str) -> (r: String)
    ensures
        r@ == debug_text(s@),
{
    format!("{:?}", s)
}

// ── Splitting ───────────────────────────────────────────────────────────────

/// What stands between the separators of a text.
pub open spec fn pieces(s: Seq<char>, sep: char) -> Seq<Seq<char>>
    decreases s.len(),
{
    if s.len() == 0 {
        seq![Seq::empty()]
    } else {
        let before = pieces(s.drop_last(), sep);
        if s.last() == sep {
            before.push(Seq::empty())
        } else {
            before.update(before.len() - 1, before.last().push(s.last()))
        }
    }
}

/// Splits a text at its separators.
pub fn split(s: &str, sep: char) -> (r: Vec<String>)
    ensures
        texts(r@) == pieces(s@, sep),
        r@.len() > 0,
{
    let chars: Vec<char> = chars_of(s);
    let mut out: Vec<String> = Vec::new();
    let mut piece: String = String::new();
    let mut i: usize = 0;
    assert(s@.take(0) =~= Seq::empty());
    assert(texts(out@).push(piece@) =~= pieces(s@.take(0), sep));
    while i < chars.len()
        invariant
            chars@ == s@,
            i <= chars@.len(),
            texts(out@).push(piece@) == pieces(s@.take(i as int), sep),
        decreases chars@.len() - i,
    {
        let c: char = chars[i];
        let ghost had = texts(out@);
        let ghost last = piece@;
        proof {
            assert(s@.take(i + 1).drop_last() =~= s@.take(i as int));
            assert(s@.take(i + 1).last() == c);
        }
        if c == sep {
            out.push(piece);
            piece = String::new();
            assert(texts(out@) =~= had.push(last));
            assert(piece@ =~= Seq::empty());
        } else {
            piece.push(c);
            assert(had.push(last).update(had.len() as int, last.push(c)) =~= had.push(piece@));
        }
        i = i + 1;
    }
    assert(s@.take(s@.len() as int) =~= s@);
    let ghost had = texts(out@);
    let ghost last = piece@;
    out.push(piece);
    assert(texts(out@) =~= had.push(last));
    out
}

// ── Hexadecimal numbers ─────────────────────────────────────────────────────

/// The number that a sequence of hexadecimal digits stands for.
pub open spec fn hexadecimal_value(s: Seq<char>) -> nat
    decreases s.len(),
{
    if s.len() == 0 {
        0
    } else {
        hexadecimal_value(s.drop_last()) * 16 + hex_value(s.last())
    }
}

/// The hexadecimal number written in `s`, where it is one that fits in 32 bits.
pub open spec fn parsed_hex_u32(s: Seq<char>) -> Option<u32> {
    let digits = unsigned_digits(s);
    if digits.len() > 0 && (forall|i: int|
        0 <= i < digits.len() ==> is_hex_digit(#[trigger] digits[i])) && hexadecimal_value(digits)
        <= u32::MAX {
        Some(hexadecimal_value(digits) as u32)
    } else {
        None
    }
}

proof fn lemma_hexadecimal_value_monotone(s: Seq<char>, n: int)
    requires
        0 <= n <= s.len(),
    ensures
        hexadecimal_value(s.take(n)) <= hexadecimal_value(s),
    decreases s.len(),
{
    if n < s.len() {
        lemma_hexadecimal_value_monotone(s.drop_last(), n);
        assert(s.drop_last().take(n) =~= s.take(n));
    } else {
        assert(s.take(n) =~= s);
    }
}

fn hex_digit_value(c: char) -> (r: Option<u32>)
    ensures
        r == if is_hex_digit(c) {
            Some(hex_value(c) as u32)
        } else {
            None
        },
        r matches Some(d) ==> d < 16 && d == hex_value(c),
{
    if '0' <= c && c <= '9' {
        Some(c as u32 - 48)
    } else if 'a' <= c && c <= 'f' {
        Some(c as u32 - 87)
    } else if 'A' <= c && c <= 'F' {
        Some(c as u32 - 55)
    } else {
        None
    }
}

/// Reads an unsigned 32-bit hexadecimal number.
pub fn parse_hex_u32(s: &str) -> (r: Option<u32>)
    ensures
        r == parsed_hex_u32(s@),
{
    let chars: Vec<char> = chars_of(s);
    let start: usize = if chars.len() > 1 && chars[0] == '+' {
        1
    } else {
        0
    };
    let ghost digits = unsigned_digits(s@);
    assert(digits =~= s@.skip(start as int));
    if start == chars.len() {
        return None;
    }
    let mut value: u32 = 0;
    let mut i: usize = start;
    assert(digits.take(0) =~= Seq::empty());
    while i < chars.len()
        invariant
            start <= i <= chars@.len(),
            chars@ == s@,
            digits == unsigned_digits(s@),
            digits == s@.skip(start as int),
            digits.len() > 0,
            forall|k: int| 0 <= k < i - start ==> is_hex_digit(#[trigger] digits[k]),
            value == hexadecimal_value(digits.take(i - start)),
        decreases chars@.len() - i,
    {
        let c: char = chars[i];
        assert(digits[i - start] == c);
        let d: u32 = match hex_digit_value(c) {
            Some(d) => d,
            None => {
                return None;
            },
        };
        proof {
            let next = digits.take(i - start + 1);
            assert(next.drop_last() =~= digits.take(i - start));
            assert(hexadecimal_value(next) == value * 16 + d);
            lemma_hexadecimal_value_monotone(digits, i - start + 1);
        }
        match value.checked_mul(16) {
            None => {
                return None;
            },
            Some(scaled) => match scaled.checked_add(d) {
                None => {
                    return None;
                },
                Some(sum) => {
                    value = sum;
                },
            },
        }
        i = i + 1;
    }
    assert(digits.take(digits.len() as int) =~= digits);
    Some(value)
}

/// A text without a character that it starts with.
pub open spec fn without_prefix_char(s: Seq<char>, c: char) -> Seq<char> {
    if s.len() > 0 && s[0] == c {
        s.drop_first()
    } else {
        s
    }
}

/// Takes a character off the front of a text, where it is there.
pub fn strip_prefix_char(s: &str, c: char) -> (r: String)
    ensures
        r@ == without_prefix_char(s@, c),
{
    let chars: Vec<char> = chars_of(s);
    if chars.len() > 0 && chars[0] == c {
        let r: String = string_between(&chars, 1, chars.len());
        assert(r@ =~= s@.drop_first());
        r
    } else {
        s.to_owned()
    }
}

// ── Numbers that are none ───────────────────────────────────────────────────

/// Whether some first characters of a text are digits that stand for more than fits
/// in 64 bits.
pub open spec fn overflows(digits: Seq<char>) -> bool {
    exists|n: int|
        0 <= n <= digits.len() && (forall|i: int| 0 <= i < n ==> is_digit(digits[i]))
            && decimal_value(#[trigger] digits.take(n)) > u64::MAX
}

/// What is said of a text that is no unsigned 64-bit number.
pub open spec fn number_problem(s: Seq<char>) -> Seq<char> {
    if s.len() == 0 {
        "cannot parse integer from empty string"@
    } else if overflows(unsigned_digits(s)) {
        "number too large to fit in target type"@
    } else {
        "invalid digit found in string"@
    }
}

/// What is said of a text that is no unsigned 64-bit number.
pub fn number_problem_text(s: &str) -> (r: &'static str)
    ensures
        r@ == number_problem(s@),
{
    let chars: Vec<char> = chars_of(s);
    if chars.len() == 0 {
        return "cannot parse integer from empty string";
    }
    let start: usize = if chars.len() > 1 && chars[0] == '+' {
        1
    } else {
        0
    };
    let ghost digits = unsigned_digits(s@);
    assert(digits =~= s@.skip(start as int));
    let mut value: u64 = 0;
    let mut i: usize = start;
    assert(digits.take(0) =~= Seq::empty());
    while i < chars.len()
        invariant
            start <= i <= chars@.len(),
            chars@ == s@,
            s@.len() > 0,
            digits == unsigned_digits(s@),
            digits == s@.skip(start as int),
            forall|k: int| 0 <= k < i - start ==> is_digit(#[trigger] digits[k]),
            value == decimal_value(digits.take(i - start)),
        decreases chars@.len() - i,
    {
        let c: char = chars[i];
        assert(digits[i - start] == c);
        if c < '0' || c > '9' {
            proof {
                lemma_no_overflow(digits, i - start);
            }
            return "invalid digit found in string";
        }
        let d: u64 = (c as u64) - 48;
        let ghost next = digits.take(i - start + 1);
        proof {
            assert(next.drop_last() =~= digits.take(i - start));
            assert(decimal_value(next) == value * 10 + d);
        }
        match value.checked_mul(10) {
            None => {
                assert(decimal_value(digits.take(i - start + 1)) > u64::MAX);
                return "number too large to fit in target type";
            },
            Some(scaled) => match scaled.checked_add(d) {
                None => {
                    assert(decimal_value(digits.take(i - start + 1)) > u64::MAX);
                    return "number too large to fit in target type";
                },
                Some(sum) => {
                    value = sum;
                },
            },
        }
        i = i + 1;
    }
    proof {
        lemma_no_overflow(digits, digits.len() as int);
    }
    "invalid digit found in string"
}

proof fn lemma_no_overflow(digits: Seq<char>, n: int)
    requires
        0 <= n <= digits.len(),
        decimal_value(digits.take(n)) <= u64::MAX,
        n < digits.len() ==> !is_digit(digits[n]),
    ensures
        !overflows(digits),
{
    assert forall|m: int|
        0 <= m <= digits.len() && (forall|i: int| 0 <= i < m ==> is_digit(digits[i])) implies
        decimal_value(#[trigger] digits.take(m)) <= u64::MAX by {
        assert(m <= n);
        lemma_decimal_value_monotone(digits.take(n), m);
        assert(digits.take(n).take(m) =~= digits.take(m));
    }
}

// ── What holds of texts ─────────────────────────────────────────────────────

proof fn lemma_trimmed_start(s: Seq<char>)
    ensures
        ({
            let r = trimmed_start(s);
            let n = s.len() - r.len();
            &&& 0 <= n <= s.len()
            &&& r == s.skip(n)
            &&& forall|i: int| 0 <= i < n ==> is_space(#[trigger] s[i])
            &&& r.len() > 0 ==> !is_space(r[0])
        }),
    decreases s.len(),
{
    if s.len() > 0 && is_space(s[0]) {
        let rest = s.drop_first();
        lemma_trimmed_start(rest);
        let n = rest.len() - trimmed_start(rest).len();
        assert(rest.skip(n) =~= s.skip(n + 1));
        assert forall|i: int| 0 <= i < n + 1 implies is_space(#[trigger] s[i]) by {
            if i > 0 {
                assert(rest[i - 1] == s[i]);
            }
        }
    } else {
        assert(s.skip(0) =~= s);
    }
}

proof fn lemma_trimmed_end(s: Seq<char>)
    ensures
        ({
            let r = trimmed_end(s);
            &&& r.len() <= s.len()
            &&& r == s.take(r.len() as int)
            &&& forall|i: int| r.len() <= i < s.len() ==> is_space(#[trigger] s[i])
            &&& r.len() > 0 ==> !is_space(r.last())
        }),
    decreases s.len(),
{
    if s.len() > 0 && is_space(s.last()) {
        let rest = s.drop_last();
        lemma_trimmed_end(rest);
        let r = trimmed_end(rest);
        assert(rest.take(r.len() as int) =~= s.take(r.len() as int));
        assert forall|i: int| r.len() <= i < s.len() implies is_space(#[trigger] s[i]) by {
            if i < rest.len() {
                assert(rest[i] == s[i]);
            }
        }
    } else {
        assert(s.take(s.len() as int) =~= s);
    }
}

/// To trim a text is to take the white space from both of its ends and nothing else: what
/// is left stands in the text, with nothing but white space before and behind it, and
/// neither starts nor ends with any.
pub proof fn law_trimming_takes_white_space_only(s: Seq<char>)
    ensures
        exists|from: int, to: int|
            0 <= from <= to <= s.len() && trimmed(s) == #[trigger] s.subrange(from, to) && (forall|
                i: int,
            |
                0 <= i < from || to <= i < s.len() ==> is_space(#[trigger] s[i])),
        trimmed(s).len() > 0 ==> !is_space(trimmed(s)[0]) && !is_space(trimmed(s).last()),
{
    let a = trimmed_start(s);
    let r = trimmed(s);
    lemma_trimmed_start(s);
    lemma_trimmed_end(a);
    let from = s.len() - a.len();
    let to = from + r.len();
    assert(s.subrange(from, to) =~= r);
    assert forall|i: int| 0 <= i < from || to <= i < s.len() implies is_space(#[trigger] s[i]) by {
        if i >= to {
            assert(a[i - from] == s[i]);
        }
    }
}

/// A text is blank exactly where every character of it is white space.
pub proof fn law_blank_texts_hold_white_space_only(s: Seq<char>)
    ensures
        is_blank(s) <==> forall|i: int| 0 <= i < s.len() ==> is_space(#[trigger] s[i]),
{
    law_trimming_takes_white_space_only(s);
    let (from, to) = choose|from: int, to: int|
        0 <= from <= to <= s.len() && trimmed(s) == #[trigger] s.subrange(from, to) && (forall|
            i: int,
        |
            0 <= i < from || to <= i < s.len() ==> is_space(#[trigger] s[i]));
    if trimmed(s).len() > 0 {
        assert(s[from] == trimmed(s)[0]);
    }
}

/// Letters, digits and signs are no white space; blanks, tabs and ends of lines are.
pub proof fn law_white_space_is_white(c: char)
    ensures
        is_space(' ') && is_space('\t') && is_space('\n') && is_space('\r'),
        '!' <= c <= '~' ==> !is_space(c),
{
}

/// A number that was written is read back as it is, whatever number it is.
pub proof fn law_written_numbers_read_back(n: u64)
    ensures
        parsed_u64(decimal(n as nat)) == Some(n),
{
    let s = decimal(n as nat);
    lemma_decimal_value(n as nat);
    assert(is_digit(s[0]));
    assert(unsigned_digits(s) == s);
}

/// Only digits are read as a number, in base ten.
pub proof fn law_numbers_are_read_in_base_ten(s: Seq<char>, c: char)
    ensures
        parsed_u64(s) matches Some(n) ==> s.len() > 0 && n == decimal_value(unsigned_digits(s)),
        decimal_value(Seq::empty()) == 0,
        '0' <= c <= '9' ==> decimal_value(s.push(c)) == 10 * decimal_value(s) + (c as int - 48),
        decimal(0) == seq!['0'],
{
    assert(s.push(c).drop_last() =~= s);
    assert('0' as nat == 48);
}

/// A number below zero has a sign before it and no other has.
pub proof fn law_signs_are_written(n: nat)
    ensures
        n > 0 ==> signed_decimal(-(n as int)) == seq!['-'] + decimal(n),
        signed_decimal(n as int) == decimal(n),
{
}

/// Only capitals change when a text is put in lower case; it keeps its length, and to do it
/// again changes nothing.
pub proof fn law_lower_case_changes_capitals_only(s: Seq<char>, c: char)
    ensures
        lowered(s).len() == s.len(),
        !('A' <= c <= 'Z') ==> lower(c) == c,
        'A' <= c <= 'Z' ==> 'a' <= lower(c) <= 'z' && lower(c) as int == c as int + 32,
        lowered(lowered(s)) == lowered(s),
{
    assert forall|d: char| lower(lower(d)) == #[trigger] lower(d) by {
        if 'A' <= d <= 'Z' {
            assert(lower(d) as u32 == d as u32 + 32);
        }
    }
    assert(lowered(lowered(s)) =~= lowered(s));
}

/// A text that is cut up at a sign holds the pieces with the sign between them, and no
/// piece holds the sign.
pub proof fn law_pieces_join_again(s: Seq<char>, sep: char)
    ensures
        joined(pieces(s, sep), seq![sep]) == s,
        pieces(s, sep).len() > 0,
        forall|i: int|
            0 <= i < pieces(s, sep).len() ==> !(#[trigger] pieces(s, sep)[i]).contains(sep),
    decreases s.len(),
{
    if s.len() > 0 {
        let front = s.drop_last();
        let before = pieces(front, sep);
        let after = pieces(s, sep);
        law_pieces_join_again(front, sep);
        if s.last() == sep {
            law_joined_texts_grow(before, Seq::empty(), seq![sep]);
            assert(joined(after, seq![sep]) =~= s);
        } else {
            let last = before.last().push(s.last());
            let rest = before.drop_last();
            assert(before =~= rest.push(before.last()));
            assert(after =~= rest.push(last));
            if rest.len() > 0 {
                law_joined_texts_grow(rest, before.last(), seq![sep]);
                law_joined_texts_grow(rest, last, seq![sep]);
            } else {
                assert(joined(before, seq![sep]) == before[0]);
                assert(joined(after, seq![sep]) == after[0]);
            }
            assert(joined(after, seq![sep]) =~= joined(before, seq![sep]).push(s.last()));
            assert(front.push(s.last()) =~= s);
            assert forall|i: int| 0 <= i < after.len() implies !(#[trigger] after[i]).contains(
                sep,
            ) by {
                if i < rest.len() {
                    assert(after[i] == before[i]);
                } else {
                    assert(before[i] == before.last());
                    assert(!before[i].contains(sep));
                    if last.contains(sep) {
                        let k = choose|k: int| 0 <= k < last.len() && last[k] == sep;
                        if k < before.last().len() {
                            assert(before.last()[k] == sep);
                        }
                    }
                }
            }
        }
    }
}

/// Joined texts stand one after the other with the separator between them.
pub proof fn law_joined_texts_grow(parts: Seq<Seq<char>>, part: Seq<char>, sep: Seq<char>)
    ensures
        joined(Seq::empty(), sep) == Seq::<char>::empty(),
        joined(seq![part], sep) == part,
        parts.len() > 0 ==> joined(parts.push(part), sep) == joined(parts, sep) + sep + part,
{
    assert(parts.push(part).drop_last() =~= parts);
}

/// A text that is not longer than it may be is kept whole; a longer one is cut to its
/// start, and one sign is put behind it.
pub proof fn law_long_texts_are_cut(s: Seq<char>, max: nat)
    ensures
        s.len() <= max ==> truncated(s, max) == s,
        s.len() > max ==> truncated(s, max).len() == max + 1 && truncated(s, max).drop_last()
            == s.take(max as int) && truncated(s, max).last() == '\u{2026}',
{
    if s.len() > max {
        assert(truncated(s, max).drop_last() =~= s.take(max as int));
    }
}

/// Four hexadecimal digits stand for their number.
pub proof fn law_four_digits_stand_for_their_number(n: nat)
    requires
        n < 65536,
    ensures
        hex4(n).len() == 4,
        hexadecimal_value(hex4(n)) == n,
{
    let s = hex4(n);
    reveal_with_fuel(hexadecimal_value, 5);
    assert forall|d: nat| d < 16 implies hex_value(#[trigger] hex_char(d)) == d by {}
    let a = s.drop_last();
    let b = a.drop_last();
    let c = b.drop_last();
    assert(c.drop_last().len() == 0);
    assert(s.last() == hex_char(n % 16));
    assert(a.last() == hex_char(n / 16 % 16));
    assert(b.last() == hex_char(n / 256 % 16));
    assert(c.last() == hex_char(n / 4096 % 16));
    assert(hexadecimal_value(c) == n / 4096 % 16);
    assert(hexadecimal_value(b) == (n / 4096 % 16) * 16 + n / 256 % 16);
}

/// A hexadecimal digit counts as its value, in capitals or not.
pub proof fn law_hexadecimal_digits_count(c: char)
    ensures
        '0' <= c <= '9' ==> hex_value(c) == c as int - 48,
        'a' <= c <= 'f' ==> hex_value(c) == c as int - 87,
        'A' <= c <= 'F' ==> hex_value(c) == c as int - 55,
        is_hex_digit(c) <==> '0' <= c <= '9' || 'a' <= c <= 'f' || 'A' <= c <= 'F',
{
}

/// A text is read as a number exactly where it is made of digits, with or without a plus
/// sign before them, and the number fits.
pub proof fn law_only_digits_are_read(s: Seq<char>)
    ensures
        s.len() > 0 && s[0] != '+' ==> (parsed_u64(s) is Some <==> (forall|i: int|
            0 <= i < s.len() ==> '0' <= (#[trigger] s[i]) <= '9') && decimal_value(s) <= u64::MAX),
        s.len() > 1 && s[0] == '+' ==> (parsed_u64(s) is Some ==> (forall|i: int|
            1 <= i < s.len() ==> '0' <= (#[trigger] s[i]) <= '9')),
        parsed_u64(Seq::empty()) is None,
{
    if s.len() > 1 && s[0] == '+' && parsed_u64(s) is Some {
        let digits = s.drop_first();
        assert forall|i: int| 1 <= i < s.len() implies '0' <= (#[trigger] s[i]) <= '9' by {
            assert(digits[i - 1] == s[i]);
        }
    }
}

/// A line ends with a line feed, with or without a carriage return before it.
pub proof fn law_lines_end_either_way(line: Seq<char>)
    requires
        is_line(line),
    ensures
        lines(line + seq!['\n']) == seq![line],
        lines(line + seq!['\r', '\n']) == seq![line],
        line.len() > 0 ==> lines(line) == seq![line],
{
    let a = line + seq!['\n'];
    let b = line + seq!['\r', '\n'];
    assert forall|k: int| 0 <= k < line.len() implies line[k] != '\n' by {
        assert(line.contains(line[k]));
    }
    lemma_first_newline(a, line.len() as int);
    lemma_first_newline(b, line.len() as int + 1);
    assert(a.take(line.len() as int) =~= line);
    assert(a.skip(line.len() as int + 1) =~= Seq::empty());
    assert(b.take(line.len() as int + 1) =~= line.push('\r'));
    assert(line.push('\r').drop_last() =~= line);
    assert(b.skip(line.len() as int + 2) =~= Seq::empty());
    assert(lines(Seq::<char>::empty()).len() == 0);
    assert(lines(a) == seq![without_cr(line)] + lines(Seq::empty()));
    assert(lines(b) == seq![without_cr(line.push('\r'))] + lines(Seq::empty()));
    assert(lines(a) =~= seq![line]);
    assert(lines(b) =~= seq![line]);
    if line.len() > 0 {
        lemma_no_newline(line);
    }
}

proof fn lemma_no_newline(s: Seq<char>)
    requires
        !s.contains('\n'),
    ensures
        first_newline(s) == s.len(),
    decreases s.len(),
{
    if s.len() > 0 {
        assert(s.contains(s[0]));
        assert forall|i: int| 0 <= i < s.drop_first().len() implies s.drop_first()[i] != '\n' by {
            assert(s.contains(s[i + 1]));
        }
        lemma_no_newline(s.drop_first());
    }
}

/// Texts stand in the order of their first characters that differ.
pub proof fn law_texts_stand_in_order(a: Seq<char>, b: Seq<char>)
    ensures
        rank_of(a, b) is Before <==> less(a, b),
        rank_of(a, b) is Same <==> a == b,
        rank_of(a, b) is After <==> less(b, a),
        a.len() > 0 && b.len() > 0 && a[0] < b[0] ==> less(a, b),
        a.len() == 0 && b.len() > 0 ==> less(a, b),
{
    lemma_less_total(a, b);
}

/// A sign at the start is left out, once, and nothing else is.
pub proof fn law_one_sign_is_left_out(s: Seq<char>, c: char)
    ensures
        without_prefix_char(seq![c] + s, c) == s,
        s.len() == 0 || s[0] != c ==> without_prefix_char(s, c) == s,
{
    assert((seq![c] + s).drop_first() =~= s);
}

/// What cannot be read as a number is told of: nothing at all, a number that is too large,
/// or a sign that is no digit.
pub proof fn law_unreadable_numbers_are_told_of(s: Seq<char>)
    ensures
        number_problem(Seq::empty()) == "cannot parse integer from empty string"@,
        s.len() > 0 && overflows(unsigned_digits(s)) ==> number_problem(s)
            == "number too large to fit in target type"@,
        s.len() > 0 && !overflows(unsigned_digits(s)) ==> number_problem(s)
            == "invalid digit found in string"@,
{
}

/// A text is read as a hexadecimal number exactly where it is made of hexadecimal digits and
/// the number fits; each digit counts sixteen times the next.
pub proof fn law_hexadecimal_numbers_are_read(s: Seq<char>, c: char)
    ensures
        s.len() > 0 && s[0] != '+' ==> (parsed_hex_u32(s) is Some <==> (forall|i: int|
            0 <= i < s.len() ==> '0' <= (#[trigger] s[i]) <= '9' || 'a' <= s[i] <= 'f' || 'A' <= s[i]
                <= 'F') && hexadecimal_value(s) <= u32::MAX),
        s.len() > 0 && s[0] != '+' && parsed_hex_u32(s) is Some ==> parsed_hex_u32(s)->0
            == hexadecimal_value(s),
        parsed_hex_u32(Seq::empty()) is None,
        hexadecimal_value(s.push(c)) == hexadecimal_value(s) * 16 + hex_value(c),
{
    assert(s.push(c).drop_last() =~= s);
}

} // verus!
