//! Character-sequence helpers shared by the path and manifest rules.
//!
//! Every rule of the library is stated over `Seq<char>`, the view of a
//! string. The executable helpers work on slices of characters so that each
//! step is a constant-time index.

use vstd::prelude::*;

verus! {

/// Appends one character to a string; mirrors `String::push`, which adds
/// exactly the given character at the end.
pub assume_specification[ String::push ](s: &mut String, c: char)
    ensures
        final(s)@ == old(s)@.push(c),
;

/// Decodes bytes with `String::from_utf8`, which gives the text exactly
/// where the bytes are valid UTF-8.
#[verifier::external_body]
pub(crate) fn text_of(bytes: Vec<u8>) -> (r: Option<String>)
    ensures
        match r {
            Some(text) => vstd::utf8::valid_utf8(bytes@) && text@ == vstd::utf8::decode_utf8(
                bytes@,
            ),
            None => !vstd::utf8::valid_utf8(bytes@),
        },
{
    String::from_utf8(bytes).ok()
}

/// `needle` occurs in `hay` starting at index `i`.
pub open spec fn occurs_at(hay: Seq<char>, needle: Seq<char>, i: int) -> bool {
    &&& 0 <= i
    &&& i + needle.len() <= hay.len()
    &&& hay.subrange(i, i + needle.len()) =~= needle
}

/// `needle` occurs somewhere in `hay`.
pub open spec fn contains_seq(hay: Seq<char>, needle: Seq<char>) -> bool {
    exists|i: int| occurs_at(hay, needle, i)
}

/// The pieces of `s` between occurrences of `sep`; never empty.
pub open spec fn split(s: Seq<char>, sep: char) -> Seq<Seq<char>>
    decreases s.len(),
{
    if s.len() == 0 {
        seq![Seq::<char>::empty()]
    } else {
        let head = split(s.drop_last(), sep);
        if s.last() == sep {
            head.push(Seq::<char>::empty())
        } else {
            head.drop_last().push(head.last().push(s.last()))
        }
    }
}

/// `line` without one trailing carriage return, if it has one.
pub open spec fn strip_cr(line: Seq<char>) -> Seq<char> {
    if line.len() > 0 && line.last() == '\r' {
        line.drop_last()
    } else {
        line
    }
}

/// The lines of `s`: pieces ended by a line feed lose the line feed and a
/// carriage return before it; text after the last line feed is a line of
/// its own unless it is empty.
pub open spec fn lines(s: Seq<char>) -> Seq<Seq<char>> {
    let parts = split(s, '\n');
    let ended = parts.drop_last().map_values(|l: Seq<char>| strip_cr(l));
    if parts.last().len() == 0 {
        ended
    } else {
        ended.push(parts.last())
    }
}

/// The pieces of `parts` with `sep` between neighbours.
pub open spec fn join(parts: Seq<Seq<char>>, sep: Seq<char>) -> Seq<char>
    decreases parts.len(),
{
    if parts.len() == 0 {
        Seq::<char>::empty()
    } else if parts.len() == 1 {
        parts[0]
    } else {
        join(parts.drop_last(), sep) + sep + parts.last()
    }
}

/// The text holds no backslash, so that every platform reads it alike:
/// only some take the backslash for a separator of path components.
pub open spec fn is_portable(text: Seq<char>) -> bool {
    !text.contains('\\')
}

/// The characters of a text that may be there.
pub open spec fn text_view(text: Option<&str>) -> Option<Seq<char>> {
    match text {
        Some(s) => Some(s@),
        None => None,
    }
}

/// The views of a sequence of strings.
pub open spec fn views(v: Seq<String>) -> Seq<Seq<char>> {
    Seq::new(v.len(), |i: int| v[i]@)
}

/// The views of a sequence of character vectors.
pub open spec fn char_views(v: Seq<Vec<char>>) -> Seq<Seq<char>> {
    Seq::new(v.len(), |i: int| v[i]@)
}

/// Splitting always leaves at least one piece.
pub proof fn lemma_split_nonempty(s: Seq<char>, sep: char)
    ensures
        split(s, sep).len() >= 1,
    decreases s.len(),
{
    if s.len() > 0 {
        lemma_split_nonempty(s.drop_last(), sep);
    }
}

/// The characters of `s`, in order.
pub fn chars_of(s: &str) -> (v: Vec<char>)
    ensures
        v@ == s@,
{
    let mut v: Vec<char> = Vec::new();
    for c in it: s.chars()
        invariant
            v@ == it.seq().take(it.index() as int),
            it.seq() == s@,
    {
        v.push(c);
    }
    v
}

/// The string made of the characters of `v`, in order.
pub fn string_of(v: &[char]) -> (s: String)
    ensures
        s@ == v@,
{
    let mut s = String::new();
    let mut i: usize = 0;
    while i < v.len()
        invariant
            i <= v.len(),
            s@ == v@.take(i as int),
        decreases v.len() - i,
    {
        s.push(v[i]);
        i += 1;
    }
    s
}

/// One string per character vector, in order.
pub fn strings_of(parts: &Vec<Vec<char>>) -> (out: Vec<String>)
    ensures
        views(out@) == char_views(parts@),
{
    let mut out: Vec<String> = Vec::new();
    let mut i: usize = 0;
    while i < parts.len()
        invariant
            i <= parts.len(),
            out.len() == i,
            forall|j: int| 0 <= j < i ==> out[j]@ == parts[j]@,
        decreases parts.len() - i,
    {
        out.push(string_of(parts[i].as_slice()));
        i += 1;
    }
    assert(views(out@) =~= char_views(parts@));
    out
}

/// Whether `needle` occurs in `hay` at index `i`.
pub fn matches_at(hay: &[char], needle: &[char], i: usize) -> (r: bool)
    ensures
        r == occurs_at(hay@, needle@, i as int),
{
    if needle.len() > hay.len() || i > hay.len() - needle.len() {
        return false;
    }
    let mut k: usize = 0;
    while k < needle.len()
        invariant
            k <= needle.len(),
            i + needle.len() <= hay.len(),
            forall|j: int| 0 <= j < k ==> hay[i + j] == needle[j],
        decreases needle.len() - k,
    {
        if hay[i + k] != needle[k] {
            assert(hay@.subrange(i as int, i + needle.len())[k as int] != needle@[k as int]);
            return false;
        }
        k += 1;
    }
    true
}

/// Whether `hay` begins with `prefix`.
pub fn starts_with(hay: &[char], prefix: &[char]) -> (r: bool)
    ensures
        r == prefix@.is_prefix_of(hay@),
{
    matches_at(hay, prefix, 0)
}

/// Whether `hay` ends with `suffix`.
pub fn ends_with(hay: &[char], suffix: &[char]) -> (r: bool)
    ensures
        r == suffix@.is_suffix_of(hay@),
{
    if suffix.len() > hay.len() {
        return false;
    }
    matches_at(hay, suffix, hay.len() - suffix.len())
}

/// Whether `needle` occurs anywhere in `hay`.
pub fn contains(hay: &[char], needle: &[char]) -> (r: bool)
    ensures
        r == contains_seq(hay@, needle@),
{
    if needle.len() > hay.len() {
        return false;
    }
    let last: usize = hay.len() - needle.len();
    let mut i: usize = 0;
    while i <= last
        invariant
            i <= last + 1,
            last == hay.len() - needle.len(),
            needle.len() <= hay.len(),
            forall|j: int| 0 <= j < i ==> !occurs_at(hay@, needle@, j),
        decreases last + 1 - i,
    {
        if matches_at(hay, needle, i) {
            return true;
        }
        i += 1;
    }
    false
}

/// The pieces of `s` between occurrences of `sep`.
pub fn split_chars(s: &[char], sep: char) -> (parts: Vec<Vec<char>>)
    ensures
        char_views(parts@) == split(s@, sep),
{
    let mut done: Vec<Vec<char>> = Vec::new();
    let mut cur: Vec<char> = Vec::new();
    let mut i: usize = 0;
    assert(s@.take(0) =~= Seq::<char>::empty());
    assert(char_views(done@).push(cur@) =~= seq![Seq::<char>::empty()]);
    while i < s.len()
        invariant
            i <= s.len(),
            char_views(done@).push(cur@) == split(s@.take(i as int), sep),
        decreases s.len() - i,
    {
        let c = s[i];
        proof {
            let next = s@.take(i + 1);
            assert(next.drop_last() =~= s@.take(i as int));
            assert(next.last() == c);
        }
        let ghost before = char_views(done@);
        let ghost cur_before = cur@;
        if c == sep {
            done.push(cur);
            cur = Vec::new();
            assert(char_views(done@) =~= before.push(cur_before));
        } else {
            cur.push(c);
            assert(before.push(cur_before).drop_last() =~= before);
        }
        i += 1;
    }
    assert(s@.take(s.len() as int) =~= s@);
    let ghost before = char_views(done@);
    let ghost last = cur@;
    done.push(cur);
    assert(char_views(done@) =~= before.push(last));
    done
}

/// Appends the characters of `tail` to `out`.
pub fn push_all(out: &mut Vec<char>, tail: &[char])
    ensures
        final(out)@ == old(out)@ + tail@,
{
    let mut i: usize = 0;
    while i < tail.len()
        invariant
            i <= tail.len(),
            out@ == old(out)@ + tail@.take(i as int),
        decreases tail.len() - i,
    {
        out.push(tail[i]);
        i += 1;
        assert(old(out)@ + tail@.take(i as int) =~= (old(out)@ + tail@.take(i - 1)).push(
            tail@[i - 1],
        ));
    }
    assert(tail@.take(tail.len() as int) =~= tail@);
}

/// Appends the characters of the string `tail` to `out`.
pub fn push_str(out: &mut Vec<char>, tail: &str)
    ensures
        final(out)@ == old(out)@ + tail@,
{
    let t = chars_of(tail);
    push_all(out, t.as_slice());
}

/// The characters of `s` from `from` up to `to`.
pub fn copy_range(s: &[char], from: usize, to: usize) -> (out: Vec<char>)
    requires
        from <= to <= s.len(),
    ensures
        out@ == s@.subrange(from as int, to as int),
{
    let mut out: Vec<char> = Vec::new();
    let mut i: usize = from;
    while i < to
        invariant
            from <= i <= to,
            to <= s.len(),
            out@ == s@.subrange(from as int, i as int),
        decreases to - i,
    {
        out.push(s[i]);
        i += 1;
        assert(s@.subrange(from as int, i as int) =~= s@.subrange(from as int, i - 1).push(
            s@[i - 1],
        ));
    }
    out
}

/// Whether `hay` begins with the string `prefix`.
pub fn has_prefix(hay: &[char], prefix: &str) -> (r: bool)
    ensures
        r == prefix@.is_prefix_of(hay@),
{
    let p = chars_of(prefix);
    starts_with(hay, p.as_slice())
}

/// Whether `hay` ends with the string `suffix`.
pub fn has_suffix(hay: &[char], suffix: &str) -> (r: bool)
    ensures
        r == suffix@.is_suffix_of(hay@),
{
    let p = chars_of(suffix);
    ends_with(hay, p.as_slice())
}

/// Whether the string `needle` occurs anywhere in `hay`.
pub fn has_infix(hay: &[char], needle: &str) -> (r: bool)
    ensures
        r == contains_seq(hay@, needle@),
{
    let p = chars_of(needle);
    contains(hay, p.as_slice())
}

/// Whether `a` and `b` hold the same characters.
pub fn same_chars(a: &[char], b: &[char]) -> (r: bool)
    ensures
        r == (a@ == b@),
{
    if a.len() != b.len() {
        return false;
    }
    let r = matches_at(a, b, 0);
    assert(a@.subrange(0, a@.len() as int) =~= a@);
    r
}

/// Whether `a` holds exactly the characters of the string `b`.
pub fn is_str(a: &[char], b: &str) -> (r: bool)
    ensures
        r == (a@ == b@),
{
    let p = chars_of(b);
    same_chars(a, p.as_slice())
}

/// The lines of `s`, as `str::lines` yields them.
pub fn lines_chars(s: &[char]) -> (out: Vec<Vec<char>>)
    ensures
        char_views(out@) == lines(s@),
{
    let parts = split_chars(s, '\n');
    proof {
        lemma_split_nonempty(s@, '\n');
    }
    let n: usize = parts.len() - 1;
    let ghost ended = split(s@, '\n').drop_last().map_values(|l: Seq<char>| strip_cr(l));
    let mut out: Vec<Vec<char>> = Vec::new();
    let mut i: usize = 0;
    while i < n
        invariant
            i <= n,
            n + 1 == parts.len(),
            char_views(parts@) == split(s@, '\n'),
            ended == split(s@, '\n').drop_last().map_values(|l: Seq<char>| strip_cr(l)),
            char_views(out@) == ended.take(i as int),
        decreases n - i,
    {
        let part = &parts[i];
        assert(part@ == char_views(parts@)[i as int]);
        let len: usize = part.len();
        let end: usize = if len > 0 && part[len - 1] == '\r' {
            (len - 1) as usize
        } else {
            len
        };
        let line = copy_range(part.as_slice(), 0, end);
        assert(line@ =~= strip_cr(part@));
        let ghost before = char_views(out@);
        out.push(line);
        assert(char_views(out@) =~= before.push(line@));
        i += 1;
        assert(ended.take(i as int) =~= ended.take(i - 1).push(ended[i - 1]));
    }
    assert(ended.take(n as int) =~= ended);
    let tail = &parts[n];
    assert(tail@ == char_views(parts@)[n as int]);
    if tail.len() > 0 {
        let line = copy_range(tail.as_slice(), 0, tail.len());
        assert(line@ =~= tail@);
        let ghost before = char_views(out@);
        out.push(line);
        assert(char_views(out@) =~= before.push(line@));
    }
    out
}

/// The pieces of `parts` with `sep` between neighbours.
pub fn join_chars(parts: &Vec<Vec<char>>, sep: &[char]) -> (out: Vec<char>)
    ensures
        out@ == join(char_views(parts@), sep@),
{
    let mut out: Vec<char> = Vec::new();
    let mut i: usize = 0;
    while i < parts.len()
        invariant
            i <= parts.len(),
            out@ == join(char_views(parts@).take(i as int), sep@),
        decreases parts.len() - i,
    {
        let ghost prev = char_views(parts@).take(i as int);
        let ghost next = char_views(parts@).take(i + 1);
        assert(next.drop_last() =~= prev);
        assert(next.last() == parts[i as int]@);
        if i > 0 {
            push_all(&mut out, sep);
        }
        push_all(&mut out, parts[i].as_slice());
        assert(out@ =~= join(next, sep@)) by {
            if i == 0 {
                assert(join(prev, sep@) =~= Seq::<char>::empty());
            }
        }
        i += 1;
    }
    assert(char_views(parts@).take(parts.len() as int) =~= char_views(parts@));
    out
}

/// One more element extends a filtered prefix by that element, if it
/// passes, and leaves it as it is otherwise.
pub proof fn lemma_filter_step<A>(s: Seq<A>, i: int, pred: spec_fn(A) -> bool)
    requires
        0 <= i < s.len(),
    ensures
        s.take(i + 1).filter(pred) == if pred(s[i]) {
            s.take(i).filter(pred).push(s[i])
        } else {
            s.take(i).filter(pred)
        },
{
    reveal(Seq::filter);
    assert(s.take(i + 1).drop_last() =~= s.take(i));
    assert(s.take(i + 1).last() == s[i]);
}

/// Filtering nothing leaves nothing.
pub proof fn lemma_filter_none<A>(s: Seq<A>, pred: spec_fn(A) -> bool)
    ensures
        s.take(0).filter(pred) == Seq::<A>::empty(),
{
    reveal(Seq::filter);
    assert(s.take(0) =~= Seq::<A>::empty());
}

/// Whether some string of `list` holds exactly the characters of `item`.
pub fn contains_string(list: &Vec<String>, item: &str) -> (r: bool)
    ensures
        r == views(list@).contains(item@),
{
    let wanted = chars_of(item);
    let mut i: usize = 0;
    while i < list.len()
        invariant
            i <= list.len(),
            wanted@ == item@,
            forall|j: int| 0 <= j < i ==> views(list@)[j] != item@,
        decreases list.len() - i,
    {
        let have = chars_of(list[i].as_str());
        if same_chars(have.as_slice(), wanted.as_slice()) {
            assert(views(list@)[i as int] == item@);
            return true;
        }
        i += 1;
    }
    false
}

/// The character is white space, as `char::is_whitespace` has it.
pub open spec fn is_space(c: char) -> bool {
    let n = c as u32;
    ||| 0x09 <= n <= 0x0D
    ||| n == 0x20
    ||| n == 0x85
    ||| n == 0xA0
    ||| n == 0x1680
    ||| 0x2000 <= n <= 0x200A
    ||| n == 0x2028
    ||| n == 0x2029
    ||| n == 0x202F
    ||| n == 0x205F
    ||| n == 0x3000
}

/// `s` without the white space at its start.
pub open spec fn trim_start(s: Seq<char>) -> Seq<char>
    decreases s.len(),
{
    if s.len() > 0 && is_space(s[0]) {
        trim_start(s.drop_first())
    } else {
        s
    }
}

/// `s` without the white space at its end.
pub open spec fn trim_end(s: Seq<char>) -> Seq<char>
    decreases s.len(),
{
    if s.len() > 0 && is_space(s.last()) {
        trim_end(s.drop_last())
    } else {
        s
    }
}

/// `s` without the white space at either end.
pub open spec fn trimmed(s: Seq<char>) -> Seq<char> {
    trim_end(trim_start(s))
}

/// Whether the character is white space.
pub fn is_whitespace(c: char) -> (r: bool)
    ensures
        r == is_space(c),
{
    let n: u32 = c as u32;
    (0x09 <= n && n <= 0x0D) || n == 0x20 || n == 0x85 || n == 0xA0 || n == 0x1680 || (0x2000 <= n
        && n <= 0x200A) || n == 0x2028 || n == 0x2029 || n == 0x202F || n == 0x205F || n == 0x3000
}

/// `s` without the white space at either end.
pub fn trim_chars(s: &[char]) -> (out: Vec<char>)
    ensures
        out@ == trimmed(s@),
{
    let len: usize = s.len();
    let mut i: usize = 0;
    assert(s@.subrange(0, len as int) =~= s@);
    while i < len && is_whitespace(s[i])
        invariant
            i <= len,
            len == s.len(),
            trim_start(s@) == trim_start(s@.subrange(i as int, len as int)),
        decreases len - i,
    {
        assert(s@.subrange(i as int, len as int).drop_first() =~= s@.subrange(
            i + 1,
            len as int,
        ));
        i += 1;
    }
    assert(trim_start(s@) == s@.subrange(i as int, len as int));
    let mut j: usize = len;
    while j > i && is_whitespace(s[j - 1])
        invariant
            i <= j <= len,
            len == s.len(),
            trimmed(s@) == trim_end(s@.subrange(i as int, j as int)),
        decreases j,
    {
        assert(s@.subrange(i as int, j as int).drop_last() =~= s@.subrange(i as int, j - 1));
        j -= 1;
    }
    copy_range(s, i, j)
}

/// The pieces of `s` between white-space characters; never empty.
pub open spec fn split_spaces(s: Seq<char>) -> Seq<Seq<char>>
    decreases s.len(),
{
    if s.len() == 0 {
        seq![Seq::<char>::empty()]
    } else {
        let head = split_spaces(s.drop_last());
        if is_space(s.last()) {
            head.push(Seq::<char>::empty())
        } else {
            head.drop_last().push(head.last().push(s.last()))
        }
    }
}

/// The test for a piece that holds something.
pub open spec fn filled() -> spec_fn(Seq<char>) -> bool {
    |piece: Seq<char>| piece.len() > 0
}

/// The words of `s`: what stands between runs of white space.
pub open spec fn words(s: Seq<char>) -> Seq<Seq<char>> {
    split_spaces(s).filter(filled())
}

/// The words of `s`, as `str::split_whitespace` yields them.
pub fn words_of(s: &[char]) -> (out: Vec<Vec<char>>)
    ensures
        char_views(out@) == words(s@),
{
    let mut done: Vec<Vec<char>> = Vec::new();
    let mut cur: Vec<char> = Vec::new();
    let mut i: usize = 0;
    proof {
        reveal(Seq::filter);
        assert(s@.take(0) =~= Seq::<char>::empty());
        assert(seq![Seq::<char>::empty()].drop_last() =~= Seq::<Seq<char>>::empty());
        assert(char_views(done@) =~= Seq::<Seq<char>>::empty());
    }
    while i < s.len()
        invariant
            i <= s.len(),
            split_spaces(s@.take(i as int)).len() > 0,
            char_views(done@) == split_spaces(s@.take(i as int)).drop_last().filter(filled()),
            cur@ == split_spaces(s@.take(i as int)).last(),
        decreases s.len() - i,
    {
        let c = s[i];
        let ghost prev = split_spaces(s@.take(i as int));
        proof {
            let next = s@.take(i + 1);
            assert(next.drop_last() =~= s@.take(i as int));
            assert(next.last() == c);
        }
        if is_whitespace(c) {
            proof {
                reveal(Seq::filter);
                assert(prev.push(Seq::<char>::empty()).drop_last() =~= prev);
                assert(prev.drop_last().push(prev.last()) =~= prev);
            }
            if cur.len() > 0 {
                let ghost before = char_views(done@);
                let ghost word = cur@;
                done.push(cur);
                assert(char_views(done@) =~= before.push(word));
            }
            cur = Vec::new();
        } else {
            cur.push(c);
            assert(prev.drop_last().push(prev.last().push(c)).drop_last() =~= prev.drop_last());
        }
        i += 1;
    }
    assert(s@.take(s.len() as int) =~= s@);
    proof {
        reveal(Seq::filter);
        let all = split_spaces(s@);
        assert(all.drop_last().push(all.last()) =~= all);
    }
    if cur.len() > 0 {
        let ghost before = char_views(done@);
        let ghost word = cur@;
        done.push(cur);
        assert(char_views(done@) =~= before.push(word));
    }
    done
}

/// `s` with every occurrence of `pattern` replaced by `with`, found from
/// left to right and never overlapping. An empty pattern replaces nothing.
pub open spec fn replaced(s: Seq<char>, pattern: Seq<char>, with: Seq<char>) -> Seq<char>
    decreases s.len(),
{
    if pattern.len() == 0 || s.len() < pattern.len() {
        s
    } else if pattern.is_prefix_of(s) {
        with + replaced(s.skip(pattern.len() as int), pattern, with)
    } else {
        seq![s[0]] + replaced(s.drop_first(), pattern, with)
    }
}

/// `s` with every occurrence of `pattern` replaced by `with`.
pub fn replace_all(s: &str, pattern: &str, with: &str) -> (out: String)
    ensures
        out@ == replaced(s@, pattern@, with@),
{
    let text = chars_of(s);
    let pat = chars_of(pattern);
    let rep = chars_of(with);
    if pat.len() == 0 {
        return string_of(text.as_slice());
    }
    let mut out: Vec<char> = Vec::new();
    let mut i: usize = 0;
    assert(text@.skip(0) =~= text@);
    assert(out@ + replaced(text@, pat@, rep@) =~= replaced(text@, pat@, rep@));
    while i < text.len()
        invariant
            i <= text.len(),
            pat.len() > 0,
            out@ + replaced(text@.skip(i as int), pat@, rep@) == replaced(text@, pat@, rep@),
        decreases text.len() - i,
    {
        let ghost rest = text@.skip(i as int);
        let ghost before = out@;
        if matches_at(text.as_slice(), pat.as_slice(), i) {
            assert(rest.subrange(0, pat.len() as int) =~= text@.subrange(
                i as int,
                i + pat.len(),
            ));
            assert(rest.skip(pat.len() as int) =~= text@.skip(i + pat.len()));
            push_all(&mut out, rep.as_slice());
            i += pat.len();
            assert(out@ + replaced(text@.skip(i as int), pat@, rep@) =~= before + (rep@
                + replaced(text@.skip(i as int), pat@, rep@)));
        } else {
            assert(rest.drop_first() =~= text@.skip(i + 1));
            assert(rest[0] == text@[i as int]);
            proof {
                if rest.len() >= pat.len() {
                    assert(rest.subrange(0, pat.len() as int) =~= text@.subrange(
                        i as int,
                        i + pat.len(),
                    ));
                } else {
                    assert(replaced(rest.drop_first(), pat@, rep@) == rest.drop_first());
                    assert(seq![rest[0]] + rest.drop_first() =~= rest);
                }
            }
            out.push(text[i]);
            i += 1;
            assert(out@ + replaced(text@.skip(i as int), pat@, rep@) =~= before + (seq![
                rest[0],
            ] + replaced(text@.skip(i as int), pat@, rep@)));
        }
    }
    assert(text@.skip(text.len() as int) =~= Seq::<char>::empty());
    assert(out@ + Seq::<char>::empty() =~= out@);
    string_of(out.as_slice())
}

/// The text with a line feed for every carriage return and line feed.
pub fn normalize_line_endings(content: &str) -> (out: String)
    ensures
        out@ == replaced(content@, "\r\n"@, "\n"@),
{
    replace_all(content, "\r\n", "\n")
}

/// A filtered sequence holds what the sequence holds and passes the test.
pub proof fn lemma_filter_holds<A>(s: Seq<A>, test: spec_fn(A) -> bool)
    ensures
        forall|x: A| #[trigger] s.filter(test).contains(x) <==> s.contains(x) && test(x),
    decreases s.len(),
{
    reveal(Seq::filter);
    let kept = s.filter(test);
    if s.len() > 0 {
        let rest = s.drop_last();
        let last = s.last();
        lemma_filter_holds(rest, test);
        let before = rest.filter(test);
        assert(kept == if test(last) {
            before.push(last)
        } else {
            before
        });
        assert forall|x: A| #[trigger] kept.contains(x) <==> s.contains(x) && test(x) by {
            if kept.contains(x) {
                let k = choose|k: int| 0 <= k < kept.len() && kept[k] == x;
                if test(last) && k == kept.len() - 1 {
                    assert(s[s.len() - 1] == x);
                } else {
                    assert(before[k] == x);
                    assert(before.contains(x));
                    let j = choose|j: int| 0 <= j < rest.len() && rest[j] == x;
                    assert(s[j] == x);
                }
            }
            if s.contains(x) && test(x) {
                let j = choose|j: int| 0 <= j < s.len() && s[j] == x;
                if j < rest.len() {
                    assert(rest[j] == x);
                    assert(rest.contains(x));
                    assert(before.contains(x));
                    let k = choose|k: int| 0 <= k < before.len() && before[k] == x;
                    assert(kept[k] == x);
                } else {
                    assert(kept[kept.len() - 1] == x);
                }
            }
        }
    }
}

/// A filtered sequence holds each element that passes the test as often
/// as the sequence holds it, and no other.
pub proof fn lemma_filter_counts<A>(s: Seq<A>, test: spec_fn(A) -> bool)
    ensures
        forall|x: A| #[trigger]
            s.filter(test).to_multiset().count(x) == if test(x) {
                s.to_multiset().count(x)
            } else {
                0
            },
    decreases s.len(),
{
    broadcast use vstd::multiset::group_multiset_axioms;

    reveal(Seq::filter);
    if s.len() == 0 {
        s.to_multiset_ensures();
        assert(s.to_multiset().len() == 0);
        assert forall|x: A| #[trigger] s.filter(test).to_multiset().count(x) == if test(x) {
            s.to_multiset().count(x)
        } else {
            0
        } by {
            if s.to_multiset().count(x) > 0 {
                assert(s.contains(x));
            }
        }
    } else {
        let rest = s.drop_last();
        let last = s.last();
        lemma_filter_counts(rest, test);
        assert(rest.push(last) =~= s);
        vstd::seq_lib::to_multiset_build(rest, last);
        let before = rest.filter(test);
        assert(s.filter(test) == if test(last) {
            before.push(last)
        } else {
            before
        });
        vstd::seq_lib::to_multiset_build(before, last);
        assert forall|x: A| #[trigger] s.filter(test).to_multiset().count(x) == if test(x) {
            s.to_multiset().count(x)
        } else {
            0
        } by {
            assert(before.to_multiset().count(x) == if test(x) {
                rest.to_multiset().count(x)
            } else {
                0
            });
        }
    }
}

} // verus!
