//! Text as sequences of characters: comparison, splitting, joining and numbers in decimal.

use vstd::prelude::*;

verus! {

/// `String::push` puts one character behind the text.
pub assume_specification[ String::push ](s: &mut String, c: char)
    ensures
        final(s)@ == old(s)@.push(c),
;

/// The texts that a sequence of strings holds.
pub open spec fn strs(v: Seq<String>) -> Seq<Seq<char>> {
    Seq::new(v.len(), |i: int| v[i]@)
}

/// White space as Unicode's `White_Space` property lists it.
pub open spec fn is_white(c: char) -> bool {
    ||| 0x9 <= c as u32 <= 0xd
    ||| c as u32 == 0x20
    ||| c as u32 == 0x85
    ||| c as u32 == 0xa0
    ||| c as u32 == 0x1680
    ||| 0x2000 <= c as u32 <= 0x200a
    ||| c as u32 == 0x2028
    ||| c as u32 == 0x2029
    ||| c as u32 == 0x202f
    ||| c as u32 == 0x205f
    ||| c as u32 == 0x3000
}

pub fn white(c: char) -> (r: bool)
    ensures
        r == is_white(c),
{
    let n: u32 = c as u32;
    (0x9 <= n && n <= 0xd) || n == 0x20 || n == 0x85 || n == 0xa0 || n == 0x1680 || (0x2000 <= n
        && n <= 0x200a) || n == 0x2028 || n == 0x2029 || n == 0x202f || n == 0x205f || n == 0x3000
}

/// The characters of a text, one by one.
pub fn to_chars(s: &str) -> (r: Vec<char>)
    ensures
        r@ == s@,
{
    let mut out: Vec<char> = Vec::new();
    for c in it: s.chars()
        invariant
            it.seq() == s@,
            out@ == it.seq().take(it.index() as int),
    {
        out.push(c);
    }
    out
}

/// The text made of the characters from `from` up to `to`.
pub fn from_range(v: &Vec<char>, from: usize, to: usize) -> (r: String)
    requires
        from <= to <= v@.len(),
    ensures
        r@ == v@.subrange(from as int, to as int),
{
    let mut out = String::new();
    let mut i: usize = from;
    while i < to
        invariant
            from <= i <= to <= v@.len(),
            out@ == v@.subrange(from as int, i as int),
        decreases to - i,
    {
        out.push(v[i]);
        i += 1;
    }
    out
}

/// Whether two texts are the same.
pub fn same(a: &str, b: &str) -> (r: bool)
    ensures
        r == (a@ == b@),
{
    let x = to_chars(a);
    let y = to_chars(b);
    if x.len() != y.len() {
        return false;
    }
    let mut i: usize = 0;
    while i < x.len()
        invariant
            i <= x@.len(),
            x@.len() == y@.len(),
            x@ == a@,
            y@ == b@,
            forall|k: int| 0 <= k < i ==> x@[k] == y@[k],
        decreases x@.len() - i,
    {
        if x[i] != y[i] {
            return false;
        }
        i += 1;
    }
    assert(x@ =~= y@);
    true
}

/// Two texts, one behind the other.
pub fn cat2(a: &str, b: &str) -> (r: String)
    ensures
        r@ == a@ + b@,
{
    let mut out = a.to_owned();
    out.append(b);
    out
}

/// Three texts, one behind the other.
pub fn cat3(a: &str, b: &str, c: &str) -> (r: String)
    ensures
        r@ == a@ + b@ + c@,
{
    let mut out = cat2(a, b);
    out.append(c);
    out
}

/// Four texts, one behind the other.
pub fn cat4(a: &str, b: &str, c: &str, d: &str) -> (r: String)
    ensures
        r@ == a@ + b@ + c@ + d@,
{
    let mut out = cat3(a, b, c);
    out.append(d);
    out
}

/// Five texts, one behind the other.
pub fn cat5(a: &str, b: &str, c: &str, d: &str, e: &str) -> (r: String)
    ensures
        r@ == a@ + b@ + c@ + d@ + e@,
{
    let mut out = cat4(a, b, c, d);
    out.append(e);
    out
}

/// The text of one character.
pub fn from_char(c: char) -> (r: String)
    ensures
        r@ == seq![c],
{
    let mut out = String::new();
    out.push(c);
    assert(out@ == seq![c]);
    out
}

/// `p` stands in `s` at position `at`.
pub open spec fn occurs_at(s: Seq<char>, p: Seq<char>, at: int) -> bool {
    &&& 0 <= at
    &&& at + p.len() <= s.len()
    &&& s.subrange(at, at + p.len()) == p
}

/// Whether the characters `p` stand in `v` at position `at`.
pub fn chars_at(v: &Vec<char>, p: &Vec<char>, at: usize) -> (r: bool)
    requires
        at <= v@.len(),
    ensures
        r == occurs_at(v@, p@, at as int),
{
    if v.len() - at < p.len() {
        return false;
    }
    let n: usize = v.len();
    let mut i: usize = 0;
    while i < p.len()
        invariant
            i <= p@.len(),
            n == v@.len(),
            at + p@.len() <= n,
            forall|k: int| 0 <= k < i ==> #[trigger] p@[k] == v@[at + k],
        decreases p@.len() - i,
    {
        if v[at + i] != p[i] {
            assert(v@.subrange(at as int, at + p@.len())[i as int] == v@[at + i]);
            return false;
        }
        i += 1;
    }
    assert(v@.subrange(at as int, at + p@.len()) =~= p@);
    true
}

/// Whether `s` begins with `p`.
pub fn starts_with(s: &str, p: &str) -> (r: bool)
    ensures
        r == p@.is_prefix_of(s@),
{
    let v = to_chars(s);
    let q = to_chars(p);
    let r = chars_at(&v, &q, 0);
    proof {
        if s@.len() >= p@.len() {
            assert(s@.subrange(0, p@.len() as int) == s@.take(p@.len() as int));
        }
        if r {
            assert forall|i: int| 0 <= i < p@.len() implies p@[i] == s@[i] by {
                assert(s@.subrange(0, p@.len() as int)[i] == s@[i]);
            }
        }
    }
    r
}

/// What follows `p` in a text that begins with it.
pub fn strip_prefix(s: &str, p: &str) -> (r: Option<String>)
    ensures
        match r {
            Some(rest) => p@.is_prefix_of(s@) && rest@ == s@.skip(p@.len() as int),
            None => !p@.is_prefix_of(s@),
        },
{
    if !starts_with(s, p) {
        return None;
    }
    let v = to_chars(s);
    let n: usize = to_chars(p).len();
    Some(from_range(&v, n, v.len()))
}

/// The position of the first `c`, or the length of the text where there is none.
pub open spec fn index_of_char(s: Seq<char>, c: char) -> int
    decreases s.len(),
{
    if s.len() == 0 || s[0] == c {
        0
    } else {
        1 + index_of_char(s.drop_first(), c)
    }
}

/// What `index_of_char` means, position by position.
pub proof fn lemma_index_of_char(s: Seq<char>, c: char)
    ensures
        0 <= index_of_char(s, c) <= s.len(),
        forall|i: int| 0 <= i < index_of_char(s, c) ==> s[i] != c,
        index_of_char(s, c) < s.len() ==> s[index_of_char(s, c)] == c,
        s.contains(c) <==> index_of_char(s, c) < s.len(),
    decreases s.len(),
{
    if s.len() != 0 && s[0] != c {
        lemma_index_of_char(s.drop_first(), c);
        assert forall|i: int| 0 <= i < index_of_char(s, c) implies s[i] != c by {
            if i > 0 {
                assert(s.drop_first()[i - 1] == s[i]);
            }
        }
        if s.contains(c) {
            let k = choose|k: int| 0 <= k < s.len() && s[k] == c;
            assert(s.drop_first()[k - 1] == c);
        }
    }
}

/// A position before which there is no `c`, and at which there is one or the end, is the first.
pub proof fn lemma_index_of_char_is(s: Seq<char>, c: char, at: int)
    requires
        0 <= at <= s.len(),
        forall|i: int| 0 <= i < at ==> s[i] != c,
        at < s.len() ==> s[at] == c,
    ensures
        index_of_char(s, c) == at,
{
    lemma_index_of_char(s, c);
    let j = index_of_char(s, c);
    if j < at {
        assert(s[j] != c);
    }
}

/// The first position from `from` on at which `c` stands, or the length.
pub fn find_char(v: &Vec<char>, from: usize, c: char) -> (r: usize)
    requires
        from <= v@.len(),
    ensures
        r == from + index_of_char(v@.skip(from as int), c),
        from <= r <= v@.len(),
{
    let mut i: usize = from;
    while i < v.len() && v[i] != c
        invariant
            from <= i <= v@.len(),
            forall|k: int| from <= k < i ==> v@[k] != c,
        decreases v@.len() - i,
    {
        i += 1;
    }
    proof {
        lemma_index_of_char_is(v@.skip(from as int), c, i - from);
    }
    i
}

/// The text before the first `c` and the text behind it, or `None` where there is no `c`.
pub open spec fn split_once_spec(s: Seq<char>, c: char) -> Option<(Seq<char>, Seq<char>)> {
    let i = index_of_char(s, c);
    if i < s.len() {
        Some((s.take(i), s.skip(i + 1)))
    } else {
        None
    }
}

pub fn split_once(s: &str, c: char) -> (r: Option<(String, String)>)
    ensures
        match r {
            Some((a, b)) => split_once_spec(s@, c) == Some((a@, b@)),
            None => split_once_spec(s@, c) is None,
        },
{
    let v = to_chars(s);
    let i = find_char(&v, 0, c);
    assert(v@.skip(0) == v@);
    if i < v.len() {
        let a = from_range(&v, 0, i);
        let b = from_range(&v, i + 1, v.len());
        assert(a@ == s@.take(i as int));
        assert(b@ == s@.skip(i + 1));
        Some((a, b))
    } else {
        None
    }
}

/// The pieces of a text between the occurrences of `c`.
pub open spec fn split_on(s: Seq<char>, c: char) -> Seq<Seq<char>>
    decreases s.len(),
    via split_on_shrinks
{
    let i = index_of_char(s, c);
    if i < s.len() {
        seq![s.take(i)] + split_on(s.skip(i + 1), c)
    } else {
        seq![s]
    }
}

#[via_fn]
proof fn split_on_shrinks(s: Seq<char>, c: char) {
    lemma_index_of_char(s, c);
}

pub fn split_char(s: &str, c: char) -> (r: Vec<String>)
    ensures
        strs(r@) == split_on(s@, c),
{
    let v = to_chars(s);
    let mut out: Vec<String> = Vec::new();
    let mut from: usize = 0;
    assert(v@.skip(0) == v@);
    loop
        invariant
            from <= v@.len(),
            v@ == s@,
            strs(out@) + split_on(v@.skip(from as int), c) == split_on(s@, c),
        decreases v@.len() - from,
    {
        let i = find_char(&v, from, c);
        let piece = from_range(&v, from, i);
        let ghost before = out@;
        let ghost rest = v@.skip(from as int);
        out.push(piece);
        proof {
            assert(strs(out@) == strs(before).push(piece@));
            assert(piece@ == rest.take(i - from));
        }
        if i == v.len() {
            assert(rest.take(i - from) == rest);
            assert(strs(out@) == strs(before) + seq![rest]);
            return out;
        }
        proof {
            assert(rest.skip(i - from + 1) == v@.skip(i + 1));
            assert(strs(before) + (seq![rest.take(i - from)] + split_on(v@.skip(i + 1), c))
                == strs(out@) + split_on(v@.skip(i + 1), c));
        }
        from = i + 1;
    }
}

/// The text without a carriage return at its end.
pub open spec fn without_cr(s: Seq<char>) -> Seq<char> {
    if s.len() > 0 && s.last() == '\r' {
        s.drop_last()
    } else {
        s
    }
}

/// The lines of a text: the pieces between line feeds, without the carriage return before a line
/// feed, and without an empty piece behind the last one.
pub open spec fn lines_of(s: Seq<char>) -> Seq<Seq<char>> {
    let parts = split_on(s, '\n');
    let ended = Seq::new((parts.len() - 1) as nat, |i: int| without_cr(parts[i]));
    if parts.last().len() == 0 {
        ended
    } else {
        ended.push(parts.last())
    }
}

proof fn lemma_split_on_some(s: Seq<char>, c: char)
    ensures
        split_on(s, c).len() > 0,
{
}

pub fn split_lines(s: &str) -> (r: Vec<String>)
    ensures
        strs(r@) == lines_of(s@),
{
    let parts = split_char(s, '\n');
    let ghost all = split_on(s@, '\n');
    proof {
        lemma_split_on_some(s@, '\n');
        assert(strs(parts@).len() == all.len());
    }
    let mut out: Vec<String> = Vec::new();
    let mut i: usize = 0;
    while i < parts.len() - 1
        invariant
            i <= parts@.len() - 1,
            strs(parts@) == all,
            strs(out@) == Seq::new(i as nat, |k: int| without_cr(all[k])),
        decreases parts@.len() - i,
    {
        let v = to_chars(parts[i].as_str());
        let n: usize = v.len();
        let end: usize = if n > 0 && v[n - 1] == '\r' {
            n - 1
        } else {
            n
        };
        let line = from_range(&v, 0, end);
        proof {
            assert(parts@[i as int]@ == all[i as int]) by {
                assert(strs(parts@)[i as int] == parts@[i as int]@);
            }
            assert(line@ == without_cr(all[i as int]));
        }
        let ghost before = out@;
        out.push(line);
        assert(strs(out@) == strs(before).push(line@));
        i += 1;
    }
    let last = &parts[parts.len() - 1];
    assert(last@ == all.last()) by {
        assert(strs(parts@)[parts@.len() - 1] == last@);
    }
    if !last.as_str().is_empty() {
        out.push(last.clone());
    }
    out
}

/// The text without the white space it begins with.
pub open spec fn trim_start_of(s: Seq<char>) -> Seq<char>
    decreases s.len(),
{
    if s.len() > 0 && is_white(s[0]) {
        trim_start_of(s.drop_first())
    } else {
        s
    }
}

/// The text without the white space it ends with.
pub open spec fn trim_end_of(s: Seq<char>) -> Seq<char>
    decreases s.len(),
{
    if s.len() > 0 && is_white(s.last()) {
        trim_end_of(s.drop_last())
    } else {
        s
    }
}

/// The text without white space at either end.
pub open spec fn trim_of(s: Seq<char>) -> Seq<char> {
    trim_end_of(trim_start_of(s))
}

pub fn trim_end(s: &str) -> (r: String)
    ensures
        r@ == trim_end_of(s@),
{
    let v = to_chars(s);
    let mut n: usize = v.len();
    assert(v@.take(n as int) == v@);
    while n > 0 && white(v[n - 1])
        invariant
            n <= v@.len(),
            v@ == s@,
            trim_end_of(v@.take(n as int)) == trim_end_of(s@),
        decreases n,
    {
        assert(v@.take(n as int).drop_last() == v@.take(n - 1));
        n -= 1;
    }
    let r = from_range(&v, 0, n);
    assert(r@ == v@.take(n as int));
    r
}

pub fn trim_start(s: &str) -> (r: String)
    ensures
        r@ == trim_start_of(s@),
{
    let v = to_chars(s);
    let mut n: usize = 0;
    assert(v@.skip(0) == v@);
    while n < v.len() && white(v[n])
        invariant
            n <= v@.len(),
            v@ == s@,
            trim_start_of(v@.skip(n as int)) == trim_start_of(s@),
        decreases v@.len() - n,
    {
        assert(v@.skip(n as int).drop_first() == v@.skip(n + 1));
        n += 1;
    }
    let r = from_range(&v, n, v.len());
    assert(r@ == v@.skip(n as int));
    r
}

pub fn trim(s: &str) -> (r: String)
    ensures
        r@ == trim_of(s@),
{
    let t = trim_start(s);
    trim_end(t.as_str())
}

/// The number of characters before the first white space.
pub open spec fn word_len(s: Seq<char>) -> int
    decreases s.len(),
{
    if s.len() == 0 || is_white(s[0]) {
        0
    } else {
        1 + word_len(s.drop_first())
    }
}

proof fn lemma_word_len(s: Seq<char>, n: int)
    requires
        0 <= n <= s.len(),
        forall|i: int| 0 <= i < n ==> !is_white(#[trigger] s[i]),
        n < s.len() ==> is_white(s[n]),
    ensures
        word_len(s) == n,
    decreases s.len(),
{
    if n > 0 {
        let t = s.drop_first();
        assert forall|i: int| 0 <= i < n - 1 implies !is_white(#[trigger] t[i]) by {
            assert(t[i] == s[i + 1]);
        }
        lemma_word_len(t, n - 1);
    }
}

proof fn lemma_trim_start_len(s: Seq<char>)
    ensures
        trim_start_of(s).len() <= s.len(),
        trim_start_of(s).len() > 0 ==> !is_white(trim_start_of(s)[0]),
    decreases s.len(),
{
    if s.len() > 0 && is_white(s[0]) {
        lemma_trim_start_len(s.drop_first());
    }
}

/// The words of a text: what stands between white space.
pub open spec fn words_of(s: Seq<char>) -> Seq<Seq<char>>
    decreases s.len(),
    via words_of_shrinks
{
    let t = trim_start_of(s);
    let n = word_len(t);
    if t.len() == 0 {
        Seq::empty()
    } else if 0 < n <= t.len() {
        seq![t.take(n)] + words_of(t.skip(n))
    } else {
        Seq::empty()
    }
}

#[via_fn]
proof fn words_of_shrinks(s: Seq<char>) {
    lemma_trim_start_len(s);
}

pub fn words(s: &str) -> (r: Vec<String>)
    ensures
        strs(r@) == words_of(s@),
{
    let v = to_chars(s);
    let mut out: Vec<String> = Vec::new();
    let mut i: usize = 0;
    assert(v@.skip(0) == v@);
    assert(strs(out@) + words_of(v@) == words_of(v@));
    loop
        invariant
            i <= v@.len(),
            v@ == s@,
            strs(out@) + words_of(v@.skip(i as int)) == words_of(s@),
        decreases v@.len() - i,
    {
        let ghost from = i;
        while i < v.len() && white(v[i])
            invariant
                from <= i <= v@.len(),
                trim_start_of(v@.skip(from as int)) == trim_start_of(v@.skip(i as int)),
            decreases v@.len() - i,
        {
            assert(v@.skip(i as int).drop_first() == v@.skip(i + 1));
            i += 1;
        }
        let ghost rest = v@.skip(i as int);
        assert(trim_start_of(rest) == rest);
        if i == v.len() {
            assert(rest.len() == 0);
            assert(words_of(v@.skip(from as int)) == Seq::<Seq<char>>::empty());
            return out;
        }
        let start: usize = i;
        while i < v.len() && !white(v[i])
            invariant
                start <= i <= v@.len(),
                forall|k: int| start <= k < i ==> !is_white(#[trigger] v@[k]),
            decreases v@.len() - i,
        {
            i += 1;
        }
        let word = from_range(&v, start, i);
        let ghost before = out@;
        out.push(word);
        proof {
            assert forall|k: int| 0 <= k < i - start implies !is_white(#[trigger] rest[k]) by {
                assert(rest[k] == v@[start + k]);
            }
            lemma_word_len(rest, i - start);
            assert(rest.take(i - start) == word@);
            assert(rest.skip(i - start) == v@.skip(i as int));
            assert(strs(out@) == strs(before).push(word@));
            assert(strs(before) + (seq![word@] + words_of(v@.skip(i as int))) == strs(out@)
                + words_of(v@.skip(i as int)));
        }
    }
}

/// The texts one behind the other, with `sep` between each two.
pub open spec fn join_of(v: Seq<Seq<char>>, sep: Seq<char>) -> Seq<char>
    decreases v.len(),
{
    if v.len() == 0 {
        Seq::empty()
    } else if v.len() == 1 {
        v[0]
    } else {
        join_of(v.drop_last(), sep) + sep + v.last()
    }
}

pub fn join(v: &Vec<String>, sep: &str) -> (r: String)
    ensures
        r@ == join_of(strs(v@), sep@),
{
    let mut out = String::new();
    let mut i: usize = 0;
    assert(strs(v@).take(0) == Seq::<Seq<char>>::empty());
    while i < v.len()
        invariant
            i <= v@.len(),
            out@ == join_of(strs(v@).take(i as int), sep@),
        decreases v@.len() - i,
    {
        let ghost next = strs(v@).take(i + 1);
        assert(next.drop_last() == strs(v@).take(i as int));
        assert(next.last() == v@[i as int]@);
        if i > 0 {
            out.append(sep);
        }
        out.append(v[i].as_str());
        proof {
            if i == 0 {
                assert(out@ == v@[0]@);
            }
        }
        i += 1;
    }
    assert(strs(v@).take(v@.len() as int) == strs(v@));
    out
}

/// Puts a text behind a list of texts.
pub fn push_text(v: &mut Vec<String>, text: String)
    ensures
        strs(final(v)@) == strs(old(v)@).push(text@),
{
    v.push(text);
    assert(strs(v@) =~= strs(old(v)@).push(text@));
}

/// Whether `s` is one of the texts.
pub fn has_text(v: &Vec<String>, s: &str) -> (r: bool)
    ensures
        r == strs(v@).contains(s@),
{
    let mut i: usize = 0;
    while i < v.len()
        invariant
            i <= v@.len(),
            forall|k: int| 0 <= k < i ==> strs(v@)[k] != s@,
        decreases v@.len() - i,
    {
        if same(v[i].as_str(), s) {
            assert(strs(v@)[i as int] == s@);
            return true;
        }
        i += 1;
    }
    false
}

/// What a list holds up to one more place.
pub proof fn lemma_take_contains(s: Seq<Seq<char>>, i: int)
    requires
        0 <= i < s.len(),
    ensures
        forall|t: Seq<char>| #[trigger]
            s.take(i + 1).contains(t) == (s.take(i).contains(t) || t == s[i]),
{
    let part = s.take(i);
    let next = s.take(i + 1);
    assert(next == part.push(s[i]));
    assert forall|t: Seq<char>| #[trigger] next.contains(t) == (part.contains(t) || t == s[i]) by {
        if part.contains(t) {
            assert(next[part.index_of(t)] == t);
        }
        assert(next[i] == s[i]);
        if next.contains(t) && t != s[i] {
            assert(part[next.index_of(t)] == t);
        }
    }
}

/// A copy of each of the texts.
pub fn copy_texts(v: &Vec<String>) -> (r: Vec<String>)
    ensures
        r@ == v@,
{
    let mut out: Vec<String> = Vec::new();
    let mut i: usize = 0;
    while i < v.len()
        invariant
            i <= v@.len(),
            out@ == v@.take(i as int),
        decreases v@.len() - i,
    {
        out.push(v[i].clone());
        i += 1;
    }
    assert(v@.take(v@.len() as int) == v@);
    out
}

/// A copy of a text that may be absent.
pub fn copy_opt(s: &Option<String>) -> (r: Option<String>)
    ensures
        r == *s,
{
    match s {
        Some(t) => Some(t.clone()),
        None => None,
    }
}

/// The digit of a number below ten.
pub open spec fn digit_of(n: nat) -> char {
    ('0' as u32 + n) as char
}

/// A number in decimal.
pub open spec fn dec(n: nat) -> Seq<char>
    decreases n,
{
    if n < 10 {
        seq![digit_of(n)]
    } else {
        dec(n / 10).push(digit_of(n % 10))
    }
}

fn digit_char(n: u64) -> (r: char)
    requires
        n < 10,
    ensures
        r == digit_of(n as nat),
{
    match n {
        0 => '0',
        1 => '1',
        2 => '2',
        3 => '3',
        4 => '4',
        5 => '5',
        6 => '6',
        7 => '7',
        8 => '8',
        _ => '9',
    }
}

/// The text of a number in decimal.
pub fn decimal(n: u64) -> (r: String)
    ensures
        r@ == dec(n as nat),
    decreases n,
{
    if n < 10 {
        from_char(digit_char(n))
    } else {
        let mut out = decimal(n / 10);
        out.push(digit_char(n % 10));
        out
    }
}

/// The order of texts: by the first character in which they differ, a beginning before the whole.
pub open spec fn text_lt(a: Seq<char>, b: Seq<char>) -> bool
    decreases a.len(),
{
    if b.len() == 0 {
        false
    } else if a.len() == 0 {
        true
    } else if a[0] == b[0] {
        text_lt(a.drop_first(), b.drop_first())
    } else {
        (a[0] as int) < (b[0] as int)
    }
}

pub proof fn lemma_text_lt_irreflexive(a: Seq<char>)
    ensures
        !text_lt(a, a),
    decreases a.len(),
{
    if a.len() > 0 {
        lemma_text_lt_irreflexive(a.drop_first());
    }
}

pub proof fn lemma_text_lt_transitive(a: Seq<char>, b: Seq<char>, c: Seq<char>)
    requires
        text_lt(a, b),
        text_lt(b, c),
    ensures
        text_lt(a, c),
    decreases a.len(),
{
    if a.len() > 0 && a[0] == b[0] && b[0] == c[0] {
        lemma_text_lt_transitive(a.drop_first(), b.drop_first(), c.drop_first());
    }
}

pub proof fn lemma_text_lt_total(a: Seq<char>, b: Seq<char>)
    ensures
        a == b || text_lt(a, b) || text_lt(b, a),
    decreases a.len(),
{
    if a.len() == 0 {
        if b.len() == 0 {
            assert(a =~= b);
        }
    } else if b.len() > 0 && a[0] == b[0] {
        lemma_text_lt_total(a.drop_first(), b.drop_first());
        if a.drop_first() == b.drop_first() {
            assert(a =~= seq![a[0]] + a.drop_first());
            assert(b =~= seq![b[0]] + b.drop_first());
        }
        assert(text_lt(b, a) == text_lt(b.drop_first(), a.drop_first()));
    } else if b.len() > 0 {
        assert(a[0] as int != b[0] as int);
    }
}

/// The number of a character.
fn code(c: char) -> (r: u32)
    ensures
        r as int == c as int,
{
    c as u32
}

/// Whether `a` comes before `b`.
pub fn less(a: &str, b: &str) -> (r: bool)
    ensures
        r == text_lt(a@, b@),
{
    let x = to_chars(a);
    let y = to_chars(b);
    let mut i: usize = 0;
    assert(x@.skip(0) == x@);
    assert(y@.skip(0) == y@);
    while i < x.len() && i < y.len()
        invariant
            i <= x@.len(),
            i <= y@.len(),
            x@ == a@,
            y@ == b@,
            text_lt(x@.skip(i as int), y@.skip(i as int)) == text_lt(a@, b@),
        decreases x@.len() - i,
    {
        let c: char = x[i];
        let d: char = y[i];
        if c != d {
            return code(c) < code(d);
        }
        assert(x@.skip(i as int).drop_first() == x@.skip(i + 1));
        assert(y@.skip(i as int).drop_first() == y@.skip(i + 1));
        i += 1;
    }
    i < y.len()
}

/// The first position at which `p` stands in `s`.
pub open spec fn find_text_of(s: Seq<char>, p: Seq<char>) -> Option<int>
    decreases s.len(),
{
    if p.is_prefix_of(s) {
        Some(0)
    } else if s.len() == 0 {
        None
    } else {
        match find_text_of(s.drop_first(), p) {
            Some(i) => Some(i + 1),
            None => None,
        }
    }
}

proof fn lemma_prefix_at(s: Seq<char>, p: Seq<char>, at: int)
    requires
        0 <= at <= s.len(),
    ensures
        occurs_at(s, p, at) == p.is_prefix_of(s.skip(at)),
{
    let t = s.skip(at);
    if at + p.len() <= s.len() {
        assert(s.subrange(at, at + p.len()) =~= t.subrange(0, p.len() as int));
    }
}

/// The first position from `from` on at which `p` stands.
pub fn find_chars(v: &Vec<char>, p: &Vec<char>, from: usize) -> (r: Option<usize>)
    requires
        from <= v@.len(),
    ensures
        match r {
            Some(i) => from <= i && i + p@.len() <= v@.len() && find_text_of(
                v@.skip(from as int),
                p@,
            ) == Some(i - from),
            None => find_text_of(v@.skip(from as int), p@) is None,
        },
{
    let n: usize = v.len();
    let mut i: usize = from;
    let ghost whole = find_text_of(v@.skip(from as int), p@);
    loop
        invariant
            from <= i <= n == v@.len(),
            whole == find_text_of(v@.skip(from as int), p@),
            match find_text_of(v@.skip(i as int), p@) {
                Some(k) => whole == Some(k + (i - from)),
                None => whole is None,
            },
        decreases n - i,
    {
        proof {
            lemma_prefix_at(v@, p@, i as int);
        }
        if chars_at(v, p, i) {
            return Some(i);
        }
        if i == n {
            return None;
        }
        assert(v@.skip(i as int).drop_first() == v@.skip(i + 1));
        i += 1;
    }
}

/// Whether `p` stands somewhere in `s`.
pub fn contains_text(s: &str, p: &str) -> (r: bool)
    ensures
        r == (find_text_of(s@, p@) is Some),
{
    let v = to_chars(s);
    let q = to_chars(p);
    assert(v@.skip(0) == v@);
    find_chars(&v, &q, 0).is_some()
}

/// The text before the first `p` and the text behind it.
pub open spec fn split_once_text_of(s: Seq<char>, p: Seq<char>) -> Option<(Seq<char>, Seq<char>)> {
    match find_text_of(s, p) {
        Some(i) => Some((s.take(i), s.skip(i + p.len()))),
        None => None,
    }
}

pub fn split_once_text(s: &str, p: &str) -> (r: Option<(String, String)>)
    ensures
        match r {
            Some((a, b)) => split_once_text_of(s@, p@) == Some((a@, b@)),
            None => split_once_text_of(s@, p@) is None,
        },
{
    let v = to_chars(s);
    let q = to_chars(p);
    assert(v@.skip(0) == v@);
    let n: usize = v.len();
    match find_chars(&v, &q, 0) {
        Some(i) => {
            assert(i + q@.len() <= n);
            let a = from_range(&v, 0, i);
            let b = from_range(&v, i + q.len(), n);
            assert(a@ == s@.take(i as int));
            assert(b@ == s@.skip(i + p@.len()));
            Some((a, b))
        },
        None => None,
    }
}

/// The text with each `p`, from the left and without overlaps, replaced by `w`.
pub open spec fn replace_of(s: Seq<char>, p: Seq<char>, w: Seq<char>) -> Seq<char>
    decreases s.len(),
{
    if s.len() == 0 || p.len() == 0 {
        s
    } else if p.is_prefix_of(s) {
        w + replace_of(s.skip(p.len() as int), p, w)
    } else {
        seq![s[0]] + replace_of(s.drop_first(), p, w)
    }
}

/// Replaces each `p`, which is not empty, by `w`.
pub fn replace(s: &str, p: &str, w: &str) -> (r: String)
    requires
        p@.len() > 0,
    ensures
        r@ == replace_of(s@, p@, w@),
{
    let v = to_chars(s);
    let q = to_chars(p);
    let mut out = String::new();
    let mut i: usize = 0;
    assert(v@.skip(0) == v@);
    while i < v.len()
        invariant
            i <= v@.len(),
            v@ == s@,
            q@ == p@,
            p@.len() > 0,
            out@ + replace_of(v@.skip(i as int), p@, w@) == replace_of(s@, p@, w@),
        decreases v@.len() - i,
    {
        let ghost rest = v@.skip(i as int);
        let ghost before = out@;
        proof {
            lemma_prefix_at(v@, q@, i as int);
        }
        if chars_at(&v, &q, i) {
            out.append(w);
            assert(rest.skip(p@.len() as int) == v@.skip(i + p@.len()));
            assert(before + (w@ + replace_of(v@.skip(i + p@.len()), p@, w@)) == out@ + replace_of(
                v@.skip(i + p@.len()),
                p@,
                w@,
            ));
            i += q.len();
        } else {
            out.push(v[i]);
            assert(rest[0] == v@[i as int]);
            assert(rest.drop_first() == v@.skip(i + 1));
            assert(before + (seq![v@[i as int]] + replace_of(v@.skip(i + 1), p@, w@)) == out@
                + replace_of(v@.skip(i + 1), p@, w@));
            i += 1;
        }
    }
    out
}

pub open spec fn is_digit(c: char) -> bool {
    '0' <= c && c <= '9'
}

pub fn digit(c: char) -> (r: bool)
    ensures
        r == is_digit(c),
{
    '0' <= c && c <= '9'
}

/// The digits that a text begins with.
pub open spec fn digits_of(s: Seq<char>) -> Seq<char>
    decreases s.len(),
{
    if s.len() > 0 && is_digit(s[0]) {
        seq![s[0]] + digits_of(s.drop_first())
    } else {
        Seq::empty()
    }
}

/// The number that decimal digits stand for.
pub open spec fn dec_value(s: Seq<char>) -> nat
    decreases s.len(),
{
    if s.len() == 0 {
        0
    } else {
        (dec_value(s.drop_last()) * 10 + (s.last() as int - '0' as int)) as nat
    }
}

fn digit_value(c: char) -> (r: u64)
    requires
        is_digit(c),
    ensures
        r == c as int - '0' as int,
        r < 10,
{
    (c as u32 - '0' as u32) as u64
}

/// The number in the digits that a text begins with; none where there are no digits or the number
/// does not fit.
pub fn leading_number(s: &str) -> (r: Option<u64>)
    ensures
        ({
            let d = digits_of(s@);
            match r {
                Some(n) => d.len() > 0 && n == dec_value(d),
                None => d.len() == 0 || dec_value(d) > u64::MAX,
            }
        }),
{
    let v = to_chars(s);
    let mut n: u64 = 0;
    let mut over = false;
    let mut i: usize = 0;
    assert(v@.skip(0) == v@);
    assert(v@.take(0) + digits_of(s@) == digits_of(s@));
    while i < v.len() && digit(v[i])
        invariant
            i <= v@.len(),
            v@ == s@,
            digits_of(s@) == v@.take(i as int) + digits_of(v@.skip(i as int)),
            over ==> dec_value(v@.take(i as int)) > u64::MAX,
            !over ==> n == dec_value(v@.take(i as int)),
        decreases v@.len() - i,
    {
        let c = v[i];
        let d = digit_value(c);
        proof {
            let rest = v@.skip(i as int);
            assert(rest[0] == c);
            assert(rest.drop_first() == v@.skip(i + 1));
            assert(v@.take(i + 1) == v@.take(i as int).push(c));
            assert(v@.take(i + 1).drop_last() == v@.take(i as int));
            assert(v@.take(i as int) + (seq![c] + digits_of(v@.skip(i + 1))) == v@.take(i + 1)
                + digits_of(v@.skip(i + 1)));
        }
        if !over {
            match n.checked_mul(10) {
                Some(m) => match m.checked_add(d) {
                    Some(k) => {
                        n = k;
                    },
                    None => {
                        over = true;
                    },
                },
                None => {
                    over = true;
                },
            }
        }
        i += 1;
    }
    proof {
        let rest = v@.skip(i as int);
        if i < v@.len() {
            assert(rest[0] == v@[i as int]);
        }
        assert(digits_of(rest) == Seq::<char>::empty());
        assert(digits_of(s@) == v@.take(i as int));
    }
    if i == 0 || over {
        None
    } else {
        Some(n)
    }
}

/// The text of an optional string slice.
pub open spec fn opt_text(s: Option<&str>) -> Option<Seq<char>> {
    match s {
        Some(t) => Some(t@),
        None => None,
    }
}

/// The text of an optional string.
pub open spec fn opt_string(s: Option<String>) -> Option<Seq<char>> {
    match s {
        Some(t) => Some(t@),
        None => None,
    }
}

/// Whether two optional texts are the same.
pub fn same_opt(a: &Option<String>, b: &Option<String>) -> (r: bool)
    ensures
        r == (opt_string(*a) == opt_string(*b)),
{
    match (a, b) {
        (Some(x), Some(y)) => same(x.as_str(), y.as_str()),
        (None, None) => true,
        _ => false,
    }
}

/// Whether an optional text is this one.
pub fn is_text(a: &Option<String>, b: &str) -> (r: bool)
    ensures
        r == (opt_string(*a) == Some(b@)),
{
    match a {
        Some(x) => same(x.as_str(), b),
        None => false,
    }
}

/// The texts of a list of string slices.
pub open spec fn slice_texts(v: Seq<&str>) -> Seq<Seq<char>> {
    Seq::new(v.len(), |i: int| v[i]@)
}

/// A list with a copy of each text.
pub fn list(parts: &[&str]) -> (r: Vec<String>)
    ensures
        strs(r@) == slice_texts(parts@),
{
    let mut out: Vec<String> = Vec::new();
    let mut i: usize = 0;
    while i < parts.len()
        invariant
            i <= parts@.len(),
            strs(out@) == slice_texts(parts@).take(i as int),
        decreases parts@.len() - i,
    {
        let ghost before = out@;
        out.push(parts[i].to_owned());
        assert(strs(out@) =~= strs(before).push(parts@[i as int]@));
        i += 1;
    }
    assert(slice_texts(parts@).take(parts@.len() as int) =~= slice_texts(parts@));
    out
}

/// Digits only, and at least one.
pub open spec fn all_digits(s: Seq<char>) -> bool {
    s.len() > 0 && forall|i: int| 0 <= i < s.len() ==> is_digit(#[trigger] s[i])
}

/// The number that a text stands for: digits, with a `+` before them or not, whose value fits.
pub open spec fn usize_of(s: Seq<char>) -> Option<nat> {
    let d = if s.len() > 0 && s[0] == '+' {
        s.drop_first()
    } else {
        s
    };
    if all_digits(d) && dec_value(d) <= usize::MAX {
        Some(dec_value(d))
    } else {
        None
    }
}

/// Reads a number.
pub fn parse_usize(s: &str) -> (r: Option<usize>)
    ensures
        match r {
            Some(n) => usize_of(s@) == Some(n as nat),
            None => usize_of(s@) is None,
        },
{
    let v = to_chars(s);
    let start: usize = if v.len() > 0 && v[0] == '+' {
        1
    } else {
        0
    };
    let ghost d = v@.skip(start as int);
    proof {
        if start == 1 {
            assert(d == s@.drop_first());
        } else {
            assert(d == s@);
        }
    }
    if start == v.len() {
        return None;
    }
    let mut n: usize = 0;
    let mut over = false;
    let mut i: usize = start;
    assert(d.take(0) == Seq::<char>::empty());
    while i < v.len()
        invariant
            start <= i <= v@.len(),
            d == v@.skip(start as int),
            d.len() > 0,
            usize_of(s@) == (if all_digits(d) && dec_value(d) <= usize::MAX {
                Some(dec_value(d))
            } else {
                None
            }),
            forall|k: int| 0 <= k < i - start ==> is_digit(#[trigger] d[k]),
            over ==> dec_value(d.take(i - start)) > usize::MAX,
            !over ==> n == dec_value(d.take(i - start)),
        decreases v@.len() - i,
    {
        let c = v[i];
        assert(d[i - start] == c);
        if !digit(c) {
            assert(!all_digits(d));
            return None;
        }
        let x = digit_value(c) as usize;
        assert(d.take(i - start + 1).drop_last() == d.take(i - start));
        if !over {
            match n.checked_mul(10) {
                Some(m) => match m.checked_add(x) {
                    Some(k) => {
                        n = k;
                    },
                    None => {
                        over = true;
                    },
                },
                None => {
                    over = true;
                },
            }
        }
        i += 1;
    }
    assert(d.take(i - start) == d);
    if over {
        None
    } else {
        Some(n)
    }
}

/// The lines one behind the other, each ended by a line feed.
pub open spec fn unlines_of(lines: Seq<Seq<char>>) -> Seq<char>
    decreases lines.len(),
{
    if lines.len() == 0 {
        Seq::empty()
    } else {
        lines[0].push('\n') + unlines_of(lines.drop_first())
    }
}

pub fn unlines(lines: &Vec<String>) -> (r: String)
    ensures
        r@ == unlines_of(strs(lines@)),
{
    let ghost all = strs(lines@);
    let mut out = String::new();
    let mut i: usize = 0;
    assert(all.skip(0) == all);
    while i < lines.len()
        invariant
            i <= lines@.len(),
            all == strs(lines@),
            out@ + unlines_of(all.skip(i as int)) == unlines_of(all),
        decreases lines@.len() - i,
    {
        let ghost before = out@;
        let ghost rest = all.skip(i as int);
        out.append(lines[i].as_str());
        out.push('\n');
        proof {
            assert(rest[0] == lines@[i as int]@);
            assert(rest.drop_first() == all.skip(i + 1));
            assert(before + (rest[0].push('\n') + unlines_of(all.skip(i + 1))) == out@
                + unlines_of(all.skip(i + 1)));
        }
        i += 1;
    }
    out
}

/// Splitting a text whose first `c` stands behind `a` takes `a` off.
pub proof fn lemma_split_on_head(a: Seq<char>, c: char, b: Seq<char>)
    requires
        !a.contains(c),
    ensures
        split_on(a.push(c) + b, c) == seq![a] + split_on(b, c),
{
    let s = a.push(c) + b;
    lemma_index_of_char_is(s, c, a.len() as int);
    assert(s.take(a.len() as int) == a);
    assert(s.skip(a.len() as int + 1) == b);
}

proof fn lemma_split_unlines(lines: Seq<Seq<char>>)
    requires
        forall|i: int| 0 <= i < lines.len() ==> !(#[trigger] lines[i]).contains('\n'),
    ensures
        split_on(unlines_of(lines), '\n') == lines.push(Seq::empty()),
    decreases lines.len(),
{
    if lines.len() == 0 {
        lemma_index_of_char(Seq::<char>::empty(), '\n');
        assert(split_on(Seq::<char>::empty(), '\n') == seq![Seq::<char>::empty()]);
        assert(lines.push(Seq::empty()) == seq![Seq::<char>::empty()]);
    } else {
        let rest = lines.drop_first();
        assert forall|i: int| 0 <= i < rest.len() implies !(#[trigger] rest[i]).contains('\n') by {
            assert(rest[i] == lines[i + 1]);
        }
        lemma_split_unlines(rest);
        lemma_split_on_head(lines[0], '\n', unlines_of(rest));
        assert(seq![lines[0]] + rest.push(Seq::empty()) == lines.push(Seq::empty()));
    }
}

/// The lines of a text that was put together from lines are those lines, apart from a carriage
/// return at the end of one.
pub proof fn lemma_lines_of_unlines(lines: Seq<Seq<char>>)
    requires
        forall|i: int| 0 <= i < lines.len() ==> !(#[trigger] lines[i]).contains('\n'),
    ensures
        lines_of(unlines_of(lines)) == Seq::new(lines.len(), |i: int| without_cr(lines[i])),
{
    lemma_split_unlines(lines);
    let parts = split_on(unlines_of(lines), '\n');
    assert(parts.last() == Seq::<char>::empty());
    assert(lines_of(unlines_of(lines)) == Seq::new(lines.len(), |i: int| without_cr(lines[i])));
}

/// Trimming the end cuts off white space and nothing else.
pub proof fn lemma_trim_end(s: Seq<char>)
    ensures
        trim_end_of(s).len() <= s.len(),
        trim_end_of(s) == s.take(trim_end_of(s).len() as int),
        forall|i: int| trim_end_of(s).len() <= i < s.len() ==> is_white(#[trigger] s[i]),
        trim_end_of(s).len() > 0 ==> !is_white(trim_end_of(s).last()),
    decreases s.len(),
{
    if s.len() > 0 && is_white(s.last()) {
        let t = s.drop_last();
        lemma_trim_end(t);
        assert(s.take(trim_end_of(t).len() as int) == t.take(trim_end_of(t).len() as int));
        assert forall|i: int| trim_end_of(s).len() <= i < s.len() implies is_white(
            #[trigger] s[i],
        ) by {
            if i < t.len() {
                assert(t[i] == s[i]);
            }
        }
    } else {
        assert(s.take(s.len() as int) == s);
    }
}

/// A text that begins with something else than white space keeps its beginning when it is trimmed.
pub proof fn lemma_trim_keeps(s: Seq<char>, k: int)
    requires
        0 <= k < s.len(),
        !is_white(s[0]),
        !is_white(s[k]),
    ensures
        trim_start_of(s) == s,
        trim_of(s).len() > k,
        trim_of(s) == s.take(trim_of(s).len() as int),
        trim_of(s).len() <= s.len(),
{
    lemma_trim_end(s);
    if trim_end_of(s).len() <= k {
        assert(is_white(s[k]));
    }
}

/// A text without white space at its ends is as it was when it is trimmed.
pub proof fn lemma_trim_same(s: Seq<char>)
    requires
        s.len() == 0 || (!is_white(s[0]) && !is_white(s.last())),
    ensures
        trim_of(s) == s,
{
    if s.len() > 0 {
        assert(trim_start_of(s) == s);
    }
}

proof fn lemma_trim_start_cr(s: Seq<char>)
    requires
        s.len() > 0,
        s.last() == '\r',
    ensures
        trim_of(s.drop_last()) == trim_of(s),
    decreases s.len(),
{
    let t = s.drop_last();
    if is_white(s[0]) {
        if s.len() == 1 {
            assert(t == Seq::<char>::empty());
            assert(s.drop_first() == Seq::<char>::empty());
        } else {
            lemma_trim_start_cr(s.drop_first());
            assert(t[0] == s[0]);
            assert(t.drop_first() == s.drop_first().drop_last());
        }
    } else {
        assert(s.len() > 1);
        assert(t[0] == s[0]);
        assert(trim_start_of(s) == s && trim_start_of(t) == t);
    }
}

/// A carriage return at the end does not matter to a text that is trimmed.
pub proof fn lemma_trim_without_cr(s: Seq<char>)
    ensures
        trim_of(without_cr(s)) == trim_of(s),
{
    if s.len() > 0 && s.last() == '\r' {
        lemma_trim_start_cr(s);
    }
}

/// A word between white space or at either end of a text is one of the text's words.
pub proof fn lemma_words_head(gap: Seq<char>, word: Seq<char>, rest: Seq<char>)
    requires
        forall|i: int| 0 <= i < gap.len() ==> is_white(#[trigger] gap[i]),
        word.len() > 0,
        forall|i: int| 0 <= i < word.len() ==> !is_white(#[trigger] word[i]),
        rest.len() == 0 || is_white(rest[0]),
    ensures
        words_of(gap + word + rest) == seq![word] + words_of(rest),
    decreases gap.len(),
{
    let s = gap + word + rest;
    if gap.len() > 0 {
        assert(s[0] == gap[0]);
        assert(s.drop_first() =~= gap.drop_first() + word + rest);
        lemma_words_head(gap.drop_first(), word, rest);
        assert(trim_start_of(s) == trim_start_of(s.drop_first()));
    } else {
        assert(s =~= word + rest);
        assert(s[0] == word[0]);
        assert(trim_start_of(s) == s);
        assert forall|i: int| 0 <= i < word.len() implies !is_white(#[trigger] s[i]) by {
            assert(s[i] == word[i]);
        }
        if rest.len() > 0 {
            assert(s[word.len() as int] == rest[0]);
        }
        lemma_word_len(s, word.len() as int);
        assert(s.take(word.len() as int) =~= word);
        assert(s.skip(word.len() as int) =~= rest);
    }
}

/// An ASCII letter in lower case; any other character as it is.
pub open spec fn lower_of(c: char) -> char {
    if 'A' <= c && c <= 'Z' {
        ((c as u8) + 32) as u8 as char
    } else {
        c
    }
}

fn lower(c: char) -> (r: char)
    ensures
        r == lower_of(c),
{
    if 'A' <= c && c <= 'Z' {
        let n: u8 = c as u8;
        (n + 32) as char
    } else {
        c
    }
}

/// The text with its ASCII letters in lower case.
pub open spec fn lower_text(s: Seq<char>) -> Seq<char> {
    Seq::new(s.len(), |i: int| lower_of(s[i]))
}

pub fn to_lower(s: &str) -> (r: String)
    ensures
        r@ == lower_text(s@),
{
    let v = to_chars(s);
    let mut out = String::new();
    let mut i: usize = 0;
    while i < v.len()
        invariant
            i <= v@.len(),
            out@ == lower_text(v@).take(i as int),
        decreases v@.len() - i,
    {
        out.push(lower(v[i]));
        assert(out@ =~= lower_text(v@).take(i + 1));
        i += 1;
    }
    assert(lower_text(v@).take(v@.len() as int) =~= lower_text(v@));
    out
}

/// The text of a large number in decimal.
pub fn wide_decimal(n: u128) -> (r: String)
    ensures
        r@ == dec(n as nat),
    decreases n,
{
    if n < 10 {
        from_char(digit_char(n as u64))
    } else {
        let mut out = wide_decimal(n / 10);
        out.push(digit_char((n % 10) as u64));
        out
    }
}

/// That many spaces.
pub open spec fn spaces(n: nat) -> Seq<char> {
    Seq::new(n, |i: int| ' ')
}

/// A text filled up with spaces to a width.
pub open spec fn padded(s: Seq<char>, width: nat) -> Seq<char> {
    if s.len() >= width {
        s
    } else {
        s + spaces((width - s.len()) as nat)
    }
}

/// Fills a text up with spaces to a width.
pub fn pad(s: &str, width: usize) -> (r: String)
    ensures
        r@ == padded(s@, width as nat),
{
    let n: usize = to_chars(s).len();
    let mut out = s.to_owned();
    let mut i: usize = n;
    while i < width
        invariant
            n == s@.len(),
            n <= i,
            i <= width || n >= width,
            n >= width ==> out@ == s@,
            n < width ==> out@ == s@ + spaces((i - n) as nat),
        decreases width - i,
    {
        let ghost before = out@;
        out.push(' ');
        assert(before.push(' ') =~= s@ + spaces((i + 1 - n) as nat));
        i += 1;
    }
    proof {
        if n >= width {
            assert(out@ =~= s@);
        }
    }
    out
}

} // verus!
