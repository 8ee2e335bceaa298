//! Character-level text handling: splitting, trimming, joining and
//! decimal parsing, each specified over the `Seq<char>` view of a string.
use vstd::prelude::*;

verus! {

/// The views of a sequence of strings.
pub open spec fn texts(v: Seq<String>) -> Seq<Seq<char>> {
    v.map_values(|s: String| s@)
}

/// ASCII whitespace as `u8::is_ascii_whitespace` defines it
/// (space, tab, line feed, form feed, carriage return).
pub open spec fn is_ascii_ws(c: char) -> bool {
    c == ' ' || c == '\t' || c == '\n' || c == '\x0C' || c == '\r'
}

/// Characters with the Unicode `White_Space` property (what
/// `char::is_whitespace` and hence `str::trim` remove).
pub open spec fn is_white_space(c: char) -> bool {
    ||| '\u{9}' <= c <= '\u{d}'
    ||| c == ' '
    ||| c == '\u{85}'
    ||| c == '\u{a0}'
    ||| c == '\u{1680}'
    ||| '\u{2000}' <= c <= '\u{200a}'
    ||| c == '\u{2028}'
    ||| c == '\u{2029}'
    ||| c == '\u{202f}'
    ||| c == '\u{205f}'
    ||| c == '\u{3000}'
}

/// The pieces of `s` between occurrences of `sep`, empty pieces included;
/// what `str::split` with a single character yields. Never empty.
pub open spec fn split_on(s: Seq<char>, sep: char) -> Seq<Seq<char>>
    decreases s.len(),
{
    if s.len() == 0 {
        seq![Seq::<char>::empty()]
    } else {
        let init = split_on(s.drop_last(), sep);
        if s.last() == sep {
            init.push(Seq::<char>::empty())
        } else {
            init.drop_last().push(init.last().push(s.last()))
        }
    }
}

/// The last `/`-separated component of a path (`split('/').last()`).
pub open spec fn basename(s: Seq<char>) -> Seq<char> {
    split_on(s, '/').last()
}

/// The part of a file name before its first `.` (`split('.').next()`).
pub open spec fn stem(s: Seq<char>) -> Seq<char> {
    split_on(s, '.')[0]
}

/// The maximal runs of characters other than ASCII whitespace, in order;
/// what `str::split_ascii_whitespace` yields.
pub open spec fn tokens(s: Seq<char>) -> Seq<Seq<char>>
    decreases s.len(),
{
    if s.len() == 0 {
        Seq::empty()
    } else {
        let init = tokens(s.drop_last());
        let c = s.last();
        if is_ascii_ws(c) {
            init
        } else if s.len() > 1 && !is_ascii_ws(s[s.len() - 2]) {
            init.drop_last().push(init.last().push(c))
        } else {
            init.push(seq![c])
        }
    }
}

/// `s` without its leading `White_Space` characters.
pub open spec fn trim_start(s: Seq<char>) -> Seq<char>
    decreases s.len(),
{
    if s.len() > 0 && is_white_space(s[0]) {
        trim_start(s.drop_first())
    } else {
        s
    }
}

/// `s` without its trailing `White_Space` characters.
pub open spec fn trim_end(s: Seq<char>) -> Seq<char>
    decreases s.len(),
{
    if s.len() > 0 && is_white_space(s.last()) {
        trim_end(s.drop_last())
    } else {
        s
    }
}

/// `s` without leading and trailing `White_Space` characters (`str::trim`).
pub open spec fn trim(s: Seq<char>) -> Seq<char> {
    trim_end(trim_start(s))
}

/// The pieces joined with `sep` between neighbours (`join`).
pub open spec fn join(pieces: Seq<Seq<char>>, sep: char) -> Seq<char>
    decreases pieces.len(),
{
    if pieces.len() == 0 {
        Seq::empty()
    } else if pieces.len() == 1 {
        pieces[0]
    } else {
        join(pieces.drop_last(), sep) + seq![sep] + pieces.last()
    }
}

/// Each piece preceded by one space, all concatenated.
pub open spec fn spaced(pieces: Seq<Seq<char>>) -> Seq<char>
    decreases pieces.len(),
{
    if pieces.len() == 0 {
        Seq::empty()
    } else {
        spaced(pieces.drop_last()) + seq![' '] + pieces.last()
    }
}

pub open spec fn is_digit(c: char) -> bool {
    '0' <= c <= '9'
}

/// The number that a string of decimal digits denotes.
pub open spec fn digits_value(s: Seq<char>) -> nat
    decreases s.len(),
{
    if s.len() == 0 {
        0
    } else {
        digits_value(s.drop_last()) * 10 + ((s.last() as nat) - ('0' as nat)) as nat
    }
}

/// The digits of an unsigned decimal literal: an optional leading `+` is dropped.
pub open spec fn unsigned_digits(s: Seq<char>) -> Seq<char> {
    if s.len() > 0 && s[0] == '+' {
        s.drop_first()
    } else {
        s
    }
}

/// What `str::parse::<usize>` accepts: an optional `+` and then one or more
/// ASCII digits whose value fits in a `usize`.
pub open spec fn parse_usize_spec(s: Seq<char>) -> Option<usize> {
    let d = unsigned_digits(s);
    if d.len() > 0 && (forall|i: int| 0 <= i < d.len() ==> is_digit(#[trigger] d[i]))
        && digits_value(d) <= usize::MAX {
        Some(digits_value(d) as usize)
    } else {
        None
    }
}

pub proof fn lemma_split_on_nonempty(s: Seq<char>, sep: char)
    ensures
        split_on(s, sep).len() >= 1,
    decreases s.len(),
{
    if s.len() > 0 {
        lemma_split_on_nonempty(s.drop_last(), sep);
    }
}

proof fn lemma_digits_value_grows(d: Seq<char>, i: int)
    requires
        0 <= i <= d.len(),
        forall|j: int| 0 <= j < d.len() ==> is_digit(#[trigger] d[j]),
    ensures
        digits_value(d.take(i)) <= digits_value(d),
    decreases d.len() - i,
{
    if i < d.len() {
        lemma_digits_value_grows(d, i + 1);
        assert(d.take(i + 1).drop_last() =~= d.take(i));
    } else {
        assert(d.take(i) =~= d);
    }
}

/// Appends one character to a string.
/// Calls `String::push`; the contract claims what its documentation says:
/// the character is appended at the end and nothing else changes.
#[verifier::external_body]
pub(crate) fn push_char(s: &mut String, c: char)
    ensures
        final(s)@ == old(s)@.push(c),
{
    s.push(c)
}

/// The characters of a string, in order.
pub fn char_list(s: &str) -> (v: Vec<char>)
    ensures
        v@ == s@,
{
    let mut v: Vec<char> = Vec::new();
    for c in it: s.chars()
        invariant
            v@ == it.seq().take(it.index() as int),
    {
        v.push(c);
    }
    v
}

/// A string holding the characters `v[lo..hi]`.
pub fn string_of(v: &Vec<char>, lo: usize, hi: usize) -> (r: String)
    requires
        lo <= hi <= v.len(),
    ensures
        r@ == v@.subrange(lo as int, hi as int),
{
    let mut r = String::new();
    let mut i = lo;
    while i < hi
        invariant
            lo <= i <= hi <= v.len(),
            r@ == v@.subrange(lo as int, i as int),
        decreases hi - i,
    {
        push_char(&mut r, v[i]);
        assert(v@.subrange(lo as int, i + 1) =~= v@.subrange(lo as int, i as int).push(v@[i as int]));
        i = i + 1;
    }
    r
}

pub fn ascii_ws(c: char) -> (r: bool)
    ensures
        r == is_ascii_ws(c),
{
    c == ' ' || c == '\t' || c == '\n' || c == '\x0C' || c == '\r'
}

pub fn white_space(c: char) -> (r: bool)
    ensures
        r == is_white_space(c),
{
    ('\u{9}' <= c && c <= '\u{d}') || c == ' ' || c == '\u{85}' || c == '\u{a0}' || c == '\u{1680}'
        || ('\u{2000}' <= c && c <= '\u{200a}') || c == '\u{2028}' || c == '\u{2029}' || c
        == '\u{202f}' || c == '\u{205f}' || c == '\u{3000}'
}

/// Splits `s` at every `sep` (`s.split(sep)`), keeping empty pieces.
pub fn split_at_char(s: &str, sep: char) -> (r: Vec<String>)
    ensures
        texts(r@) == split_on(s@, sep),
{
    let chars = char_list(s);
    let mut done: Vec<String> = Vec::new();
    let mut cur = String::new();
    let mut i: usize = 0;
    assert(chars@.take(0) =~= Seq::<char>::empty());
    assert(texts(done@).push(cur@) =~= seq![Seq::<char>::empty()]);
    while i < chars.len()
        invariant
            i <= chars.len(),
            chars@ == s@,
            split_on(chars@.take(i as int), sep) == texts(done@).push(cur@),
        decreases chars.len() - i,
    {
        let c = chars[i];
        let ghost pre = chars@.take(i as int);
        assert(chars@.take(i + 1).drop_last() =~= pre);
        if c == sep {
            done.push(cur);
            cur = String::new();
            assert(texts(done@).push(cur@) =~= split_on(pre, sep).push(Seq::<char>::empty()));
        } else {
            push_char(&mut cur, c);
            assert(texts(done@).push(cur@) =~= split_on(pre, sep).drop_last().push(
                split_on(pre, sep).last().push(c),
            ));
        }
        i = i + 1;
    }
    assert(chars@.take(chars.len() as int) =~= chars@);
    done.push(cur);
    assert(texts(done@) =~= split_on(s@, sep));
    done
}

/// The last `/`-separated component of `path`.
pub fn basename_of(path: &str) -> (r: String)
    ensures
        r@ == basename(path@),
{
    let mut pieces = split_at_char(path, '/');
    proof {
        lemma_split_on_nonempty(path@, '/');
    }
    let last = pieces.len() - 1;
    let r = pieces.remove(last);
    r
}

/// The part of `name` before its first `.`.
pub fn stem_of(name: &str) -> (r: String)
    ensures
        r@ == stem(name@),
{
    let mut pieces = split_at_char(name, '.');
    proof {
        lemma_split_on_nonempty(name@, '.');
    }
    let r = pieces.remove(0);
    r
}

/// The runs of non-ASCII-whitespace characters of `s`
/// (`s.split_ascii_whitespace()`).
pub fn split_tokens(s: &str) -> (r: Vec<String>)
    ensures
        texts(r@) == tokens(s@),
{
    let chars = char_list(s);
    let mut done: Vec<String> = Vec::new();
    let mut cur = String::new();
    let mut in_token = false;
    let mut i: usize = 0;
    assert(chars@.take(0) =~= Seq::<char>::empty());
    while i < chars.len()
        invariant
            i <= chars.len(),
            chars@ == s@,
            in_token == (i > 0 && !is_ascii_ws(chars@[i - 1])),
            in_token ==> tokens(chars@.take(i as int)) == texts(done@).push(cur@),
            !in_token ==> tokens(chars@.take(i as int)) == texts(done@),
        decreases chars.len() - i,
    {
        let c = chars[i];
        let ghost pre = chars@.take(i as int);
        let ghost post = chars@.take(i + 1);
        assert(post.drop_last() =~= pre);
        assert(post.last() == c);
        if ascii_ws(c) {
            if in_token {
                done.push(cur);
                cur = String::new();
            }
            in_token = false;
        } else {
            if in_token {
                assert(post[post.len() - 2] == chars@[i - 1]);
                push_char(&mut cur, c);
                assert(texts(done@).push(cur@) =~= tokens(pre).drop_last().push(
                    tokens(pre).last().push(c),
                ));
            } else {
                proof {
                    if i > 0 {
                        assert(post[post.len() - 2] == chars@[i - 1]);
                    }
                }
                cur = String::new();
                push_char(&mut cur, c);
                assert(texts(done@).push(cur@) =~= tokens(pre).push(seq![c]));
            }
            in_token = true;
        }
        i = i + 1;
    }
    assert(chars@.take(chars.len() as int) =~= chars@);
    if in_token {
        done.push(cur);
        assert(texts(done@) =~= tokens(s@));
    }
    done
}

proof fn lemma_trim_start_skip(s: Seq<char>, i: int)
    requires
        0 <= i < s.len(),
        is_white_space(s[i]),
    ensures
        trim_start(s.skip(i)) == trim_start(s.skip(i + 1)),
{
    assert(s.skip(i).drop_first() =~= s.skip(i + 1));
}

/// `s` without leading and trailing `White_Space` characters (`s.trim()`).
pub fn trimmed(s: &str) -> (r: String)
    ensures
        r@ == trim(s@),
{
    let chars = char_list(s);
    let n = chars.len();
    let mut lo: usize = 0;
    assert(chars@.skip(0) =~= chars@);
    while lo < n && white_space(chars[lo])
        invariant
            lo <= n == chars.len(),
            chars@ == s@,
            trim_start(s@) == trim_start(chars@.skip(lo as int)),
        decreases n - lo,
    {
        proof {
            lemma_trim_start_skip(chars@, lo as int);
        }
        lo = lo + 1;
    }
    // trim_start(s) is now the suffix starting at lo
    assert(trim_start(chars@.skip(lo as int)) == chars@.skip(lo as int));
    let mut hi: usize = n;
    assert(chars@.skip(lo as int) =~= chars@.subrange(lo as int, n as int));
    while hi > lo && white_space(chars[hi - 1])
        invariant
            lo <= hi <= n == chars.len(),
            chars@ == s@,
            trim(s@) == trim_end(chars@.subrange(lo as int, hi as int)),
        decreases hi - lo,
    {
        assert(chars@.subrange(lo as int, hi as int).drop_last() =~= chars@.subrange(
            lo as int,
            hi - 1,
        ));
        hi = hi - 1;
    }
    let r = string_of(&chars, lo, hi);
    r
}

/// The pieces joined with `sep` between neighbours.
pub fn join_with(pieces: &Vec<String>, sep: char) -> (r: String)
    ensures
        r@ == join(texts(pieces@), sep),
{
    let mut r = String::new();
    let mut i: usize = 0;
    while i < pieces.len()
        invariant
            i <= pieces.len(),
            r@ == join(texts(pieces@).take(i as int), sep),
        decreases pieces.len() - i,
    {
        let ghost pre = texts(pieces@).take(i as int);
        let ghost post = texts(pieces@).take(i + 1);
        assert(post.drop_last() =~= pre);
        if i > 0 {
            push_char(&mut r, sep);
        }
        r.append(pieces[i].as_str());
        proof {
            if i == 0 {
                assert(r@ =~= post[0]);
            } else {
                assert(r@ =~= join(pre, sep) + seq![sep] + post.last());
            }
        }
        i = i + 1;
    }
    assert(texts(pieces@).take(pieces.len() as int) =~= texts(pieces@));
    r
}

/// The pieces, each preceded by one space, concatenated.
pub fn spaced_of(pieces: &Vec<String>, from: usize) -> (r: String)
    requires
        from <= pieces.len(),
    ensures
        r@ == spaced(texts(pieces@).skip(from as int)),
{
    let mut r = String::new();
    let mut i: usize = from;
    assert(texts(pieces@).subrange(from as int, from as int) =~= Seq::<Seq<char>>::empty());
    while i < pieces.len()
        invariant
            from <= i <= pieces.len(),
            r@ == spaced(texts(pieces@).subrange(from as int, i as int)),
        decreases pieces.len() - i,
    {
        assert(texts(pieces@).subrange(from as int, i + 1).drop_last() =~= texts(
            pieces@,
        ).subrange(from as int, i as int));
        push_char(&mut r, ' ');
        r.append(pieces[i].as_str());
        i = i + 1;
    }
    assert(texts(pieces@).subrange(from as int, pieces.len() as int) =~= texts(pieces@).skip(
        from as int,
    ));
    r
}

/// `s.parse::<usize>().ok()`: an optional `+` followed by ASCII digits
/// whose value fits in a `usize`.
pub fn parse_usize(s: &str) -> (r: Option<usize>)
    ensures
        r == parse_usize_spec(s@),
{
    let chars = char_list(s);
    let mut i: usize = 0;
    if chars.len() > 0 && chars[0] == '+' {
        i = 1;
    }
    let ghost d = unsigned_digits(s@);
    assert(d =~= chars@.skip(i as int));
    if i == chars.len() {
        return None;
    }
    let start = i;
    let mut value: usize = 0;
    assert(d.take(0) =~= Seq::<char>::empty());
    while i < chars.len()
        invariant
            start <= i <= chars.len(),
            start < chars.len(),
            chars@ == s@,
            d == chars@.skip(start as int),
            d == unsigned_digits(s@),
            forall|j: int| 0 <= j < i - start ==> is_digit(#[trigger] d[j]),
            value == digits_value(d.take(i - start)),
        decreases chars.len() - i,
    {
        let c = chars[i];
        if !('0' <= c && c <= '9') {
            assert(d[i - start] == c);
            assert(!is_digit(d[i - start]));
            assert(!(forall|j: int| 0 <= j < d.len() ==> is_digit(#[trigger] d[j])));
            return None;
        }
        let digit = (c as u32 - '0' as u32) as usize;
        assert(d.take(i + 1 - start).drop_last() =~= d.take(i - start));
        assert(d.take(i + 1 - start).last() == c);
        let next = match value.checked_mul(10) {
            Some(v) => v.checked_add(digit),
            None => None,
        };
        match next {
            Some(v) => {
                value = v;
            },
            None => {
                proof {
                    assert(digits_value(d.take(i + 1 - start)) > usize::MAX);
                    if forall|j: int| 0 <= j < d.len() ==> is_digit(#[trigger] d[j]) {
                        lemma_digits_value_grows(d, i + 1 - start);
                        assert(digits_value(d) > usize::MAX);
                    }
                    assert(parse_usize_spec(s@) is None);
                }
                return None;
            },
        }
        i = i + 1;
    }
    assert(d.take(i - start) =~= d);
    Some(value)
}

} // verus!
