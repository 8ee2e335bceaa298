//! Properties of the player that hold across its operations.
use vstd::prelude::*;
use vstd::utf8::{encode_utf8, is_ascii_chars, is_char_boundary, valid_utf8};
use crate::actions::ActionView;
use crate::commands::PlaylistCommandView;
use crate::playlist::{law_playlist_round_trip, playlist_file, playlist_text};
use crate::search::{ascii_lowercase, lowered, narrowing_breaks, step_breaks, agrees, lemma_agrees_shorter, search_fails, search_key, search_keys, search_result, select};
use crate::commands::{CommandView, parse_line};
use crate::text::{basename, parse_usize_spec, split_on};
use crate::session::{
    SessionView,
    next_index,
    on_add,
    on_line,
    on_next,
    on_playlist,
    on_playlist_text,
    on_track_ended,
    prev_index,
};

verus! {

proof fn lemma_select_members(names: Seq<Seq<char>>, keys: Seq<Seq<u8>>, t: Seq<u8>)
    requires
        keys.len() == names.len(),
    ensures
        forall|x: Seq<char>|
            #[trigger] select(names, keys, t).contains(x) ==> exists|i: int|
                0 <= i < names.len() && names[i] == x && agrees(keys[i], t, t.len() as int),
        forall|i: int|
            0 <= i < names.len() && agrees(keys[i], t, t.len() as int) ==> #[trigger] select(
                names,
                keys,
                t,
            ).contains(names[i]),
    decreases names.len(),
{
    if names.len() > 0 {
        let n = names.len() - 1;
        let rest_names = names.drop_last();
        let rest_keys = keys.take(n);
        lemma_select_members(rest_names, rest_keys, t);
        let rest = select(rest_names, rest_keys, t);
        let all = select(names, keys, t);
        assert forall|x: Seq<char>| #[trigger] all.contains(x) implies exists|i: int|
            0 <= i < names.len() && names[i] == x && agrees(keys[i], t, t.len() as int) by {
            if rest.contains(x) {
                let i = choose|i: int|
                    0 <= i < rest_names.len() && rest_names[i] == x && agrees(
                        rest_keys[i],
                        t,
                        t.len() as int,
                    );
                assert(names[i] == x && keys[i] == rest_keys[i]);
            } else {
                let j = choose|j: int| 0 <= j < all.len() && all[j] == x;
                assert(j == rest.len());
                assert(names[n] == x);
            }
        }
        assert forall|i: int|
            0 <= i < names.len() && agrees(keys[i], t, t.len() as int) implies #[trigger] all.contains(
            names[i],
        ) by {
            if i < n {
                assert(rest_names[i] == names[i] && rest_keys[i] == keys[i]);
                assert(rest.contains(rest_names[i]));
                let j = choose|j: int| 0 <= j < rest.len() && rest[j] == names[i];
                assert(all[j] == names[i]);
            } else {
                assert(all[all.len() - 1] == names[i]);
            }
        }
    }
}

/// A search term that is one of the songs' paths finds exactly that song.
pub proof fn law_exact_path_wins(names: Seq<Seq<char>>, target: Seq<char>)
    requires
        names.contains(target),
    ensures
        !search_fails(names, target),
        search_result(names, target) == seq![target],
{
}

/// Everything a search finds is one of the songs searched, and either is
/// the term itself or has a lower-cased file name that starts with the term
/// and is longer.
pub proof fn law_search_finds_only_matches(names: Seq<Seq<char>>, target: Seq<char>)
    ensures
        forall|x: Seq<char>|
            #[trigger] search_result(names, target).contains(x) ==> names.contains(x) && (x
                == target || agrees(
                search_key(x),
                encode_utf8(target),
                encode_utf8(target).len() as int,
            )),
{
    if names.contains(target) {
        assert forall|x: Seq<char>| #[trigger]
            search_result(names, target).contains(x) implies names.contains(x) && x == target by {
            let j = choose|j: int| 0 <= j < 1 && seq![target][j] == x;
        }
    } else {
        let keys = search_keys(names);
        let t = encode_utf8(target);
        lemma_select_members(names, keys, t);
        assert forall|x: Seq<char>| #[trigger]
            search_result(names, target).contains(x) implies names.contains(x) && agrees(
            search_key(x),
            t,
            t.len() as int,
        ) by {
            assert(select(names, keys, t).contains(x));
            let i = choose|i: int|
                0 <= i < names.len() && names[i] == x && agrees(keys[i], t, t.len() as int);
            assert(keys[i] == search_key(names[i]));
        }
    }
}

/// When the term is not a song's path, every song whose lower-cased file
/// name starts with the term and is longer is found.
pub proof fn law_search_finds_every_match(names: Seq<Seq<char>>, target: Seq<char>)
    requires
        !names.contains(target),
    ensures
        forall|i: int|
            0 <= i < names.len() && agrees(
                search_key(names[i]),
                encode_utf8(target),
                encode_utf8(target).len() as int,
            ) ==> #[trigger] search_result(names, target).contains(names[i]),
{
    let keys = search_keys(names);
    let t = encode_utf8(target);
    lemma_select_members(names, keys, t);
    assert forall|i: int|
        0 <= i < names.len() && agrees(search_key(names[i]), t, t.len() as int) implies #[trigger] search_result(
        names,
        target,
    ).contains(names[i]) by {
        assert(keys[i] == search_key(names[i]));
    }
}

proof fn lemma_encode_concat(a: Seq<char>, b: Seq<char>)
    ensures
        encode_utf8(a + b) == encode_utf8(a) + encode_utf8(b),
    decreases a.len(),
{
    if a.len() == 0 {
        assert(a + b =~= b);
        assert(encode_utf8(a) + encode_utf8(b) =~= encode_utf8(b));
    } else {
        lemma_encode_concat(a.drop_first(), b);
        assert((a + b).drop_first() =~= a.drop_first() + b);
        assert((a + b)[0] == a[0]);
        assert(encode_utf8(a + b) =~= encode_utf8(a) + encode_utf8(b));
    }
}

/// Whether a line of input may change the queue in this way: keep it, empty
/// it, or add one song that is in the library or among the matches offered.
pub open spec fn queue_change_allowed(before: SessionView, after: SessionView) -> bool {
    ||| after.queue == before.queue
    ||| after.queue.len() == 0
    ||| exists|x: Seq<char>|
        #![trigger before.queue.push(x)]
        (before.library.contains(x) || (before.choices is Some && before.choices.unwrap().contains(
            x,
        ))) && after.queue == before.queue.push(x)
}

proof fn lemma_add_from_library(s: SessionView, term: Seq<char>)
    requires
        on_add(s, term) is Some,
    ensures
        ({
            let t = on_add(s, term).unwrap().0;
            &&& t.library == s.library
            &&& queue_change_allowed(s, t)
            &&& t.choices matches Some(c) ==> (s.choices == t.choices || forall|x: Seq<char>|
                #[trigger] c.contains(x) ==> s.library.contains(x))
        }),
{
    law_search_finds_only_matches(s.library, term);
    let found = search_result(s.library, term);
    if found.len() == 1 {
        assert(found.contains(found[0]));
        assert(s.library.contains(found[0]));
    }
}

/// No line of input changes the library, and a line of input changes the
/// queue only by keeping it, emptying it, or adding one song that is in the
/// library or among the matches on offer; the matches it puts on offer are
/// songs of the library.
pub proof fn law_step_changes_queue_only_so(s: SessionView, line: Seq<char>, paused: bool)
    requires
        on_line(s, line, paused) is Some,
    ensures
        ({
            let t = on_line(s, line, paused).unwrap().0;
            &&& t.library == s.library
            &&& queue_change_allowed(s, t)
            &&& t.choices matches Some(c) ==> forall|x: Seq<char>|
                #[trigger] c.contains(x) ==> s.library.contains(x)
        }),
{
    let t = on_line(s, line, paused).unwrap().0;
    match s.choices {
        Some(songs) => {
            let c = crate::text::parse_usize_spec(line);
            if c is Some && 1 <= c.unwrap() && c.unwrap() - 1 < songs.len() {
                let x = songs[c.unwrap() - 1];
                assert(songs.contains(x));
                assert(t.queue == s.queue.push(x));
            }
        },
        None => {
            if line.len() > 0 {
                let cmd = crate::commands::parse_line(line).unwrap();
                match cmd {
                    crate::commands::CommandView::Add(term) => {
                        lemma_add_from_library(s, term);
                    },
                    _ => {},
                }
            }
        },
    }
}

/// Loading a playlist leaves the library as it is.
pub proof fn law_playlist_keeps_library(
    s: SessionView,
    name: Seq<char>,
    file: Seq<char>,
    text: Option<Seq<char>>,
)
    ensures
        on_playlist_text(s, name, file, text).0.library == s.library,
{
}

/// Whether the lower-cased file name of `x` starts with `term` and is longer.
pub open spec fn finds(term: Seq<char>, x: Seq<char>) -> bool {
    agrees(search_key(x), encode_utf8(term), encode_utf8(term).len() as int)
}

proof fn lemma_select_is_filter(names: Seq<Seq<char>>, term: Seq<char>)
    ensures
        select(names, search_keys(names), encode_utf8(term)) == names.filter(
            |x: Seq<char>| finds(term, x),
        ),
    decreases names.len(),
{
    let p = |x: Seq<char>| finds(term, x);
    if names.len() == 0 {
        reveal_with_fuel(Seq::filter, 1);
    } else {
        let init = names.drop_last();
        lemma_select_is_filter(init, term);
        assert(search_keys(names).take(names.len() - 1) =~= search_keys(init));
        assert(init.push(names.last()) =~= names);
        init.lemma_filter_push(names.last(), p);
    }
}

proof fn lemma_filter_twice(xs: Seq<Seq<char>>, p1: spec_fn(Seq<char>) -> bool, p2: spec_fn(Seq<char>) -> bool)
    requires
        forall|x: Seq<char>| #[trigger] p2(x) ==> p1(x),
    ensures
        xs.filter(p1).filter(p2) == xs.filter(p2),
    decreases xs.len(),
{
    if xs.len() == 0 {
        reveal_with_fuel(Seq::filter, 1);
    } else {
        let init = xs.drop_last();
        let x = xs.last();
        lemma_filter_twice(init, p1, p2);
        assert(init.push(x) =~= xs);
        init.lemma_filter_push(x, p1);
        init.lemma_filter_push(x, p2);
        init.filter(p1).lemma_filter_push(x, p2);
    }
}

/// When the term is not a song's path, the search keeps, in their order,
/// exactly the songs whose lower-cased file name starts with the term and is
/// longer.
pub proof fn law_search_is_an_ordered_filter(names: Seq<Seq<char>>, term: Seq<char>)
    requires
        !names.contains(term),
    ensures
        search_result(names, term) == names.filter(|x: Seq<char>| finds(term, x)),
{
    lemma_select_is_filter(names, term);
}

/// Typing more of a name finds a subsequence of what the shorter term
/// finds, in the same order, and never more songs (when neither term is a
/// song's path).
pub proof fn law_longer_term_finds_a_subsequence(
    names: Seq<Seq<char>>,
    term: Seq<char>,
    more: Seq<char>,
)
    requires
        !names.contains(term),
        !names.contains(term + more),
    ensures
        search_result(names, term + more) == search_result(names, term).filter(
            |x: Seq<char>| finds(term + more, x),
        ),
        search_result(names, term + more).len() <= search_result(names, term).len(),
{
    let p1 = |x: Seq<char>| finds(term, x);
    let p2 = |x: Seq<char>| finds(term + more, x);
    lemma_select_is_filter(names, term);
    lemma_select_is_filter(names, term + more);
    let t1 = encode_utf8(term);
    let t2 = encode_utf8(term + more);
    lemma_encode_concat(term, more);
    assert(t2.take(t1.len() as int) =~= t1);
    assert(t1.take(t1.len() as int) =~= t1);
    assert forall|x: Seq<char>| #[trigger] p2(x) implies p1(x) by {
        lemma_agrees_shorter(search_key(x), t2, t2.len() as int, t1.len() as int);
    }
    lemma_filter_twice(names, p1, p2);
    names.filter(p1).lemma_filter_len(p2);
}

/// Searching two lists of songs one after the other finds what searching
/// each finds, one after the other (when the term is a path of neither).
pub proof fn law_search_of_concatenation(a: Seq<Seq<char>>, b: Seq<Seq<char>>, term: Seq<char>)
    requires
        !a.contains(term),
        !b.contains(term),
    ensures
        search_result(a + b, term) == search_result(a, term) + search_result(b, term),
{
    let p = |x: Seq<char>| finds(term, x);
    assert(!(a + b).contains(term)) by {
        if (a + b).contains(term) {
            let i = choose|i: int| 0 <= i < (a + b).len() && (a + b)[i] == term;
            if i < a.len() {
                assert(a[i] == term);
            } else {
                assert(b[i - a.len()] == term);
            }
        }
    }
    lemma_select_is_filter(a, term);
    lemma_select_is_filter(b, term);
    lemma_select_is_filter(a + b, term);
    Seq::filter_distributes_over_add(a, b, p);
}

/// For an ASCII term and ASCII paths: the lower-cased file name of `x`, in
/// characters, starts with the term and is longer.
pub open spec fn ascii_finds(term: Seq<char>, x: Seq<char>) -> bool {
    let k = ascii_lowercase(basename(x));
    k.len() > term.len() && k.take(term.len() as int) == term
}

proof fn lemma_split_on_ascii(s: Seq<char>, sep: char)
    requires
        is_ascii_chars(s),
    ensures
        forall|i: int|
            0 <= i < split_on(s, sep).len() ==> is_ascii_chars(#[trigger] split_on(s, sep)[i]),
    decreases s.len(),
{
    if s.len() > 0 {
        let init = s.drop_last();
        assert(is_ascii_chars(init)) by {
            assert forall|i: int| 0 <= i < init.len() implies '\0' <= #[trigger] init[i] <= '\u{7f}' by {
                assert(init[i] == s[i]);
            }
        }
        lemma_split_on_ascii(init, sep);
        crate::text::lemma_split_on_nonempty(init, sep);
        let pieces = split_on(init, sep);
        let c = s.last();
        assert(s[s.len() - 1] == c);
        if c != sep {
            let last = pieces.last().push(c);
            assert(is_ascii_chars(pieces[pieces.len() - 1]));
            assert(is_ascii_chars(last)) by {
                assert forall|i: int| 0 <= i < last.len() implies '\0' <= #[trigger] last[i] <= '\u{7f}' by {
                    if i < last.len() - 1 {
                        assert(last[i] == pieces.last()[i]);
                    }
                }
            }
            let all = split_on(s, sep);
            assert forall|i: int| 0 <= i < all.len() implies is_ascii_chars(#[trigger] all[i]) by {
                if i < all.len() - 1 {
                    assert(all[i] == pieces[i]);
                }
            }
        } else {
            let all = split_on(s, sep);
            assert forall|i: int| 0 <= i < all.len() implies is_ascii_chars(#[trigger] all[i]) by {
                if i < all.len() - 1 {
                    assert(all[i] == pieces[i]);
                } else {
                    assert(all[i] =~= Seq::<char>::empty());
                }
            }
        }
    }
}

proof fn lemma_ascii_lowercase_ascii(s: Seq<char>)
    requires
        is_ascii_chars(s),
    ensures
        is_ascii_chars(ascii_lowercase(s)),
{
    assert forall|i: int| 0 <= i < s.len() implies '\0' <= #[trigger] ascii_lowercase(s)[i] <= '\u{7f}' by {
        let c = s[i];
        if 'A' <= c <= 'Z' {
            let u = (c as u32) + 32;
            assert(97 <= u <= 122);
            assert((u as char) as u32 == u);
        }
    }
}

proof fn lemma_ascii_bytes(c: Seq<char>)
    requires
        is_ascii_chars(c),
    ensures
        encode_utf8(c).len() == c.len(),
        forall|i: int| 0 <= i < c.len() ==> #[trigger] encode_utf8(c)[i] as int == c[i] as int,
        forall|k: int| 0 <= k <= c.len() ==> #[trigger] is_char_boundary(encode_utf8(c), k),
{
    broadcast use vstd::utf8::group_utf8_lib;

    let b = encode_utf8(c);
    assert forall|i: int| 0 <= i < c.len() implies #[trigger] b[i] as int == c[i] as int by {
        assert(c[i] as u8 == b[i]);
        assert((c[i] as nat) < 128);
    }
    assert(valid_utf8(b));
    assert forall|k: int| 0 <= k <= c.len() implies #[trigger] is_char_boundary(b, k) by {
        if k < c.len() {
            assert(b[k] as int == c[k] as int);
            assert((c[k] as nat) < 128);
            assert(!vstd::utf8::is_continuation_byte(b[k]));
        } else {
            assert(is_char_boundary(b, b.len() as int));
        }
    }
}

proof fn lemma_ascii_agrees(key: Seq<char>, t: Seq<char>)
    requires
        is_ascii_chars(key),
        is_ascii_chars(t),
    ensures
        agrees(encode_utf8(key), encode_utf8(t), encode_utf8(t).len() as int) == (key.len()
            > t.len() && key.take(t.len() as int) == t),
{
    lemma_ascii_bytes(key);
    lemma_ascii_bytes(t);
    let kb = encode_utf8(key);
    let tb = encode_utf8(t);
    let n = t.len() as int;
    if key.len() > t.len() {
        if kb.take(n) == tb.take(n) {
            assert forall|i: int| 0 <= i < n implies key.take(n)[i] == t[i] by {
                assert(kb.take(n)[i] == tb.take(n)[i]);
                assert(kb[i] as int == key[i] as int);
                assert(tb[i] as int == t[i] as int);
            }
            assert(key.take(n) =~= t);
        }
        if key.take(n) == t {
            assert forall|i: int| 0 <= i < n implies kb.take(n)[i] == tb.take(n)[i] by {
                assert(key.take(n)[i] == t[i]);
                assert(kb[i] as int == key[i] as int);
                assert(tb[i] as int == t[i] as int);
            }
            assert(kb.take(n) =~= tb.take(n));
        }
    }
}

proof fn lemma_filter_agrees(xs: Seq<Seq<char>>, p: spec_fn(Seq<char>) -> bool, q: spec_fn(Seq<char>) -> bool)
    requires
        forall|i: int| 0 <= i < xs.len() ==> p(#[trigger] xs[i]) == q(xs[i]),
    ensures
        xs.filter(p) == xs.filter(q),
    decreases xs.len(),
{
    if xs.len() == 0 {
        reveal_with_fuel(Seq::filter, 1);
    } else {
        let init = xs.drop_last();
        assert forall|i: int| 0 <= i < init.len() implies p(#[trigger] init[i]) == q(init[i]) by {
            assert(init[i] == xs[i]);
        }
        lemma_filter_agrees(init, p, q);
        assert(init.push(xs.last()) =~= xs);
        assert(p(xs[xs.len() - 1]) == q(xs[xs.len() - 1]));
        init.lemma_filter_push(xs.last(), p);
        init.lemma_filter_push(xs.last(), q);
    }
}

proof fn lemma_ascii_key(x: Seq<char>)
    requires
        is_ascii_chars(x),
    ensures
        is_ascii_chars(basename(x)),
        lowered(basename(x)) == ascii_lowercase(basename(x)),
        is_ascii_chars(ascii_lowercase(basename(x))),
        search_key(x) == encode_utf8(ascii_lowercase(basename(x))),
{
    lemma_split_on_ascii(x, '/');
    crate::text::lemma_split_on_nonempty(x, '/');
    let ps = split_on(x, '/');
    assert(is_ascii_chars(ps[ps.len() - 1]));
    lemma_ascii_lowercase_ascii(basename(x));
}

/// For an ASCII term that is not empty and ASCII song paths, the search can
/// always be carried out, and it finds the term itself when it is one of the
/// paths, else, in their order, the paths whose ASCII-lower-cased file name
/// starts with the term and is longer.
pub proof fn law_ascii_search(names: Seq<Seq<char>>, term: Seq<char>)
    requires
        term.len() > 0,
        is_ascii_chars(term),
        forall|i: int| 0 <= i < names.len() ==> is_ascii_chars(#[trigger] names[i]),
    ensures
        !search_fails(names, term),
        search_result(names, term) == if names.contains(term) {
            seq![term]
        } else {
            names.filter(|x: Seq<char>| ascii_finds(term, x))
        },
{
    let t = encode_utf8(term);
    lemma_ascii_bytes(term);
    let keys = search_keys(names);
    assert forall|i: int| 0 <= i < keys.len() implies {
        &&& is_ascii_chars(ascii_lowercase(basename(names[i])))
        &&& #[trigger] keys[i] == encode_utf8(ascii_lowercase(basename(names[i])))
    } by {
        lemma_ascii_key(names[i]);
    }
    assert(!narrowing_breaks(keys, t)) by {
        assert forall|k: int| 1 <= k <= t.len() implies !#[trigger] step_breaks(keys, t, k) by {
            assert(is_char_boundary(t, k));
            assert forall|i: int| 0 <= i < keys.len() && keys[i].len() > k implies is_char_boundary(#[trigger] keys[i], k) by {
                lemma_ascii_key(names[i]);
                lemma_ascii_bytes(ascii_lowercase(basename(names[i])));
            }
        }
    }
    if !names.contains(term) {
        law_search_is_an_ordered_filter(names, term);
        assert forall|i: int| 0 <= i < names.len() implies finds(term, #[trigger] names[i]) == ascii_finds(term, names[i]) by {
            lemma_ascii_key(names[i]);
            lemma_ascii_agrees(ascii_lowercase(basename(names[i])), term);
        }
        lemma_filter_agrees(names, |x: Seq<char>| finds(term, x), |x: Seq<char>| ascii_finds(term, x));
    }
}

/// Going back `n` songs undoes skipping ahead `n` songs, from any position
/// in a non-empty queue.
pub proof fn law_prev_undoes_next(cur: usize, n: usize, len: usize)
    requires
        cur < len,
    ensures
        prev_index(next_index(cur, n, len), n, len) == cur,
{
    let l = len as int;
    let c = (cur + n) % l;
    vstd::arithmetic::div_mod::lemma_mod_pos_bound(cur + n, l);
    vstd::arithmetic::div_mod::lemma_small_mod(c as nat, len as nat);
    vstd::arithmetic::div_mod::lemma_sub_mod_noop(c, n as int, l);
    vstd::arithmetic::div_mod::lemma_sub_mod_noop(cur + n, n as int, l);
    vstd::arithmetic::div_mod::lemma_small_mod(cur as nat, len as nat);
    assert(cur + n - n == cur);
}

/// Skipping ahead `n` songs and going back `n` songs both land in the queue,
/// wrapping around at its ends.
pub proof fn law_moves_wrap(cur: usize, n: usize, len: usize)
    requires
        len > 0,
    ensures
        next_index(cur, n, len) < len,
        prev_index(cur, n, len) < len,
        next_index(cur, n, len) == (cur + n) % (len as int),
        prev_index(cur, n, len) == (cur - n) % (len as int),
{
    vstd::arithmetic::div_mod::lemma_mod_pos_bound(cur + n, len as int);
    vstd::arithmetic::div_mod::lemma_mod_bound(cur - n, len as int);
}

/// The position is the start of an empty queue or a song of the queue.
pub open spec fn position_valid(s: SessionView) -> bool {
    if s.queue.len() == 0 {
        s.current == 0
    } else {
        s.current < s.queue.len()
    }
}

/// Every line of input keeps the position valid (it starts valid: an empty
/// queue at position 0).
pub proof fn law_position_stays_valid(s: SessionView, line: Seq<char>, paused: bool)
    requires
        s.queue.len() <= usize::MAX,
        position_valid(s),
        on_line(s, line, paused) is Some,
    ensures
        position_valid(on_line(s, line, paused).unwrap().0),
{
    let len = s.queue.len();
    if len > 0 {
        law_moves_wrap(s.current, 1, len as usize);
    }
    match s.choices {
        Some(songs) => {},
        None => {
            if line.len() > 0 && parse_line(line) is Some {
                match parse_line(line).unwrap() {
                    CommandView::Next(count) => {
                        let n: usize = if count is Some { count.unwrap() } else { 0 };
                        if len > 0 { law_moves_wrap(s.current, n, len as usize); }
                    },
                    CommandView::Prev(count) => {
                        let n: usize = if count is Some { count.unwrap() } else { 0 };
                        if len > 0 { law_moves_wrap(s.current, n, len as usize); }
                    },
                    _ => {},
                }
            }
        },
    }
}

/// Loading a playlist keeps the position valid.
pub proof fn law_playlist_position(
    s: SessionView,
    name: Seq<char>,
    file: Seq<char>,
    text: Option<Seq<char>>,
)
    requires
        position_valid(s),
    ensures
        position_valid(on_playlist_text(s, name, file, text).0),
{
    if text is Some {
        crate::text::lemma_split_on_nonempty(text.unwrap(), '\n');
    }
}

/// The inputs that cannot be handled, at a valid position: a choice one
/// past the matches offered, a line of blanks, a search term that cannot be
/// compared, `playlist new` without a name while the queue holds songs, and
/// `playlist load` without a name. Every other line is handled.
pub open spec fn unhandled(s: SessionView, line: Seq<char>) -> bool {
    match s.choices {
        Some(songs) => parse_usize_spec(line) matches Some(c) && c == songs.len() + 1,
        None => line.len() > 0 && match parse_line(line) {
            None => true,
            Some(cmd) => match cmd {
                CommandView::Add(term) => search_fails(s.library, term),
                CommandView::Playlist(PlaylistCommandView::New(None)) => s.queue.len() > 0,
                CommandView::Playlist(PlaylistCommandView::Load(None)) => true,
                _ => false,
            },
        },
    }
}

/// At a valid position, a line of input is refused exactly in the cases of
/// `unhandled`; in particular `next`, `prev`, `replay`, `show`, `clear`,
/// the end of a track and every `add` whose term can be compared always go
/// through.
pub proof fn law_only_listed_inputs_fail(s: SessionView, line: Seq<char>, paused: bool)
    requires
        s.queue.len() <= usize::MAX,
        position_valid(s),
    ensures
        on_line(s, line, paused) is None <==> unhandled(s, line),
{
    let len = s.queue.len();
    match s.choices {
        Some(songs) => {},
        None => {
            if line.len() > 0 && parse_line(line) is Some {
                match parse_line(line).unwrap() {
                    CommandView::Next(count) => {
                        let n: usize = if count is Some { count.unwrap() } else { 0 };
                        if len > 0 { law_moves_wrap(s.current, n, len as usize); }
                    },
                    CommandView::Prev(count) => {
                        let n: usize = if count is Some { count.unwrap() } else { 0 };
                        if len > 0 { law_moves_wrap(s.current, n, len as usize); }
                    },
                    CommandView::TrackEnded => {
                        if len > 0 { law_moves_wrap(s.current, 1, len as usize); }
                    },
                    _ => {},
                }
            }
        },
    }
}

/// After a skip, the report that the skipped track ended changes neither
/// the queue nor the position and plays nothing; it only clears the mark.
pub proof fn law_skip_then_end_stays(s: SessionView, count: Option<usize>)
    requires
        on_next(s, count) is Some,
    ensures
        ({
            let after = on_next(s, count).unwrap().0;
            s.queue.len() > 0 ==> on_track_ended(after) == Some(
                (SessionView { interrupted: false, ..after }, Seq::<ActionView>::empty()),
            )
        }),
{
}

/// Saving the queue as a playlist and loading that playlist makes the same
/// queue again: the playlist file written by `playlist new <name>`, read
/// back by `playlist load <name>`, holds the queue's songs in order (songs
/// whose paths hold no line break).
pub proof fn law_saved_playlist_restores_queue(s: SessionView, later: SessionView, name: Seq<char>)
    requires
        s.queue.len() > 0,
        forall|i: int| 0 <= i < s.queue.len() ==> !(#[trigger] s.queue[i]).contains('\n'),
    ensures
        on_playlist(s, PlaylistCommandView::New(Some(name))) == Some(
            (s, seq![ActionView::SavePlaylist(playlist_file(name), playlist_text(s.queue))]),
        ),
        on_playlist_text(later, name, playlist_file(name), Some(playlist_text(s.queue))).0.queue
            == s.queue,
{
    law_playlist_round_trip(s.queue);
}

} // verus!
