//! Finding songs by name. A song matches a search term when the lower-cased
//! file name of the song (the last path component) starts with the term and
//! is strictly longer than it, byte for byte; an exact path wins outright.
//!
//! The term is compared one byte-prefix length after another, as a user
//! would type it, and a prefix that ends inside a multi-byte character
//! makes that comparison fail; `try_search` reports those inputs.
use vstd::prelude::*;
use vstd::utf8::*;
use crate::text::{basename, basename_of, texts};

verus! {

broadcast use vstd::utf8::group_utf8_lib;

/// The lower-case mapping of a character sequence that is not all ASCII,
/// as `str::to_lowercase` computes it (Unicode's lower-case mapping; it
/// depends on the characters alone).
pub uninterp spec fn lowercase(s: Seq<char>) -> Seq<char>;

/// The ASCII lower-casing of a character sequence: `A`..`Z` become
/// `a`..`z`, every other character stays.
pub open spec fn ascii_lowercase(s: Seq<char>) -> Seq<char> {
    Seq::new(
        s.len(),
        |i: int|
            if 'A' <= s[i] <= 'Z' {
                ((s[i] as u32) + 32) as char
            } else {
                s[i]
            },
    )
}

/// Lower-cases a string.
/// Calls `str::to_lowercase`. The contract names its result `lowercase` of
/// the argument's characters; of ASCII text it states what the Unicode case
/// mapping gives there (the documentation defines lower case by Unicode's
/// `Lowercase` property): `A`..`Z` become `a`..`z` and every other ASCII
/// character stays. The mapping of other characters is not restated.
#[verifier::external_body]
fn to_lowercase(s: &str) -> (r: String)
    ensures
        !is_ascii_chars(s@) ==> r@ == lowercase(s@),
        is_ascii_chars(s@) ==> r@ == ascii_lowercase(s@),
{
    s.to_lowercase()
}

/// What `str::to_lowercase` gives: the ASCII lower-casing of ASCII text,
/// and `lowercase` of any other text.
pub open spec fn lowered(s: Seq<char>) -> Seq<char> {
    if is_ascii_chars(s) {
        ascii_lowercase(s)
    } else {
        lowercase(s)
    }
}

/// The bytes a song is compared on: its lower-cased file name in UTF-8.
pub open spec fn search_key(name: Seq<char>) -> Seq<u8> {
    encode_utf8(lowered(basename(name)))
}

/// The byte strings of a sequence of strings.
pub open spec fn key_bytes(v: Seq<String>) -> Seq<Seq<u8>> {
    v.map_values(|s: String| encode_utf8(s@))
}

pub open spec fn search_keys(names: Seq<Seq<char>>) -> Seq<Seq<u8>> {
    names.map_values(|n: Seq<char>| search_key(n))
}

/// `key` is longer than `k` bytes and its first `k` bytes are those of `t`.
pub open spec fn agrees(key: Seq<u8>, t: Seq<u8>, k: int) -> bool {
    key.len() > k && key.take(k) == t.take(k)
}

/// `key` is still a candidate after comparing `k` bytes (every key is one
/// before any byte is compared).
pub open spec fn survives(key: Seq<u8>, t: Seq<u8>, k: int) -> bool {
    k == 0 || agrees(key, t, k)
}

/// The comparison of the first `k` bytes takes place: it is the first one,
/// or some key survived the comparison before it.
pub open spec fn step_reached(keys: Seq<Seq<u8>>, t: Seq<u8>, k: int) -> bool {
    k == 1 || exists|i: int| #![trigger keys[i]] 0 <= i < keys.len() && survives(keys[i], t, k - 1)
}

/// Comparing the first `k` bytes cuts the term, or a surviving key longer
/// than `k` bytes, inside a character.
pub open spec fn step_breaks(keys: Seq<Seq<u8>>, t: Seq<u8>, k: int) -> bool {
    ||| !is_char_boundary(t, k)
    ||| exists|i: int|
        #![trigger keys[i]]
        0 <= i < keys.len() && survives(keys[i], t, k - 1) && keys[i].len() > k
            && !is_char_boundary(keys[i], k)
}

/// The byte-by-byte narrowing cannot be carried out: the term is empty, or
/// some comparison that takes place breaks a character.
pub open spec fn narrowing_breaks(keys: Seq<Seq<u8>>, t: Seq<u8>) -> bool {
    t.len() == 0 || exists|k: int|
        #![trigger step_breaks(keys, t, k)]
        1 <= k <= t.len() && step_reached(keys, t, k) && step_breaks(keys, t, k)
}

/// The names, in order, whose key agrees with all of `t`.
pub open spec fn select(names: Seq<Seq<char>>, keys: Seq<Seq<u8>>, t: Seq<u8>) -> Seq<Seq<char>>
    decreases names.len(),
{
    if names.len() == 0 {
        Seq::empty()
    } else {
        let rest = select(names.drop_last(), keys.take(names.len() - 1), t);
        if agrees(keys[names.len() - 1], t, t.len() as int) {
            rest.push(names.last())
        } else {
            rest
        }
    }
}

/// Searching for `target` among `names` cannot be carried out.
pub open spec fn search_fails(names: Seq<Seq<char>>, target: Seq<char>) -> bool {
    !names.contains(target) && narrowing_breaks(search_keys(names), encode_utf8(target))
}

/// What a search returns: the target itself when it is one of the names,
/// else every name whose key starts with the target's bytes and is longer.
pub open spec fn search_result(names: Seq<Seq<char>>, target: Seq<char>) -> Seq<Seq<char>> {
    if names.contains(target) {
        seq![target]
    } else {
        select(names, search_keys(names), encode_utf8(target))
    }
}

pub proof fn lemma_agrees_shorter(key: Seq<u8>, t: Seq<u8>, j: int, k: int)
    requires
        0 <= k <= j <= t.len(),
        agrees(key, t, j),
    ensures
        agrees(key, t, k),
{
    assert(key.take(k) =~= key.take(j).take(k));
    assert(t.take(k) =~= t.take(j).take(k));
}

fn contains_text(names: &Vec<String>, target: &String) -> (r: bool)
    ensures
        r == texts(names@).contains(target@),
{
    let mut i: usize = 0;
    while i < names.len()
        invariant
            i <= names.len(),
            forall|j: int| 0 <= j < i ==> texts(names@)[j] != target@,
        decreases names.len() - i,
    {
        if names[i] == *target {
            assert(texts(names@)[i as int] == target@);
            return true;
        }
        i = i + 1;
    }
    false
}

/// The lower-cased file names of the given paths.
fn lowered_names(names: &Vec<String>) -> (keys: Vec<String>)
    ensures
        keys.len() == names.len(),
        forall|i: int|
            0 <= i < names.len() ==> #[trigger] keys@[i]@ == lowered(basename(names@[i]@)),
{
    let mut keys: Vec<String> = Vec::new();
    let mut i: usize = 0;
    while i < names.len()
        invariant
            i <= names.len(),
            keys.len() == i,
            forall|j: int|
                0 <= j < i ==> #[trigger] keys@[j]@ == lowered(basename(names@[j]@)),
        decreases names.len() - i,
    {
        let base = basename_of(names[i].as_str());
        keys.push(to_lowercase(base.as_str()));
        i = i + 1;
    }
    keys
}

/// Whether `key` is longer than `k` bytes and starts with the first `k`
/// bytes of `t`.
fn bytes_agree(key: &[u8], t: &[u8], k: usize) -> (r: bool)
    requires
        k <= t@.len(),
    ensures
        r == agrees(key@, t@, k as int),
{
    if key.len() <= k {
        return false;
    }
    let mut j: usize = 0;
    while j < k
        invariant
            j <= k < key@.len(),
            k <= t@.len(),
            key@.take(j as int) == t@.take(j as int),
        decreases k - j,
    {
        if key[j] != t[j] {
            assert(key@.take(k as int)[j as int] != t@.take(k as int)[j as int]);
            return false;
        }
        assert(key@.take(j + 1) =~= key@.take(j as int).push(key@[j as int]));
        assert(t@.take(j + 1) =~= t@.take(j as int).push(t@[j as int]));
        j = j + 1;
    }
    true
}

/// Whether narrowing `keys` down byte by byte towards `target` can be carried
/// out, each comparison ending on character boundaries of the term and of
/// every key still in the running that is long enough to be compared.
pub fn narrowing_holds(keys: &Vec<String>, target: &str) -> (ok: bool)
    ensures
        ok == !narrowing_breaks(key_bytes(keys@), encode_utf8(target@)),
{
    let ghost kb = key_bytes(keys@);
    let t = target.as_bytes();
    let ghost tb = t@;
    assert(tb == encode_utf8(target@));
    let n = t.len();
    if n == 0 {
        return false;
    }
    let mut cur: Vec<usize> = Vec::new();
    let mut i: usize = 0;
    while i < keys.len()
        invariant
            i <= keys.len(),
            cur@ =~= Seq::new(i as nat, |j: int| j as usize),
        decreases keys.len() - i,
    {
        cur.push(i);
        i = i + 1;
    }
    assert forall|j: int| #![trigger kb[j]] 0 <= j < keys.len() implies cur@.contains(
        j as usize,
    ) by {
        assert(cur@[j] == j as usize);
    }
    let mut k: usize = 1;
    while k <= n
        invariant
            1 <= k <= n,
            n == tb.len(),
            t@ == tb,
            kb == key_bytes(keys@),
            tb == encode_utf8(target@),
            forall|x: int| 0 <= x < cur.len() ==> cur@[x] < keys.len(),
            forall|j: int|
                #![trigger kb[j]]
                0 <= j < keys.len() ==> (cur@.contains(j as usize) <==> survives(
                    kb[j],
                    tb,
                    k - 1,
                )),
            k == 1 || cur.len() > 0,
            forall|j: int|
                #![trigger step_breaks(kb, tb, j)]
                1 <= j < k ==> !(step_reached(kb, tb, j) && step_breaks(kb, tb, j)),
        decreases n + 1 - k,
    {
        let ghost reached = step_reached(kb, tb, k as int);
        proof {
            if k > 1 {
                let i0 = cur@[0] as int;
                assert(cur@.contains(cur@[0]));
                assert(survives(kb[i0], tb, k - 1));
            }
            assert(reached);
        }
        if !target.is_char_boundary(k) {
            assert(step_breaks(kb, tb, k as int));
            return false;
        }
        let ghost pred = |x: usize| agrees(kb[x as int], tb, k as int);
        let mut next: Vec<usize> = Vec::new();
        let mut p: usize = 0;
        assert(cur@.take(0) =~= Seq::<usize>::empty());
        proof {
            reveal_with_fuel(Seq::filter, 1);
        }
        while p < cur.len()
            invariant
                p <= cur.len(),
                1 <= k <= n,
                n == tb.len(),
                t@ == tb,
                kb == key_bytes(keys@),
                tb == encode_utf8(target@),
                step_reached(kb, tb, k as int),
                pred == (|x: usize| agrees(kb[x as int], tb, k as int)),
                forall|x: int| 0 <= x < cur.len() ==> cur@[x] < keys.len(),
                forall|j: int|
                    #![trigger kb[j]]
                    0 <= j < keys.len() ==> (cur@.contains(j as usize) <==> survives(
                        kb[j],
                        tb,
                        k - 1,
                    )),
                next@ == cur@.take(p as int).filter(pred),
                forall|x: int| 0 <= x < next.len() ==> next@[x] < keys.len(),
                forall|q: int|
                    #![trigger cur@[q]]
                    0 <= q < p ==> !(kb[cur@[q] as int].len() > k && !is_char_boundary(
                        kb[cur@[q] as int],
                        k as int,
                    )),
            decreases cur.len() - p,
        {
            let idx = cur[p];
            let key = keys[idx].as_str();
            let kbytes = key.as_bytes();
            assert(kbytes@ == kb[idx as int]);
            assert(cur@.take(p + 1) =~= cur@.take(p as int).push(idx));
            proof {
                cur@.take(p as int).lemma_filter_push(idx, pred);
            }
            assert(cur@.contains(idx));
            if kbytes.len() > k {
                if !key.is_char_boundary(k) {
                    assert(survives(kb[idx as int], tb, k - 1));
                    assert(step_breaks(kb, tb, k as int));
                    assert(narrowing_breaks(kb, tb));
                    return false;
                }
                if bytes_agree(kbytes, t, k) {
                    next.push(idx);
                }
            } else {
                assert(!agrees(kb[idx as int], tb, k as int));
            }
            p = p + 1;
        }
        assert(cur@.take(cur.len() as int) =~= cur@);
        assert(!step_breaks(kb, tb, k as int)) by {
            assert forall|j: int|
                #![trigger kb[j]]
                0 <= j < keys.len() && survives(kb[j], tb, k - 1) && kb[j].len() > k implies is_char_boundary(
                kb[j],
                k as int,
            ) by {
                assert(cur@.contains(j as usize));
                let q = choose|q: int| 0 <= q < cur.len() && cur@[q] == j as usize;
                assert(!(kb[cur@[q] as int].len() > k && !is_char_boundary(
                    kb[cur@[q] as int],
                    k as int,
                )));
            }
        }
        assert forall|j: int| #![trigger kb[j]] 0 <= j < keys.len() implies (next@.contains(
            j as usize,
        ) <==> survives(kb[j], tb, k as int)) by {
            if next@.contains(j as usize) {
                cur@.lemma_filter_contains_rev(pred, j as usize);
                let w = choose|w: int| 0 <= w < next@.len() && next@[w] == j as usize;
                cur@.lemma_filter_pred(pred, w);
            }
            if agrees(kb[j], tb, k as int) {
                lemma_agrees_shorter(kb[j], tb, k as int, k - 1);
                assert(cur@.contains(j as usize));
                let w = choose|w: int| 0 <= w < cur@.len() && cur@[w] == j as usize;
                cur@.lemma_filter_contains(pred, w);
            }
        }
        if next.len() == 0 {
            assert(!narrowing_breaks(kb, tb)) by {
                assert forall|j: int|
                    #![trigger step_breaks(kb, tb, j)]
                    1 <= j <= tb.len() implies !(step_reached(kb, tb, j) && step_breaks(
                    kb,
                    tb,
                    j,
                )) by {
                    if j > k && step_reached(kb, tb, j) {
                        let w = choose|w: int|
                            #![trigger kb[w]]
                            0 <= w < kb.len() && survives(kb[w], tb, j - 1);
                        lemma_agrees_shorter(kb[w], tb, j - 1, k as int);
                        assert(next@.contains(w as usize));
                        assert(false);
                    }
                }
            }
            return true;
        }
        if k == n {
            assert(!narrowing_breaks(kb, tb)) by {
                assert forall|j: int|
                    #![trigger step_breaks(kb, tb, j)]
                    1 <= j <= tb.len() implies !(step_reached(kb, tb, j) && step_breaks(
                    kb,
                    tb,
                    j,
                )) by {
                    if j < k {
                    }
                }
            }
            return true;
        }
        cur = next;
        k = k + 1;
    }
    true
}

/// The names, in order, whose key (given at the same position in `keys`)
/// is longer than `target` and starts with its bytes.
pub fn select_matches(names: &Vec<String>, keys: &Vec<String>, target: &str) -> (r: Vec<String>)
    requires
        keys.len() == names.len(),
    ensures
        texts(r@) == select(texts(names@), key_bytes(keys@), encode_utf8(target@)),
{
    let t = target.as_bytes();
    let n = t.len();
    let ghost tb = encode_utf8(target@);
    let ghost all = texts(names@);
    let ghost kb = key_bytes(keys@);
    let mut r: Vec<String> = Vec::new();
    let mut i: usize = 0;
    while i < names.len()
        invariant
            i <= names.len() == keys.len(),
            t@ == tb,
            n == tb.len(),
            all == texts(names@),
            kb == key_bytes(keys@),
            texts(r@) == select(all.take(i as int), kb.take(i as int), tb),
        decreases names.len() - i,
    {
        let key = keys[i].as_str();
        let ok = bytes_agree(key.as_bytes(), t, n);
        assert(all.take(i + 1).drop_last() =~= all.take(i as int));
        assert(kb.take(i + 1).take(i as int) =~= kb.take(i as int));
        assert(kb.take(i + 1)[i as int] == kb[i as int]);
        if ok {
            r.push(names[i].clone());
            assert(texts(r@) =~= select(all.take(i as int), kb.take(i as int), tb).push(
                all[i as int],
            ));
        }
        i = i + 1;
    }
    assert(all.take(names.len() as int) =~= all);
    assert(kb.take(names.len() as int) =~= kb);
    r
}

/// Searches `names_in` for `target`: `[target]` when it is one of the names,
/// otherwise every name whose lower-cased file name starts with the bytes of
/// `target` and is longer, in their order.
pub fn search(names_in: &Vec<String>, target: &String) -> (r: Vec<String>)
    requires
        !search_fails(texts(names_in@), target@),
    ensures
        texts(r@) == search_result(texts(names_in@), target@),
{
    if contains_text(names_in, target) {
        let v = vec![target.clone()];
        assert(texts(v@) =~= seq![target@]);
        return v;
    }
    let keys = lowered_names(names_in);
    let r = select_matches(names_in, &keys, target.as_str());
    assert(key_bytes(keys@) =~= search_keys(texts(names_in@)));
    r
}

/// Searches as `search` does where the search can be carried out, and
/// returns `None` exactly where it cannot (see `search_fails`).
pub fn try_search(names_in: &Vec<String>, target: &String) -> (r: Option<Vec<String>>)
    ensures
        r is None <==> search_fails(texts(names_in@), target@),
        r matches Some(v) ==> texts(v@) == search_result(texts(names_in@), target@),
{
    if !contains_text(names_in, target) {
        let keys = lowered_names(names_in);
        assert(key_bytes(keys@) =~= search_keys(texts(names_in@)));
        if !narrowing_holds(&keys, target.as_str()) {
            return None;
        }
    }
    Some(search(names_in, target))
}

} // verus!
