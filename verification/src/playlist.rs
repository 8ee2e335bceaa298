//! Playlists: a queue saved as a text file of song paths, one per line,
//! stored under the playlist's name with the extension `.list`.
use vstd::prelude::*;
use crate::actions::{Action, ActionView, Note};
use crate::text::{join, join_with, split_at_char, split_on, stem, stem_of, texts, lemma_split_on_nonempty};

verus! {

/// The name of the file that holds the playlist `name`.
pub open spec fn playlist_file(name: Seq<char>) -> Seq<char> {
    name + ".list"@
}

/// The text of a playlist file for the queue.
pub open spec fn playlist_text(queue: Seq<Seq<char>>) -> Seq<char> {
    join(queue, '\n')
}

/// The queue a playlist file's text holds: one song per line.
pub open spec fn playlist_songs(text: Seq<char>) -> Seq<Seq<char>> {
    split_on(text, '\n')
}

/// The name of the file that holds the playlist `name`.
pub fn playlist_file_name(name: &String) -> (r: String)
    ensures
        r@ == playlist_file(name@),
{
    let mut f = name.clone();
    f.append(".list");
    f
}

/// What saving the queue as playlist `name` writes: the file name and the
/// file's text.
pub fn make_playlist(queue: &Vec<String>, name: &String) -> (r: (String, String))
    ensures
        r.0@ == playlist_file(name@),
        r.1@ == playlist_text(texts(queue@)),
{
    (playlist_file_name(name), join_with(queue, '\n'))
}

/// The queue that a playlist file's text holds.
pub fn load_playlist(text: &str) -> (r: Vec<String>)
    ensures
        texts(r@) == playlist_songs(text@),
        r.len() >= 1,
{
    proof {
        lemma_split_on_nonempty(text@, '\n');
    }
    split_at_char(text, '\n')
}

/// What listing the stored playlists shows, given the names of the files in
/// the playlist folder: "No playlists", or the playlists' names (each file
/// name up to its first `.`) in a frame titled "Playlists".
pub fn show_playlists(file_names: &Vec<String>) -> (r: Action)
    ensures
        file_names.len() == 0 ==> r@ == ActionView::Say(Note::NoPlaylists),
        file_names.len() > 0 ==> r@ == ActionView::Show(
            "Playlists"@,
            texts(file_names@).map_values(|f: Seq<char>| stem(f)),
            None,
        ),
{
    if file_names.len() == 0 {
        return Action::Say(Note::NoPlaylists);
    }
    let mut names: Vec<String> = Vec::new();
    let mut i: usize = 0;
    while i < file_names.len()
        invariant
            i <= file_names.len(),
            texts(names@) =~= texts(file_names@).take(i as int).map_values(
                |f: Seq<char>| stem(f),
            ),
        decreases file_names.len() - i,
    {
        let s = stem_of(file_names[i].as_str());
        let ghost before = names@;
        names.push(s);
        assert(texts(names@) =~= texts(before).push(s@));
        assert(texts(file_names@).take(i + 1) =~= texts(file_names@).take(i as int).push(
            file_names@[i as int]@,
        ));
        assert(texts(names@) =~= texts(file_names@).take(i + 1).map_values(
            |f: Seq<char>| stem(f),
        ));
        i = i + 1;
    }
    assert(texts(file_names@).take(file_names.len() as int) =~= texts(file_names@));
    Action::Show("Playlists".to_owned(), names, None)
}

proof fn lemma_split_on_tail(x: Seq<char>, t: Seq<char>, sep: char)
    requires
        !t.contains(sep),
    ensures
        split_on(x + t, sep) == split_on(x, sep).drop_last().push(split_on(x, sep).last() + t),
    decreases t.len(),
{
    lemma_split_on_nonempty(x, sep);
    if t.len() == 0 {
        assert(x + t =~= x);
        assert(split_on(x, sep).last() + t =~= split_on(x, sep).last());
        assert(split_on(x, sep).drop_last().push(split_on(x, sep).last()) =~= split_on(x, sep));
    } else {
        let t0 = t.drop_last();
        let c = t.last();
        assert(!t0.contains(sep)) by {
            if t0.contains(sep) {
                let i = choose|i: int| 0 <= i < t0.len() && t0[i] == sep;
                assert(t[i] == sep);
            }
        }
        assert(c != sep) by {
            assert(t[t.len() - 1] == c);
        }
        lemma_split_on_tail(x, t0, sep);
        assert((x + t).drop_last() =~= x + t0);
        assert((x + t).last() == c);
        let s = split_on(x, sep);
        assert(s.last() + t =~= (s.last() + t0).push(c));
        assert(split_on(x + t, sep) =~= s.drop_last().push(s.last() + t));
    }
}

/// Saving a queue as a playlist and loading it gives the queue back,
/// for a non-empty queue whose songs hold no line break.
pub proof fn law_playlist_round_trip(queue: Seq<Seq<char>>)
    requires
        queue.len() >= 1,
        forall|i: int| 0 <= i < queue.len() ==> !(#[trigger] queue[i]).contains('\n'),
    ensures
        playlist_songs(playlist_text(queue)) == queue,
    decreases queue.len(),
{
    let e = Seq::<char>::empty();
    if queue.len() == 1 {
        lemma_split_on_tail(e, queue[0], '\n');
        assert(e + queue[0] =~= queue[0]);
        assert(split_on(e, '\n') =~= seq![e]);
        assert(e + queue[0] =~= queue[0]);
        assert(seq![e].drop_last().push(e + queue[0]) =~= queue);
    } else {
        let rest = queue.drop_last();
        let t = queue.last();
        assert forall|i: int| 0 <= i < rest.len() implies !(#[trigger] rest[i]).contains('\n') by {
            assert(rest[i] == queue[i]);
        }
        law_playlist_round_trip(rest);
        assert(!t.contains('\n')) by {
            assert(queue[queue.len() - 1] == t);
        }
        let x = join(rest, '\n') + seq!['\n'];
        lemma_split_on_tail(x, t, '\n');
        assert(x.drop_last() =~= join(rest, '\n'));
        assert(split_on(x, '\n') =~= rest.push(e));
        assert(e + t =~= t);
        assert(join(queue, '\n') == x + t);
        assert(rest.push(e).drop_last().push(e + t) =~= queue);
    }
}

/// Loading a playlist file and saving it again writes the same text.
pub proof fn law_playlist_text_kept(text: Seq<char>)
    ensures
        playlist_text(playlist_songs(text)) == text,
    decreases text.len(),
{
    if text.len() > 0 {
        let init = text.drop_last();
        law_playlist_text_kept(init);
        lemma_split_on_nonempty(init, '\n');
        let pieces = split_on(init, '\n');
        if text.last() == '\n' {
            assert(pieces.push(Seq::<char>::empty()).drop_last() =~= pieces);
            assert(join(pieces.push(Seq::<char>::empty()), '\n') =~= init + seq!['\n']);
        } else {
            let c = text.last();
            let next = pieces.drop_last().push(pieces.last().push(c));
            if pieces.len() == 1 {
                assert(next =~= seq![pieces[0].push(c)]);
                assert(join(pieces, '\n') == pieces[0]);
            } else {
                assert(next.drop_last() =~= pieces.drop_last());
                assert(join(next, '\n') =~= join(pieces, '\n').push(c));
            }
        }
        assert(text =~= init.push(text.last()));
    }
}

proof fn lemma_split_on_extend(a: Seq<char>, b: Seq<char>, sep: char)
    ensures
        split_on(a + b, sep).len() >= split_on(a, sep).len(),
        forall|i: int|
            0 <= i < split_on(a, sep).len() - 1 ==> #[trigger] split_on(a + b, sep)[i] == split_on(
                a,
                sep,
            )[i],
    decreases b.len(),
{
    lemma_split_on_nonempty(a, sep);
    if b.len() == 0 {
        assert(a + b =~= a);
    } else {
        let b0 = b.drop_last();
        lemma_split_on_extend(a, b0, sep);
        assert((a + b).drop_last() =~= a + b0);
        lemma_split_on_nonempty(a + b0, sep);
    }
}

/// A playlist saved under a name without a dot is listed under that name:
/// the file it is stored in, cut at its first `.`, gives the name back.
pub proof fn law_saved_name_is_listed(name: Seq<char>)
    requires
        !name.contains('.'),
    ensures
        stem(playlist_file(name)) == name,
{
    reveal_strlit(".list");
    let e = Seq::<char>::empty();
    let dotted = name.push('.');
    lemma_split_on_tail(e, name, '.');
    assert(e + name =~= name);
    assert(split_on(e, '.') =~= seq![e]);
    assert(split_on(name, '.') =~= seq![name]);
    assert(dotted.drop_last() =~= name);
    assert(split_on(dotted, '.') =~= seq![name, e]);
    let rest = seq!['l', 'i', 's', 't'];
    assert(playlist_file(name) =~= dotted + rest);
    lemma_split_on_extend(dotted, rest, '.');
}

} // verus!
