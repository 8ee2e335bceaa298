//! The framed lists the player shows (the queue, the current song, the
//! playlists): a top border carrying the title, one row per entry with a
//! mark before the entry playing, and a bottom border.
//!
//! The frame is as wide as the longest of the entries and the title counted
//! in UTF-8 bytes, plus six; the padding is counted in characters, so text
//! outside ASCII makes a row shorter than the borders.
use vstd::prelude::*;
use vstd::utf8::encode_utf8;
use crate::text::{char_list, push_char, texts};

verus! {

/// The length of a string in UTF-8 bytes (`str::len`).
pub open spec fn byte_len(s: Seq<char>) -> nat {
    encode_utf8(s).len()
}

/// The largest byte length among the strings (0 for none).
pub open spec fn widest(v: Seq<Seq<char>>) -> nat
    decreases v.len(),
{
    if v.len() == 0 {
        0
    } else {
        let w = widest(v.drop_last());
        if byte_len(v.last()) > w {
            byte_len(v.last())
        } else {
            w
        }
    }
}

/// The width of the entries' column: the widest of the entries and the title.
pub open spec fn frame_width(data: Seq<Seq<char>>, title: Seq<char>) -> nat {
    widest(data.push(title))
}

/// `s` followed by `fill` up to `width` characters (`{:<width$}`).
pub open spec fn padded(s: Seq<char>, width: nat, fill: char) -> Seq<char> {
    if s.len() >= width {
        s
    } else {
        s + Seq::new((width - s.len()) as nat, |i: int| fill)
    }
}

/// The mark before row `i`: `|>` for the selected row, blank otherwise.
/// The selection is compared as a 32-bit signed number, as the row counter is.
pub open spec fn row_mark(selected: Option<usize>, i: int) -> Seq<char> {
    if selected is Some && (selected.unwrap() as i32) as int == i {
        "|>"@
    } else {
        "  "@
    }
}

/// One row of a frame: the mark, and the entry padded to the column width.
pub struct FrameRow {
    pub mark: String,
    pub text: String,
}

/// A framed list, ready to print with `│ ` before and `  │` after each row.
pub struct Frame {
    pub top: String,
    pub rows: Vec<FrameRow>,
    pub bottom: String,
}

/// `s` padded with `fill` to `width` characters.
fn pad(s: &String, width: usize, fill: char) -> (r: String)
    ensures
        r@ == padded(s@, width as nat, fill),
{
    let n = char_list(s.as_str()).len();
    let mut r = s.clone();
    if n >= width {
        return r;
    }
    let mut i = n;
    while i < width
        invariant
            n <= i <= width,
            n == s@.len(),
            r@ == s@ + Seq::new((i - n) as nat, |j: int| fill),
        decreases width - i,
    {
        push_char(&mut r, fill);
        assert(s@ + Seq::new((i + 1 - n) as nat, |j: int| fill) =~= (s@ + Seq::new(
            (i - n) as nat,
            |j: int| fill,
        )).push(fill));
        i = i + 1;
    }
    r
}

/// Lays out `data` in a frame titled `title`, marking the row `selected`
/// (what the player prints for the queue, the current song and the
/// playlists).
pub fn pretty_print(data: &Vec<String>, title: &String, selected: Option<usize>) -> (r: Frame)
    requires
        data.len() <= 0x8000_0000,
        frame_width(texts(data@), title@) + 6 <= usize::MAX,
    ensures
        ({
            let w = frame_width(texts(data@), title@);
            &&& r.top@ == seq!['╭'] + padded(title@, w + 6, '─') + seq!['╮']
            &&& r.rows.len() == data.len()
            &&& forall|i: int|
                0 <= i < data.len() ==> (#[trigger] r.rows@[i]).mark@ == row_mark(selected, i)
                    && r.rows@[i].text@ == padded(data@[i]@, w, ' ')
            &&& r.bottom@ == seq!['╰'] + Seq::new(w + 6, |i: int| '─') + seq!['╯']
        }),
{
    let ghost all = texts(data@).push(title@);
    let mut width: usize = 0;
    let mut i: usize = 0;
    while i < data.len()
        invariant
            i <= data.len(),
            all == texts(data@).push(title@),
            width == widest(all.take(i as int)),
            widest(all) + 6 <= usize::MAX,
        decreases data.len() - i,
    {
        let len = data[i].as_str().len();
        assert(all.take(i + 1).drop_last() =~= all.take(i as int));
        assert(all.take(i + 1).last() == data@[i as int]@);
        proof {
            lemma_widest_prefix(all, i + 1);
        }
        if len > width {
            width = len;
        }
        i = i + 1;
    }
    let tlen = title.as_str().len();
    assert(all.take(data.len() + 1) =~= all);
    assert(all.take(data.len() + 1).drop_last() =~= all.take(data.len() as int));
    if tlen > width {
        width = tlen;
    }
    assert(width == frame_width(texts(data@), title@));
    let mut top = String::new();
    push_char(&mut top, '╭');
    let mid = pad(title, width + 6, '─');
    top.append(mid.as_str());
    push_char(&mut top, '╮');
    let mut rows: Vec<FrameRow> = Vec::new();
    let mut k: usize = 0;
    while k < data.len()
        invariant
            k <= data.len() <= 0x8000_0000,
            width == frame_width(texts(data@), title@),
            rows.len() == k,
            forall|j: int|
                0 <= j < k ==> (#[trigger] rows@[j]).mark@ == row_mark(selected, j)
                    && rows@[j].text@ == padded(data@[j]@, width as nat, ' '),
        decreases data.len() - k,
    {
        let c = k as i32;
        let marked = match selected {
            Some(s) => (s as i32) == c,
            None => false,
        };
        let mark = if marked {
            "|>".to_owned()
        } else {
            "  ".to_owned()
        };
        let text = pad(&data[k], width, ' ');
        rows.push(FrameRow { mark, text });
        k = k + 1;
    }
    let mut bottom = String::new();
    push_char(&mut bottom, '╰');
    let mut b: usize = 0;
    while b < width + 6
        invariant
            b <= width + 6,
            width + 6 <= usize::MAX,
            bottom@ == seq!['╰'] + Seq::new(b as nat, |j: int| '─'),
        decreases width + 6 - b,
    {
        push_char(&mut bottom, '─');
        assert(seq!['╰'] + Seq::new((b + 1) as nat, |j: int| '─') =~= (seq!['╰'] + Seq::new(
            b as nat,
            |j: int| '─',
        )).push('─'));
        b = b + 1;
    }
    push_char(&mut bottom, '╯');
    Frame { top, rows, bottom }
}

proof fn lemma_widest_prefix(v: Seq<Seq<char>>, n: int)
    requires
        0 <= n <= v.len(),
    ensures
        widest(v.take(n)) <= widest(v),
    decreases v.len() - n,
{
    if n < v.len() {
        lemma_widest_prefix(v, n + 1);
        assert(v.take(n + 1).drop_last() =~= v.take(n));
    } else {
        assert(v.take(n) =~= v);
    }
}

} // verus!
