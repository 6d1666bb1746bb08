//! Reading a bulk list of new keys, as an administrator pastes it: keys
//! separated by new lines or commas, with blanks around them.

use vstd::prelude::*;
use crate::record::same_text;

verus! {

/// A character that `char::is_whitespace` accepts: the Unicode
/// `White_Space` characters.
pub open spec fn is_space(c: char) -> bool {
    ('\t' <= c && c <= '\r') || c == ' ' || c == '\u{85}' || c == '\u{a0}' || c == '\u{1680}' || ('\u{2000}'
        <= c && c <= '\u{200a}') || c == '\u{2028}' || c == '\u{2029}' || c == '\u{202f}' || c == '\u{205f}'
        || c == '\u{3000}'
}

/// A character that ends a key in a list.
pub open spec fn is_separator(c: char) -> bool {
    c == '\n' || c == ','
}

/// `s` without its leading blanks.
pub open spec fn trim_start(s: Seq<char>) -> Seq<char>
    decreases s.len(),
{
    if s.len() > 0 && is_space(s[0]) {
        trim_start(s.drop_first())
    } else {
        s
    }
}

/// `s` without its trailing blanks.
pub open spec fn trim_end(s: Seq<char>) -> Seq<char>
    decreases s.len(),
{
    if s.len() > 0 && is_space(s.last()) {
        trim_end(s.drop_last())
    } else {
        s
    }
}

/// `s` without blanks at either end.
pub open spec fn trim(s: Seq<char>) -> Seq<char> {
    trim_end(trim_start(s))
}

/// The pieces of `s` between separators; an empty text is one empty piece.
pub open spec fn split_pieces(s: Seq<char>) -> Seq<Seq<char>>
    decreases s.len(),
{
    if s.len() == 0 {
        seq![Seq::empty()]
    } else {
        let init = split_pieces(s.drop_last());
        if is_separator(s.last()) {
            init.push(Seq::empty())
        } else {
            init.update(init.len() - 1, init.last().push(s.last()))
        }
    }
}

/// The trimmed pieces that are not empty, each at its first occurrence.
pub open spec fn gather(pieces: Seq<Seq<char>>) -> Seq<Seq<char>>
    decreases pieces.len(),
{
    if pieces.len() == 0 {
        Seq::empty()
    } else {
        let before = gather(pieces.drop_last());
        let t = trim(pieces.last());
        if t.len() > 0 && !before.contains(t) {
            before.push(t)
        } else {
            before
        }
    }
}

/// The distinct keys of a pasted list, in order of first appearance.
pub open spec fn key_list(s: Seq<char>) -> Seq<Seq<char>> {
    gather(split_pieces(s))
}

/// The views of a list of texts.
pub open spec fn texts_view(v: Seq<String>) -> Seq<Seq<char>> {
    v.map_values(|s: String| s@)
}

proof fn lemma_split_pieces_nonempty(s: Seq<char>)
    ensures
        split_pieces(s).len() >= 1,
    decreases s.len(),
{
    if s.len() > 0 {
        lemma_split_pieces_nonempty(s.drop_last());
    }
}

/// Whether `c` is a blank.
pub fn is_space_char(c: char) -> (r: bool)
    ensures
        r == is_space(c),
{
    ('\t' <= c && c <= '\r') || c == ' ' || c == '\u{85}' || c == '\u{a0}' || c == '\u{1680}' || ('\u{2000}'
        <= c && c <= '\u{200a}') || c == '\u{2028}' || c == '\u{2029}' || c == '\u{202f}' || c == '\u{205f}'
        || c == '\u{3000}'
}

/// `s` without blanks at either end.
pub fn trim_text(s: &str) -> (r: &str)
    ensures
        r@ == trim(s@),
{
    let n = s.unicode_len();
    let mut a: usize = 0;
    assert(s@.subrange(0, n as int) == s@);
    while a < n && is_space_char(s.get_char(a))
        invariant
            n == s@.len(),
            a <= n,
            trim_start(s@) == trim_start(s@.subrange(a as int, n as int)),
        decreases n - a,
    {
        assert(s@.subrange(a as int, n as int).drop_first() == s@.subrange(a + 1, n as int));
        a = a + 1;
    }
    assert(trim_start(s@) == s@.subrange(a as int, n as int));
    let mut b: usize = n;
    let ghost t = s@.subrange(a as int, n as int);
    assert(t.subrange(0, t.len() as int) == t);
    while b > a && is_space_char(s.get_char(b - 1))
        invariant
            n == s@.len(),
            a <= b <= n,
            t == s@.subrange(a as int, n as int),
            trim_end(t) == trim_end(s@.subrange(a as int, b as int)),
        decreases b,
    {
        assert(s@.subrange(a as int, b as int).drop_last() == s@.subrange(a as int, b - 1));
        b = b - 1;
    }
    s.substring_char(a, b)
}

/// Whether `t` is among `v`.
fn listed(v: &Vec<String>, t: &str) -> (r: bool)
    ensures
        r == texts_view(v@).contains(t@),
{
    let mut i: usize = 0;
    while i < v.len()
        invariant
            i <= v.len(),
            forall|j: int| 0 <= j < i ==> v@[j]@ != t@,
        decreases v.len() - i,
    {
        if same_text(v[i].as_str(), t) {
            assert(texts_view(v@)[i as int] == t@);
            return true;
        }
        i = i + 1;
    }
    proof {
        if texts_view(v@).contains(t@) {
            let j = choose|j: int| 0 <= j < texts_view(v@).len() && texts_view(v@)[j] == t@;
            assert(v@[j]@ == t@);
        }
    }
    false
}

/// Adds the trimmed piece to the list unless it is empty or already there.
fn take_piece(out: &mut Vec<String>, piece: &str)
    ensures
        texts_view(final(out)@) == ({
            let t = trim(piece@);
            if t.len() > 0 && !texts_view(old(out)@).contains(t) {
                texts_view(old(out)@).push(t)
            } else {
                texts_view(old(out)@)
            }
        }),
{
    let t = trim_text(piece);
    if t.unicode_len() > 0 && !listed(out, t) {
        let ghost before = out@;
        out.push(String::from_str(t));
        assert(texts_view(out@) =~= texts_view(before).push(t@));
    }
}

/// The distinct keys of a pasted list, in order of first appearance:
/// pieces between new lines and commas, trimmed, without empty ones.
pub fn parse_key_list(keys_str: &str) -> (r: Vec<String>)
    ensures
        texts_view(r@) == key_list(keys_str@),
{
    let n = keys_str.unicode_len();
    let ghost s = keys_str@;
    let mut out: Vec<String> = Vec::new();
    let mut start: usize = 0;
    let mut i: usize = 0;
    proof {
        assert(s.subrange(0, 0) =~= Seq::<char>::empty());
        assert(split_pieces(s.subrange(0, 0)) =~= seq![Seq::<char>::empty()]);
        assert(split_pieces(s.subrange(0, 0)).drop_last() =~= Seq::<Seq<char>>::empty());
        assert(texts_view(out@) =~= Seq::<Seq<char>>::empty());
    }
    while i < n
        invariant
            n == s.len(),
            s == keys_str@,
            start <= i <= n,
            split_pieces(s.subrange(0, i as int)).len() >= 1,
            split_pieces(s.subrange(0, i as int)).last() == s.subrange(start as int, i as int),
            texts_view(out@) == gather(split_pieces(s.subrange(0, i as int)).drop_last()),
        decreases n - i,
    {
        let c = keys_str.get_char(i);
        let ghost prev = split_pieces(s.subrange(0, i as int));
        let ghost next_prefix = s.subrange(0, i + 1);
        assert(next_prefix.drop_last() == s.subrange(0, i as int));
        assert(next_prefix.last() == c);
        if c == '\n' || c == ',' {
            let piece = keys_str.substring_char(start, i);
            take_piece(&mut out, piece);
            proof {
                let now_pieces = split_pieces(next_prefix);
                assert(now_pieces == prev.push(Seq::<char>::empty()));
                assert(now_pieces.drop_last() == prev);
                assert(prev == prev.drop_last().push(prev.last()));
                assert(s.subrange(i + 1, i + 1) =~= Seq::<char>::empty());
            }
            start = i + 1;
        } else {
            proof {
                let now_pieces = split_pieces(next_prefix);
                assert(now_pieces == prev.update(prev.len() - 1, prev.last().push(c)));
                assert(now_pieces.drop_last() =~= prev.drop_last());
                assert(now_pieces.last() =~= s.subrange(start as int, i + 1));
            }
        }
        i = i + 1;
    }
    let piece = keys_str.substring_char(start, n);
    take_piece(&mut out, piece);
    proof {
        let all = split_pieces(s.subrange(0, n as int));
        assert(s.subrange(0, n as int) == s);
        assert(all == all.drop_last().push(all.last()));
    }
    out
}

} // verus!
