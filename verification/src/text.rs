//! Text as sequences of characters: splitting at a separator and joining.

use vstd::prelude::*;
use vstd::std_specs::iter::IteratorSpec;
use vstd::string::StringExecFns;

verus! {

/// The pieces of `s` that a separator delimits, in order. A text without the
/// separator is one piece, the empty text included; two separators in a row
/// enclose an empty piece.
pub open spec fn split(s: Seq<char>, sep: char) -> Seq<Seq<char>>
    decreases s.len(),
{
    if s.len() == 0 {
        seq![Seq::<char>::empty()]
    } else {
        let before = split(s.drop_last(), sep);
        if s.last() == sep {
            before.push(Seq::<char>::empty())
        } else {
            before.drop_last().push(before.last().push(s.last()))
        }
    }
}

/// The pieces written one after the other with `sep` between neighbours.
pub open spec fn join(parts: Seq<Seq<char>>, sep: char) -> Seq<char>
    decreases parts.len(),
{
    if parts.len() == 0 {
        Seq::<char>::empty()
    } else if parts.len() == 1 {
        parts[0]
    } else {
        join(parts.drop_last(), sep).push(sep) + parts.last()
    }
}

/// A split text has at least one piece.
pub proof fn lemma_split_len(s: Seq<char>, sep: char)
    ensures
        split(s, sep).len() >= 1,
    decreases s.len(),
{
    if s.len() > 0 {
        lemma_split_len(s.drop_last(), sep);
    }
}

/// Joining the pieces of a split text with the separator gives the text
/// back.
pub proof fn lemma_join_undoes_split(s: Seq<char>, sep: char)
    ensures
        join(split(s, sep), sep) == s,
    decreases s.len(),
{
    if s.len() == 0 {
        assert(join(split(s, sep), sep) =~= s);
    } else {
        let before = split(s.drop_last(), sep);
        lemma_join_undoes_split(s.drop_last(), sep);
        lemma_split_len(s.drop_last(), sep);
        if s.last() == sep {
            let pieces = before.push(Seq::<char>::empty());
            assert(pieces.drop_last() =~= before);
            assert(join(pieces, sep) =~= s);
        } else {
            let grown = before.last().push(s.last());
            let pieces = before.drop_last().push(grown);
            assert(pieces.drop_last() =~= before.drop_last());
            if before.len() == 1 {
                assert(join(pieces, sep) =~= s);
            } else {
                assert(join(pieces, sep) =~= (join(before.drop_last(), sep).push(sep)
                    + before.last()).push(s.last()));
                assert(join(pieces, sep) =~= s);
            }
        }
    }
}

/// No piece of a split text holds the separator.
pub proof fn lemma_pieces_hold_no_separator(s: Seq<char>, sep: char, i: int, k: int)
    requires
        0 <= i < split(s, sep).len(),
        0 <= k < split(s, sep)[i].len(),
    ensures
        split(s, sep)[i][k] != sep,
    decreases s.len(),
{
    if s.len() > 0 {
        let before = split(s.drop_last(), sep);
        lemma_split_len(s.drop_last(), sep);
        if s.last() == sep {
            if i < before.len() {
                lemma_pieces_hold_no_separator(s.drop_last(), sep, i, k);
            }
        } else {
            if i < before.len() - 1 {
                lemma_pieces_hold_no_separator(s.drop_last(), sep, i, k);
            } else if k < before.last().len() {
                lemma_pieces_hold_no_separator(s.drop_last(), sep, i, k);
            }
        }
    }
}

/// Whether a text holds no `sep`.
pub open spec fn is_free_of(piece: Seq<char>, sep: char) -> bool {
    forall|k: int| 0 <= k < piece.len() ==> piece[k] != sep
}

/// The pieces of a split text are the only pieces without the separator that
/// join to the text.
pub proof fn lemma_split_is_the_only(s: Seq<char>, sep: char, pieces: Seq<Seq<char>>)
    requires
        pieces.len() >= 1,
        forall|i: int| 0 <= i < pieces.len() ==> is_free_of(#[trigger] pieces[i], sep),
        join(pieces, sep) == s,
    ensures
        split(s, sep) == pieces,
    decreases s.len(),
{
    let last = pieces.last();
    let rest = pieces.drop_last();
    if s.len() == 0 {
        if pieces.len() >= 2 {
            assert(join(pieces, sep).len() >= 1);
        }
        assert(pieces[0] =~= Seq::<char>::empty());
        assert(split(s, sep) =~= pieces);
    } else if last.len() == 0 {
        if pieces.len() == 1 {
            assert(join(pieces, sep) == last);
        }
        assert(s =~= join(rest, sep).push(sep));
        assert(s.drop_last() =~= join(rest, sep));
        assert forall|i: int| 0 <= i < rest.len() implies is_free_of(#[trigger] rest[i], sep) by {
            assert(rest[i] == pieces[i]);
        }
        lemma_split_is_the_only(s.drop_last(), sep, rest);
        assert(last =~= Seq::<char>::empty());
        assert(split(s, sep) =~= pieces);
    } else {
        let shorter = rest.push(last.drop_last());
        assert(shorter.drop_last() =~= rest);
        assert(shorter.last() == last.drop_last());
        if pieces.len() == 1 {
            assert(s == last);
            assert(join(shorter, sep) =~= s.drop_last());
        } else {
            assert(s =~= join(rest, sep).push(sep) + last);
            assert(join(shorter, sep) =~= s.drop_last());
        }
        assert(s.last() == last.last());
        assert(last[last.len() - 1] != sep);
        assert forall|i: int| 0 <= i < shorter.len() implies is_free_of(
            #[trigger] shorter[i],
            sep,
        ) by {
            if i < rest.len() {
                assert(shorter[i] == pieces[i]);
            } else {
                assert forall|k: int| 0 <= k < shorter[i].len() implies shorter[i][k] != sep by {
                    assert(shorter[i][k] == last[k]);
                }
            }
        }
        lemma_split_is_the_only(s.drop_last(), sep, shorter);
        assert(last.drop_last().push(s.last()) =~= last);
        assert(split(s, sep) =~= pieces);
    }
}

/// The character sequences of a list of strings.
pub open spec fn texts(v: Seq<String>) -> Seq<Seq<char>> {
    Seq::new(v.len(), |i: int| v[i]@)
}

/// The characters of a string, in order.
pub fn chars_of(s: &str) -> (out: Vec<char>)
    ensures
        out@ == s@,
{
    broadcast use vstd::string::group_string_axioms;

    let mut out: Vec<char> = Vec::new();
    let mut it = s.chars();
    loop
        invariant
            out@ + it.remaining() == s@,
            it.decrease() is Some,
        ensures
            out@ =~= s@,
        decreases it.decrease()->0,
    {
        match it.next() {
            Some(c) => {
                out.push(c);
            },
            None => {
                break ;
            },
        }
    }
    out
}

/// Whether two strings hold the same characters.
pub fn same_text(a: &str, b: &str) -> (r: bool)
    ensures
        r == (a@ == b@),
{
    let x = chars_of(a);
    let y = chars_of(b);
    if x.len() != y.len() {
        return false;
    }
    let mut i: usize = 0;
    while i < x.len()
        invariant
            x@ == a@,
            y@ == b@,
            x.len() == y.len(),
            i <= x.len(),
            forall|k: int| 0 <= k < i ==> x@[k] == y@[k],
        decreases x.len() - i,
    {
        if x[i] != y[i] {
            return false;
        }
        i += 1;
    }
    assert(a@ =~= b@);
    true
}

/// Splits a string at every occurrence of `sep`.
pub fn split_text(s: &str, sep: char) -> (parts: Vec<String>)
    ensures
        texts(parts@) == split(s@, sep),
{
    let chars = chars_of(s);
    let n = chars.len();
    let mut parts: Vec<String> = Vec::new();
    let mut start: usize = 0;
    let mut i: usize = 0;
    proof {
        assert(s@.subrange(0, 0) =~= Seq::<char>::empty());
        assert(s@.take(0).len() == 0);
        assert(texts(parts@).push(s@.subrange(0, 0)) =~= seq![Seq::<char>::empty()]);
    }
    while i < n
        invariant
            chars@ == s@,
            n == chars.len(),
            start <= i <= n,
            split(s@.take(i as int), sep) == texts(parts@).push(
                s@.subrange(start as int, i as int),
            ),
        decreases n - i,
    {
        let ghost before = texts(parts@).push(s@.subrange(start as int, i as int));
        proof {
            assert(s@.take(i + 1).drop_last() =~= s@.take(i as int));
            assert(s@.take(i + 1).last() == s@[i as int]);
        }
        if chars[i] == sep {
            let piece = s.substring_char(start, i).to_owned();
            parts.push(piece);
            start = i + 1;
            proof {
                assert(texts(parts@) =~= before);
                assert(s@.subrange(start as int, i + 1) =~= Seq::<char>::empty());
            }
        } else {
            proof {
                assert(before.drop_last() =~= texts(parts@));
                assert(before.last().push(s@[i as int]) =~= s@.subrange(start as int, i + 1));
            }
        }
        i += 1;
    }
    let piece = s.substring_char(start, n).to_owned();
    proof {
        assert(s@.take(n as int) =~= s@);
        assert(texts(parts@.push(piece)) =~= texts(parts@).push(s@.subrange(start as int, n as int)));
    }
    parts.push(piece);
    parts
}

/// Joins the strings from index `from` on with single spaces.
pub fn join_words(parts: &Vec<String>, from: usize) -> (out: String)
    requires
        from <= parts.len(),
    ensures
        out@ == join(texts(parts@).skip(from as int), ' '),
{
    let mut out = String::new();
    let mut i: usize = from;
    assert(texts(parts@).subrange(from as int, from as int) =~= Seq::<Seq<char>>::empty());
    while i < parts.len()
        invariant
            from <= i <= parts.len(),
            out@ == join(texts(parts@).subrange(from as int, i as int), ' '),
        decreases parts.len() - i,
    {
        let ghost sofar = texts(parts@).subrange(from as int, i as int);
        let ghost next = texts(parts@).subrange(from as int, i + 1);
        proof {
            reveal_strlit(" ");
            assert(next.drop_last() =~= sofar);
            assert(next.last() == parts@[i as int]@);
            assert(" "@ =~= seq![' ']);
        }
        if i > from {
            out.append(" ");
        }
        out.append(parts[i].as_str());
        proof {
            if i > from {
                assert(out@ =~= join(sofar, ' ').push(' ') + next.last());
            } else {
                assert(sofar.len() == 0);
                assert(out@ =~= next[0]);
            }
        }
        i += 1;
    }
    assert(texts(parts@).subrange(from as int, parts.len() as int) =~= texts(parts@).skip(
        from as int,
    ));
    out
}

} // verus!
