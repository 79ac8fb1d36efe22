//! Splitting a raw value on commas, and folding a name to upper case.

use vstd::prelude::*;

verus! {

/// The pieces of `s` between its commas, in order.  There is always at
/// least one piece: an empty sequence splits to one empty piece, and a
/// comma ends the piece before it and opens a new one.
pub open spec fn split_commas(s: Seq<char>) -> Seq<Seq<char>>
    decreases s.len(),
{
    if s.len() == 0 {
        seq![Seq::<char>::empty()]
    } else {
        let rest = split_commas(s.drop_last());
        if s.last() == ',' {
            rest.push(Seq::<char>::empty())
        } else {
            rest.drop_last().push(rest.last().push(s.last()))
        }
    }
}

pub proof fn lemma_split_commas_nonempty(s: Seq<char>)
    ensures
        split_commas(s).len() >= 1,
    decreases s.len(),
{
    if s.len() > 0 {
        lemma_split_commas_nonempty(s.drop_last());
    }
}

/// The pieces joined with commas, in order.
pub open spec fn join_commas(pieces: Seq<Seq<char>>) -> Seq<char>
    decreases pieces.len(),
{
    if pieces.len() == 0 {
        Seq::empty()
    } else if pieces.len() == 1 {
        pieces[0]
    } else {
        join_commas(pieces.drop_last()) + seq![','] + pieces.last()
    }
}

/// The split loses nothing and keeps order: joining the pieces with
/// commas restores the raw value.
pub proof fn lemma_split_commas_round_trip(s: Seq<char>)
    ensures
        join_commas(split_commas(s)) == s,
    decreases s.len(),
{
    if s.len() == 0 {
        assert(join_commas(split_commas(s)) =~= s);
    } else {
        let body = s.drop_last();
        let rest = split_commas(body);
        lemma_split_commas_round_trip(body);
        lemma_split_commas_nonempty(body);
        if s.last() == ',' {
            assert(split_commas(s).drop_last() =~= rest);
            assert(join_commas(split_commas(s)) =~= s);
        } else {
            let grown = rest.drop_last().push(rest.last().push(s.last()));
            if rest.len() == 1 {
                assert(join_commas(grown) == rest[0].push(s.last()));
                assert(join_commas(grown) =~= s);
            } else {
                assert(grown.drop_last() =~= rest.drop_last());
                assert(join_commas(grown) == join_commas(rest.drop_last()) + seq![',']
                    + rest.last().push(s.last()));
                assert(join_commas(rest) == join_commas(rest.drop_last()) + seq![','] + rest.last());
                assert(join_commas(grown) =~= join_commas(rest).push(s.last()));
                assert(join_commas(rest).push(s.last()) =~= s);
            }
        }
    }
}

/// No piece of the split contains a comma.
pub proof fn lemma_split_commas_pieces_have_no_comma(s: Seq<char>)
    ensures
        forall|i: int|
            0 <= i < split_commas(s).len() ==> !(#[trigger] split_commas(s)[i]).contains(','),
    decreases s.len(),
{
    if s.len() == 0 {
        assert(!split_commas(s)[0].contains(',')) by {
            assert(split_commas(s)[0].len() == 0);
        }
    } else {
        let rest = split_commas(s.drop_last());
        lemma_split_commas_pieces_have_no_comma(s.drop_last());
        lemma_split_commas_nonempty(s.drop_last());
        if s.last() == ',' {
            assert(forall|i: int|
                0 <= i < rest.len() ==> split_commas(s)[i] == #[trigger] rest[i]);
            assert(split_commas(s).last().len() == 0);
            assert(!split_commas(s).last().contains(','));
        } else {
            assert(forall|i: int|
                0 <= i < rest.len() - 1 ==> split_commas(s)[i] == #[trigger] rest[i]);
            let last = rest.last().push(s.last());
            assert(!last.contains(',')) by {
                assert(forall|j: int| 0 <= j < last.len() - 1 ==> last[j] == #[trigger] rest.last()[j]);
                assert(last.last() == s.last());
            }
        }
    }
}

/// The views of a vector of strings.
pub open spec fn views_of(pieces: Seq<String>) -> Seq<Seq<char>> {
    pieces.map_values(|p: String| p@)
}

/// Splits `s` on the comma character, with no trimming and no
/// escaping: a literal character split.
pub fn split_on_commas(s: &str) -> (r: Vec<String>)
    ensures
        views_of(r@) == split_commas(s@),
{
    let n = s.unicode_len();
    let mut pieces: Vec<String> = Vec::new();
    let mut start: usize = 0;
    let mut i: usize = 0;
    proof {
        assert(s@.take(0) =~= Seq::<char>::empty());
        assert(views_of(pieces@).push(s@.subrange(0, 0)) =~= split_commas(s@.take(0)));
    }
    while i < n
        invariant
            n == s@.len(),
            start <= i <= n,
            views_of(pieces@).push(s@.subrange(start as int, i as int)) =~~= split_commas(
                s@.take(i as int),
            ),
        decreases n - i,
    {
        proof {
            assert(s@.take(i + 1).drop_last() =~= s@.take(i as int));
            assert(s@.take(i + 1).last() == s@[i as int]);
        }
        let c = s.get_char(i);
        if c == ',' {
            let piece = s.substring_char(start, i).to_owned();
            let ghost prev = pieces@;
            pieces.push(piece);
            proof {
                assert(views_of(pieces@) =~~= views_of(prev).push(s@.subrange(
                    start as int,
                    i as int,
                )));
                assert(s@.subrange(i + 1, i + 1) =~= Seq::<char>::empty());
                assert(views_of(pieces@).push(s@.subrange(i + 1, i + 1)) =~~= split_commas(s@.take(
                    i + 1,
                )));
            }
            start = i + 1;
        } else {
            proof {
                let before = split_commas(s@.take(i as int));
                assert(before.last() == s@.subrange(start as int, i as int));
                assert(before.drop_last() =~~= views_of(pieces@));
                assert(s@.subrange(start as int, i + 1) =~= s@.subrange(start as int, i as int).push(
                    s@[i as int],
                ));
                assert(views_of(pieces@).push(s@.subrange(start as int, i + 1)) =~~= split_commas(
                    s@.take(i + 1),
                ));
            }
        }
        i += 1;
    }
    let last = s.substring_char(start, n).to_owned();
    let ghost prev = pieces@;
    pieces.push(last);
    proof {
        assert(s@.take(n as int) =~= s@);
        assert(views_of(pieces@) =~~= views_of(prev).push(s@.subrange(start as int, n as int)));
        assert(views_of(pieces@) =~~= split_commas(s@));
    }
    pieces
}

} // verus!
