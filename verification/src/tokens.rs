//! Splitting a line of the feed into its tokens.

use vstd::prelude::*;

verus! {

/// The byte that separates the tokens of a line.
pub const DELIMITER: u8 = 124;

/// The tokens of `line`: the stretches of bytes between delimiters, in order. A
/// line with k delimiters has k + 1 tokens, empty ones included.
pub open spec fn split(line: Seq<u8>) -> Seq<Seq<u8>>
    decreases line.len(),
{
    if line.len() == 0 {
        seq![Seq::<u8>::empty()]
    } else {
        let before = split(line.drop_last());
        if line.last() == DELIMITER {
            before.push(Seq::<u8>::empty())
        } else {
            before.drop_last().push(before.last().push(line.last()))
        }
    }
}

/// The tokens of a vector of byte vectors, as sequences.
pub open spec fn token_views(tokens: Seq<Vec<u8>>) -> Seq<Seq<u8>> {
    Seq::new(tokens.len(), |i: int| tokens[i]@)
}

/// Every line has at least one token, and no token holds a delimiter.
pub proof fn lemma_split_shape(line: Seq<u8>)
    ensures
        split(line).len() >= 1,
        forall|i: int| 0 <= i < split(line).len() ==> !(#[trigger] split(line)[i]).contains(DELIMITER),
    decreases line.len(),
{
    if line.len() > 0 {
        lemma_split_shape(line.drop_last());
        let before = split(line.drop_last());
        if line.last() != DELIMITER {
            let grown = before.last().push(line.last());
            assert forall|j: int| 0 <= j < grown.len() implies grown[j] != DELIMITER by {
                if j < before.last().len() {
                    assert(before.last()[j] == grown[j]);
                    assert(before.last().contains(grown[j]));
                }
            }
        }
    }
}

/// Splits a line at every delimiter.
pub fn split_line(line: &[u8]) -> (tokens: Vec<Vec<u8>>)
    ensures
        token_views(tokens@) == split(line@),
        tokens@.len() >= 1,
{
    let mut done: Vec<Vec<u8>> = Vec::new();
    let mut current: Vec<u8> = Vec::new();
    let mut i: usize = 0;
    while i < line.len()
        invariant
            i <= line.len(),
            token_views(done@).push(current@) =~= split(line@.take(i as int)),
        decreases line.len() - i,
    {
        let b = line[i];
        proof {
            let next = line@.take(i + 1);
            assert(next.drop_last() =~= line@.take(i as int));
            assert(next.last() == b);
        }
        let ghost before = token_views(done@);
        if b == DELIMITER {
            done.push(current);
            current = Vec::new();
            assert(token_views(done@) =~= before.push(done@.last()@));
        } else {
            current.push(b);
        }
        i = i + 1;
    }
    assert(line@.take(i as int) =~= line@);
    let ghost before = token_views(done@);
    done.push(current);
    assert(token_views(done@) =~= before.push(done@.last()@));
    done
}

} // verus!
