use crate::utils::sequences::{distinct, first_position, lemma_first_position, texts};
use vstd::prelude::*;

verus! {

/// The first place at which `text` stands in `list`, or the length of `list`.
pub fn find_text(list: &Vec<String>, text: &String) -> (at: usize)
    ensures
        at == first_position(texts(list@), text@),
        at <= list.len(),
{
    let mut i: usize = 0;
    while i < list.len()
        invariant
            i <= list.len(),
            i == first_position(texts(list@).take(i as int), text@),
        decreases list.len() - i,
    {
        proof {
            let now = texts(list@).take(i as int);
            let next = texts(list@).take(i + 1);
            assert(next.drop_last() =~= now);
            assert(next.last() == list@[i as int]@);
        }
        if list[i] == *text {
            proof {
                assert(texts(list@).take(list.len() as int) =~= texts(list@));
                lemma_found_stays(texts(list@), text@, i + 1, list.len() as int);
            }
            return i;
        }
        i += 1;
    }
    assert(texts(list@).take(list.len() as int) =~= texts(list@));
    i
}

/// Once a value is found in a prefix, longer prefixes find it at the same place.
proof fn lemma_found_stays<A>(s: Seq<A>, x: A, short: int, long: int)
    requires
        0 <= short <= long <= s.len(),
        first_position(s.take(short), x) < short,
    ensures
        first_position(s.take(long), x) == first_position(s.take(short), x),
    decreases long - short,
{
    if short < long {
        lemma_found_stays(s, x, short, long - 1);
        assert(s.take(long).drop_last() =~= s.take(long - 1));
    }
}

/// Whether `text` occurs in `list`.
pub fn contains_text(list: &Vec<String>, text: &String) -> (found: bool)
    ensures
        found == texts(list@).contains(text@),
{
    proof {
        lemma_first_position(texts(list@), text@);
    }
    find_text(list, text) < list.len()
}

/// The texts of `values` without repetition, each at the place of its first occurrence.
pub fn unique_text(values: &Vec<String>) -> (out: Vec<String>)
    ensures
        texts(out@) == distinct(texts(values@)),
{
    let mut out: Vec<String> = Vec::new();
    let mut i: usize = 0;
    assert(texts(out@) =~= distinct(texts(values@).take(0)));
    while i < values.len()
        invariant
            i <= values.len(),
            texts(out@) == distinct(texts(values@).take(i as int)),
        decreases values.len() - i,
    {
        proof {
            let now = texts(values@).take(i as int);
            let next = texts(values@).take(i + 1);
            assert(next.drop_last() =~= now);
            assert(next.last() == values@[i as int]@);
        }
        let ghost before = texts(out@);
        if !contains_text(&out, &values[i]) {
            out.push(values[i].clone());
            assert(texts(out@) =~= before.push(values@[i as int]@));
        }
        i += 1;
    }
    assert(texts(values@).take(values.len() as int) =~= texts(values@));
    out
}

} // verus!
