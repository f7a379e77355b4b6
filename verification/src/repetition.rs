use crate::parser::{lemma_suffix_transitive, ParseResult, Parser};
use vstd::prelude::*;

verus! {

/// A parser applied again and again until it fails; the values come as a
/// vector, and the number of them must lie between `min` and `max`.
pub struct Repetition<P> {
    pub parser: P,
    pub min: usize,
    pub max: Option<usize>,
}

/// `count` lies between `min` and `max`, both included; without a `max`
/// there is no upper bound.
pub open spec fn count_allowed(min: usize, max: Option<usize>, count: nat) -> bool {
    min <= count && match max {
        Some(most) => count <= most,
        None => true,
    }
}

/// `parser` can succeed `items.len()` times in a row: the success number `i`
/// reads `cuts[i]`, leaves `cuts[i + 1]` and gives `items[i]`.
pub open spec fn matches_in_a_row<'a, A, P: Parser<'a, A>>(
    parser: &P,
    cuts: Seq<Seq<char>>,
    items: Seq<A>,
) -> bool {
    &&& cuts.len() == items.len() + 1
    &&& forall|i: int|
        #![trigger items[i]]
        0 <= i < items.len() ==> parser.accepts(cuts[i], cuts[i + 1], items[i])
}

/// Starting on `input`, `parser` can succeed with `items` in a row, leave
/// `rest` after the last of them, and fail on `rest`.
pub open spec fn exhausts<'a, A, P: Parser<'a, A>>(
    parser: &P,
    input: Seq<char>,
    rest: Seq<char>,
    items: Seq<A>,
) -> bool {
    exists|cuts: Seq<Seq<char>>|
        {
            &&& #[trigger] matches_in_a_row(parser, cuts, items)
            &&& cuts[0] == input
            &&& cuts.last() == rest
            &&& parser.rejects(rest)
        }
}

/// Every success of `parser` takes at least one character.
pub open spec fn makes_progress<'a, A, P: Parser<'a, A>>(parser: &P) -> bool {
    forall|input: Seq<char>, rest: Seq<char>, out: A| #[trigger]
        parser.accepts(input, rest, out) ==> rest.len() < input.len()
}

impl<'a, P, A> Parser<'a, Vec<A>> for Repetition<P> where P: Parser<'a, A> {
    /// The repeated parser must take at least one character with each
    /// success: a repetition of one that can succeed on nothing has no end.
    open spec fn wf(&self) -> bool {
        self.parser.wf() && makes_progress(&self.parser)
    }

    /// The values are those of all the successes up to the first failure,
    /// in order; `rest` is what the last success left; and their number is
    /// within the bounds.
    open spec fn accepts(&self, input: Seq<char>, rest: Seq<char>, out: Vec<A>) -> bool {
        exhausts(&self.parser, input, rest, out@) && count_allowed(
            self.min,
            self.max,
            out@.len(),
        )
    }

    /// The number of successes up to the first failure is out of bounds.
    open spec fn rejects(&self, input: Seq<char>) -> bool {
        exists|rest: Seq<char>, items: Seq<A>|
            #[trigger] exhausts(&self.parser, input, rest, items) && !count_allowed(
                self.min,
                self.max,
                items.len(),
            )
    }

    fn parse(&self, input: &'a str) -> (r: ParseResult<'a, Vec<A>>)
        ensures
            self.min == 0 && self.max is None ==> r is Ok,
            r matches Ok((_, out)) ==> count_allowed(self.min, self.max, out@.len()),
    {
        let mut result: Vec<A> = Vec::new();
        let mut current = input;
        let ghost mut cuts: Seq<Seq<char>> = seq![input@];
        let mut done = false;
        while !done
            invariant
                self.wf(),
                matches_in_a_row(&self.parser, cuts, result@),
                cuts[0] == input@,
                cuts.last() == current@,
                current@.is_suffix_of(input@),
                done ==> self.parser.rejects(current@),
            decreases (if done { 0nat } else { 1nat }), current@.len(),
        {
            match self.parser.parse(current) {
                Ok((next, item)) => {
                    let ghost old_cuts = cuts;
                    let ghost old_items = result@;
                    proof {
                        lemma_suffix_transitive(next@, current@, input@);
                        cuts = cuts.push(next@);
                        assert(self.parser.accepts(current@, next@, item));
                    }
                    result.push(item);
                    current = next;
                    assert forall|i: int| 0 <= i < result@.len() implies self.parser.accepts(
                        cuts[i],
                        cuts[i + 1],
                        #[trigger] result@[i],
                    ) by {
                        if i < old_items.len() {
                            assert(self.parser.accepts(old_cuts[i], old_cuts[i + 1], old_items[i]));
                        }
                    }
                },
                Err(_) => {
                    done = true;
                },
            }
        }
        let count = result.len();
        let enough = count >= self.min;
        let few = match self.max {
            Some(most) => count <= most,
            None => true,
        };
        if enough && few {
            Ok((current, result))
        } else {
            assert(exhausts(&self.parser, input@, current@, result@));
            Err(input)
        }
    }
}

/// The outcomes of a repetition in terms of those of the repeated parser,
/// for use where that parser is or holds a function or a closure: there
/// Verus does not unfold the definitions by itself.
pub proof fn repetition_outcomes<'a, P, A>(repeated: Repetition<P>) where P: Parser<'a, A>
    ensures
        repeated.wf() <==> repeated.parser.wf() && makes_progress(&repeated.parser),
        forall|input: Seq<char>, rest: Seq<char>, out: Vec<A>| #[trigger]
            repeated.accepts(input, rest, out) <==> exhausts(&repeated.parser, input, rest, out@)
                && count_allowed(repeated.min, repeated.max, out@.len()),
        forall|input: Seq<char>| #[trigger]
            repeated.rejects(input) <==> exists|rest: Seq<char>, items: Seq<A>|
                #[trigger] exhausts(&repeated.parser, input, rest, items) && !count_allowed(
                    repeated.min,
                    repeated.max,
                    items.len(),
                ),
{
}

/// Applies `parser` until it fails, and succeeds with the values of its
/// successes when there are at least `min` and, where `max` is given, at
/// most that many of them; else it fails, as if nothing had been read.
pub fn repetition<'a, P, A>(parser: P, min: usize, max: Option<usize>) -> (r: Repetition<P>) where
    P: Parser<'a, A>,

    ensures
        r == (Repetition { parser, min, max }),
{
    Repetition { parser, min, max }
}

/// Applies `parser` until it fails; at least one success is needed.
pub fn one_or_more<'a, P, A>(parser: P) -> (r: Repetition<P>) where P: Parser<'a, A>
    ensures
        r == (Repetition { parser, min: 1, max: None }),
{
    repetition(parser, 1, None)
}

/// Applies `parser` until it fails; no success is needed.
pub fn zero_or_more<'a, P, A>(parser: P) -> (r: Repetition<P>) where P: Parser<'a, A>
    ensures
        r == (Repetition { parser, min: 0, max: None }),
{
    repetition(parser, 0, None)
}

} // verus!
