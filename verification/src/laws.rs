use crate::combinators::Mapped;
use crate::parser::{function_outcomes, Parser};
use crate::primitives::{identifier, identifier_at_front, no_identifier_at_front, Literal};
use crate::repetition::{
    count_allowed, exhausts, makes_progress, matches_in_a_row, Repetition,
};
use vstd::prelude::*;

verus! {

/// A literal has one outcome on each input: it accepts exactly when the
/// input begins with the expected text, it leaves the input without that
/// text, and it rejects exactly when it does not accept.
pub proof fn literal_is_deterministic(literal: Literal, input: Seq<char>, rest: Seq<char>)
    ensures
        literal.accepts(input, rest, ()) <==> literal.expected@.is_prefix_of(input) && rest
            == input.skip(literal.expected@.len() as int),
        literal.rejects(input) <==> !literal.expected@.is_prefix_of(input),
{
    let expected = literal.expected@;
    if literal.accepts(input, rest, ()) {
        assert(expected =~= input.subrange(0, expected.len() as int));
        assert(rest =~= input.skip(expected.len() as int));
    }
    if expected.is_prefix_of(input) && rest == input.skip(expected.len() as int) {
        assert(input =~= expected + rest);
    }
}

/// A literal that is not empty takes at least one character when it accepts,
/// so it can be repeated.
pub proof fn literal_makes_progress(literal: Literal)
    requires
        literal.expected@.len() > 0,
    ensures
        makes_progress(&literal),
{
    assert forall|input: Seq<char>, rest: Seq<char>, out: ()| #[trigger]
        literal.accepts(input, rest, out) implies rest.len() < input.len() by {
        assert(input.len() == literal.expected@.len() + rest.len());
    }
}

/// At most one identifier stands at the front of an input: the name and
/// what follows it are determined by the input.
pub proof fn identifier_is_unique(
    input: Seq<char>,
    rest1: Seq<char>,
    name1: Seq<char>,
    rest2: Seq<char>,
    name2: Seq<char>,
)
    requires
        identifier_at_front(input, rest1, name1),
        identifier_at_front(input, rest2, name2),
    ensures
        rest1 == rest2,
        name1 == name2,
{
    if name1.len() < name2.len() {
        let k = name1.len() as int;
        assert(input[k] == rest1[0]);
        assert(input[k] == name2[k]);
    }
    if name2.len() < name1.len() {
        let k = name2.len() as int;
        assert(input[k] == rest2[0]);
        assert(input[k] == name1[k]);
    }
    assert(name1 =~= input.subrange(0, name1.len() as int));
    assert(name2 =~= input.subrange(0, name2.len() as int));
    assert(rest1 =~= input.skip(name1.len() as int));
    assert(rest2 =~= input.skip(name2.len() as int));
}

/// The function `identifier` is a well-formed parser that can be repeated,
/// and its outcomes as a parser are those that the function ensures.
pub proof fn identifier_is_a_parser()
    ensures
        identifier.wf(),
        makes_progress(&identifier),
        forall|input: Seq<char>, rest: Seq<char>, name: String| #[trigger]
            identifier.accepts(input, rest, name) ==> identifier_at_front(input, rest, name@),
        forall|input: Seq<char>| #[trigger]
            identifier.rejects(input) ==> no_identifier_at_front(input),
{
    function_outcomes(identifier);
}

/// A repetition ends without a value exactly where the repeated parser
/// fails at once, and then nothing of the input is taken.
pub proof fn repetition_stops_at_once<'a, A, P: Parser<'a, A>>(
    parser: P,
    input: Seq<char>,
    rest: Seq<char>,
)
    ensures
        exhausts(&parser, input, rest, Seq::<A>::empty()) <==> rest == input && parser.rejects(
            input,
        ),
{
    let none = Seq::<A>::empty();
    if exhausts(&parser, input, rest, none) {
        let cuts = choose|cuts: Seq<Seq<char>>|
            {
                &&& #[trigger] matches_in_a_row(&parser, cuts, none)
                &&& cuts[0] == input
                &&& cuts.last() == rest
                &&& parser.rejects(rest)
            };
        assert(cuts.len() == 1);
    }
    if rest == input && parser.rejects(input) {
        assert(matches_in_a_row(&parser, seq![input], none));
    }
}

/// A repetition gives at least one value exactly where the repeated parser
/// succeeds with the first of them and the repetition, started on what that
/// success left, gives the others.
pub proof fn repetition_goes_on<'a, A, P: Parser<'a, A>>(
    parser: P,
    input: Seq<char>,
    rest: Seq<char>,
    items: Seq<A>,
)
    requires
        items.len() > 0,
    ensures
        exhausts(&parser, input, rest, items) <==> exists|mid: Seq<char>|
            #[trigger] parser.accepts(input, mid, items[0]) && exhausts(
                &parser,
                mid,
                rest,
                items.drop_first(),
            ),
{
    let others = items.drop_first();
    if exhausts(&parser, input, rest, items) {
        let cuts = choose|cuts: Seq<Seq<char>>|
            {
                &&& #[trigger] matches_in_a_row(&parser, cuts, items)
                &&& cuts[0] == input
                &&& cuts.last() == rest
                &&& parser.rejects(rest)
            };
        let later = cuts.drop_first();
        assert(parser.accepts(cuts[0], cuts[1], items[0]));
        assert forall|i: int| 0 <= i < others.len() implies parser.accepts(
            later[i],
            later[i + 1],
            #[trigger] others[i],
        ) by {
            assert(parser.accepts(cuts[i + 1], cuts[i + 2], items[i + 1]));
        }
        assert(matches_in_a_row(&parser, later, others));
        assert(exhausts(&parser, cuts[1], rest, others));
    }
    if exists|mid: Seq<char>| #[trigger]
        parser.accepts(input, mid, items[0]) && exhausts(&parser, mid, rest, others) {
        let mid = choose|mid: Seq<char>| #[trigger]
            parser.accepts(input, mid, items[0]) && exhausts(&parser, mid, rest, others);
        let later = choose|later: Seq<Seq<char>>|
            {
                &&& #[trigger] matches_in_a_row(&parser, later, others)
                &&& later[0] == mid
                &&& later.last() == rest
                &&& parser.rejects(rest)
            };
        let cuts = seq![input] + later;
        assert forall|i: int| 0 <= i < items.len() implies parser.accepts(
            cuts[i],
            cuts[i + 1],
            #[trigger] items[i],
        ) by {
            if i > 0 {
                assert(parser.accepts(later[i - 1], later[i], others[i - 1]));
            }
        }
        assert(matches_in_a_row(&parser, cuts, items));
    }
}

/// A repetition without bounds never fails: on no input can it reject.
pub proof fn zero_or_more_never_fails<'a, A, P: Parser<'a, A>>(parser: P, input: Seq<char>)
    ensures
        !(Repetition { parser, min: 0, max: None }).rejects(input),
{
}

/// A repetition that asks for at least one success fails exactly on the
/// inputs on which the repeated parser fails at once; and these are the
/// inputs on which the repetition without bounds gives an empty vector,
/// leaving the input as it was.
pub proof fn one_or_more_fails_where_zero_or_more_is_empty<'a, A, P: Parser<'a, A>>(
    parser: P,
    input: Seq<char>,
)
    ensures
        (Repetition { parser, min: 1, max: None }).rejects(input) <==> parser.rejects(input),
        forall|rest: Seq<char>, out: Vec<A>|
            out@.len() == 0 ==> ((Repetition { parser, min: 0, max: None }).accepts(
                input,
                rest,
                out,
            ) <==> rest == input && (Repetition { parser, min: 1, max: None }).rejects(input)),
{
    let one = Repetition { parser, min: 1, max: None };
    let zero = Repetition { parser, min: 0, max: None };
    let none = Seq::<A>::empty();
    repetition_stops_at_once(parser, input, input);
    if one.rejects(input) {
        let (rest, items) = choose|rest: Seq<char>, items: Seq<A>|
            #[trigger] exhausts(&one.parser, input, rest, items) && !count_allowed(
                one.min,
                one.max,
                items.len(),
            );
        assert(items =~= none);
        repetition_stops_at_once(parser, input, rest);
    }
    if parser.rejects(input) {
        assert(exhausts(&one.parser, input, input, none));
        assert(!count_allowed(one.min, one.max, none.len()));
    }
    assert forall|rest: Seq<char>, out: Vec<A>| out@.len() == 0 implies (zero.accepts(
        input,
        rest,
        out,
    ) <==> rest == input && one.rejects(input)) by {
        assert(out@ =~= none);
        repetition_stops_at_once(parser, input, rest);
    }
}

/// Mapping with a function that gives back what it was given changes
/// nothing: every outcome of the mapped parser is an outcome of the parser
/// itself, the two fail on the same inputs, and an outcome of the parser
/// whose value the function can give back is an outcome of the mapped
/// parser.
pub proof fn map_identity<'a, P, F, A>(
    mapped: Mapped<P, F, A>,
    input: Seq<char>,
    rest: Seq<char>,
    out: A,
) where P: Parser<'a, A>, F: Fn(A) -> A
    requires
        forall|a: A, b: A| #[trigger] call_ensures(mapped.func, (a,), b) ==> b == a,
    ensures
        mapped.accepts(input, rest, out) ==> mapped.parser.accepts(input, rest, out),
        call_ensures(mapped.func, (out,), out) ==> (mapped.accepts(input, rest, out)
            <==> mapped.parser.accepts(input, rest, out)),
        mapped.rejects(input) <==> mapped.parser.rejects(input),
{
}

} // verus!
