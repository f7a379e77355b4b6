use crate::parser::{lemma_suffix_transitive, ParseResult, Parser};
use std::marker::PhantomData;
use vstd::prelude::*;

verus! {

/// Two parsers one after the other: the second reads what the first left.
pub struct Pair<PA, PB> {
    pub first: PA,
    pub second: PB,
}

impl<'a, PA, PB, R1, R2> Parser<'a, (R1, R2)> for Pair<PA, PB> where
    PA: Parser<'a, R1>,
    PB: Parser<'a, R2>,
 {
    open spec fn wf(&self) -> bool {
        self.first.wf() && self.second.wf()
    }

    /// Both succeed in turn; the values come as a tuple, in that order.
    open spec fn accepts(&self, input: Seq<char>, rest: Seq<char>, out: (R1, R2)) -> bool {
        exists|mid: Seq<char>|
            #![trigger self.first.accepts(input, mid, out.0)]
            #![trigger self.second.accepts(mid, rest, out.1)]
            self.first.accepts(input, mid, out.0) && self.second.accepts(mid, rest, out.1)
    }

    /// The first fails, or it succeeds and the second fails on what it left.
    open spec fn rejects(&self, input: Seq<char>) -> bool {
        self.first.rejects(input) || exists|mid: Seq<char>, a: R1|
            #![trigger self.first.accepts(input, mid, a)]
            self.first.accepts(input, mid, a) && self.second.rejects(mid)
    }

    fn parse(&self, input: &'a str) -> (r: ParseResult<'a, (R1, R2)>) {
        match self.first.parse(input) {
            Err(back) => Err(back),
            Ok((next, a)) => match self.second.parse(next) {
                Ok((last, b)) => {
                    proof {
                        lemma_suffix_transitive(last@, next@, input@);
                        assert(self.first.accepts(input@, next@, (a, b).0));
                        assert(self.second.accepts(next@, last@, (a, b).1));
                    }
                    Ok((last, (a, b)))
                },
                Err(_) => Err(input),
            },
        }
    }
}

/// The outcomes of a pair in terms of those of its two parsers, for use
/// where one of them is a function or a closure: there Verus does not
/// unfold the definitions by itself.
pub proof fn pair_outcomes<'a, PA, PB, R1, R2>(both: Pair<PA, PB>) where
    PA: Parser<'a, R1>,
    PB: Parser<'a, R2>,

    ensures
        both.wf() <==> both.first.wf() && both.second.wf(),
        forall|input: Seq<char>, rest: Seq<char>, out: (R1, R2)| #[trigger]
            both.accepts(input, rest, out) <==> exists|mid: Seq<char>|
                #![trigger both.first.accepts(input, mid, out.0)]
                #![trigger both.second.accepts(mid, rest, out.1)]
                both.first.accepts(input, mid, out.0) && both.second.accepts(mid, rest, out.1),
        forall|input: Seq<char>| #[trigger]
            both.rejects(input) <==> both.first.rejects(input) || exists|mid: Seq<char>, a: R1|
                #![trigger both.first.accepts(input, mid, a)]
                both.first.accepts(input, mid, a) && both.second.rejects(mid),
{
}

/// Runs `parser1` and then `parser2` on what it left, and gives both values.
pub fn pair<'a, PA, PB, R1, R2>(parser1: PA, parser2: PB) -> (r: Pair<PA, PB>) where
    PA: Parser<'a, R1>,
    PB: Parser<'a, R2>,

    ensures
        r == (Pair { first: parser1, second: parser2 }),
{
    Pair { first: parser1, second: parser2 }
}

/// A parser whose value is passed through a function.
pub struct Mapped<P, F, A> {
    pub parser: P,
    pub func: F,
    pub from: PhantomData<A>,
}

impl<'a, P, F, A, B> Parser<'a, B> for Mapped<P, F, A> where P: Parser<'a, A>, F: Fn(A) -> B {
    /// The function can be called on every value that the parser can give.
    open spec fn wf(&self) -> bool {
        &&& self.parser.wf()
        &&& forall|input: Seq<char>, rest: Seq<char>, a: A| #[trigger]
            self.parser.accepts(input, rest, a) ==> call_requires(self.func, (a,))
    }

    /// The parser succeeds with some value, and `out` is what the function
    /// can make of it; what is left is what the parser left.
    open spec fn accepts(&self, input: Seq<char>, rest: Seq<char>, out: B) -> bool {
        exists|a: A|
            #![trigger self.parser.accepts(input, rest, a)]
            #![trigger call_ensures(self.func, (a,), out)]
            self.parser.accepts(input, rest, a) && call_ensures(self.func, (a,), out)
    }

    open spec fn rejects(&self, input: Seq<char>) -> bool {
        self.parser.rejects(input)
    }

    fn parse(&self, input: &'a str) -> (r: ParseResult<'a, B>) {
        match self.parser.parse(input) {
            Ok((rest, a)) => {
                let out = (self.func)(a);
                Ok((rest, out))
            },
            Err(back) => Err(back),
        }
    }
}

/// The outcomes of a mapped parser in terms of those of its parser and of
/// what its function ensures. A mapped parser always holds a function, so
/// its users need this lemma to unfold the definitions.
pub proof fn mapped_outcomes<'a, P, F, A, B>(mapped: Mapped<P, F, A>) where
    P: Parser<'a, A>,
    F: Fn(A) -> B,

    ensures
        mapped.wf() <==> {
            &&& mapped.parser.wf()
            &&& forall|input: Seq<char>, rest: Seq<char>, a: A| #[trigger]
                mapped.parser.accepts(input, rest, a) ==> call_requires(mapped.func, (a,))
        },
        forall|input: Seq<char>, rest: Seq<char>, out: B| #[trigger]
            mapped.accepts(input, rest, out) <==> exists|a: A|
                #![trigger mapped.parser.accepts(input, rest, a)]
                #![trigger call_ensures(mapped.func, (a,), out)]
                mapped.parser.accepts(input, rest, a) && call_ensures(mapped.func, (a,), out),
        forall|input: Seq<char>| #[trigger]
            mapped.rejects(input) <==> mapped.parser.rejects(input),
{
}

/// Runs `parser` and applies `map_fn` to its value; the input that is left,
/// and a failure, are the parser's own.
pub fn map<'a, P, F, A, B>(parser: P, map_fn: F) -> (r: Mapped<P, F, A>) where
    P: Parser<'a, A>,
    F: Fn(A) -> B,

    ensures
        r == (Mapped { parser, func: map_fn, from: PhantomData::<A> }),
{
    Mapped { parser, func: map_fn, from: PhantomData }
}

/// A pair of parsers of which only the first one's value is kept.
pub struct Left<PA, PB, R2> {
    pub both: Pair<PA, PB>,
    pub dropped: PhantomData<R2>,
}

impl<'a, PA, PB, R1, R2> Parser<'a, R1> for Left<PA, PB, R2> where
    PA: Parser<'a, R1>,
    PB: Parser<'a, R2>,
 {
    open spec fn wf(&self) -> bool {
        self.both.wf()
    }

    open spec fn accepts(&self, input: Seq<char>, rest: Seq<char>, out: R1) -> bool {
        exists|b: R2| #[trigger] self.both.accepts(input, rest, (out, b))
    }

    open spec fn rejects(&self, input: Seq<char>) -> bool {
        self.both.rejects(input)
    }

    fn parse(&self, input: &'a str) -> (r: ParseResult<'a, R1>) {
        match self.both.parse(input) {
            Ok((rest, (a, b))) => {
                assert(self.both.accepts(input@, rest@, (a, b)));
                Ok((rest, a))
            },
            Err(back) => Err(back),
        }
    }
}

/// The outcomes of `left` in terms of those of its pair, for use where one
/// of the two parsers is a function or a closure.
pub proof fn left_outcomes<'a, PA, PB, R1, R2>(kept: Left<PA, PB, R2>) where
    PA: Parser<'a, R1>,
    PB: Parser<'a, R2>,

    ensures
        kept.wf() <==> kept.both.wf(),
        forall|input: Seq<char>, rest: Seq<char>, out: R1| #[trigger]
            kept.accepts(input, rest, out) <==> exists|b: R2| #[trigger]
                kept.both.accepts(input, rest, (out, b)),
        forall|input: Seq<char>| #[trigger] kept.rejects(input) <==> kept.both.rejects(input),
{
}

/// Runs `parser1` and then `parser2`, and keeps the value of `parser1`.
pub fn left<'a, PA, PB, R1, R2>(parser1: PA, parser2: PB) -> (r: Left<PA, PB, R2>) where
    PA: Parser<'a, R1>,
    PB: Parser<'a, R2>,

    ensures
        r == (Left {
            both: Pair { first: parser1, second: parser2 },
            dropped: PhantomData::<R2>,
        }),
{
    Left { both: pair(parser1, parser2), dropped: PhantomData }
}

/// A pair of parsers of which only the second one's value is kept.
pub struct Right<PA, PB, R1> {
    pub both: Pair<PA, PB>,
    pub dropped: PhantomData<R1>,
}

impl<'a, PA, PB, R1, R2> Parser<'a, R2> for Right<PA, PB, R1> where
    PA: Parser<'a, R1>,
    PB: Parser<'a, R2>,
 {
    open spec fn wf(&self) -> bool {
        self.both.wf()
    }

    open spec fn accepts(&self, input: Seq<char>, rest: Seq<char>, out: R2) -> bool {
        exists|a: R1| #[trigger] self.both.accepts(input, rest, (a, out))
    }

    open spec fn rejects(&self, input: Seq<char>) -> bool {
        self.both.rejects(input)
    }

    fn parse(&self, input: &'a str) -> (r: ParseResult<'a, R2>) {
        match self.both.parse(input) {
            Ok((rest, (a, b))) => {
                assert(self.both.accepts(input@, rest@, (a, b)));
                Ok((rest, b))
            },
            Err(back) => Err(back),
        }
    }
}

/// The outcomes of `right` in terms of those of its pair, for use where one
/// of the two parsers is a function or a closure.
pub proof fn right_outcomes<'a, PA, PB, R1, R2>(kept: Right<PA, PB, R1>) where
    PA: Parser<'a, R1>,
    PB: Parser<'a, R2>,

    ensures
        kept.wf() <==> kept.both.wf(),
        forall|input: Seq<char>, rest: Seq<char>, out: R2| #[trigger]
            kept.accepts(input, rest, out) <==> exists|a: R1| #[trigger]
                kept.both.accepts(input, rest, (a, out)),
        forall|input: Seq<char>| #[trigger] kept.rejects(input) <==> kept.both.rejects(input),
{
}

/// Runs `parser1` and then `parser2`, and keeps the value of `parser2`.
pub fn right<'a, PA, PB, R1, R2>(parser1: PA, parser2: PB) -> (r: Right<PA, PB, R1>) where
    PA: Parser<'a, R1>,
    PB: Parser<'a, R2>,

    ensures
        r == (Right {
            both: Pair { first: parser1, second: parser2 },
            dropped: PhantomData::<R1>,
        }),
{
    Right { both: pair(parser1, parser2), dropped: PhantomData }
}

} // verus!
