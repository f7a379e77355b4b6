use vstd::prelude::*;

verus! {

/// What a parser hands back: the unread rest of the input together with the
/// value that was read, or, when nothing matched, the input as it was given.
pub type ParseResult<'a, Output> = Result<(&'a str, Output), &'a str>;

/// Something that can try to read a value of type `Output` off the front of
/// a string.
///
/// The two relations `accepts` and `rejects` say which outcomes a parser can
/// have on an input; `parse` promises that its result is one of them, that
/// what is left over is a suffix of the input, and that a failure carries the
/// input itself.
pub trait Parser<'a, Output> {
    /// What has to hold of the parser for `parse` to be called on it.
    spec fn wf(&self) -> bool;

    /// On `input` the parser can succeed, leaving `rest` and giving `out`.
    spec fn accepts(&self, input: Seq<char>, rest: Seq<char>, out: Output) -> bool;

    /// On `input` the parser can fail.
    spec fn rejects(&self, input: Seq<char>) -> bool;

    /// Tries to read a value off the front of `input`. A success gives what
    /// is left of `input` and the value; a failure gives `input` back.
    fn parse(&self, input: &'a str) -> (r: ParseResult<'a, Output>)
        requires
            self.wf(),
        ensures
            match r {
                Ok((rest, out)) => self.accepts(input@, rest@, out) && rest@.is_suffix_of(input@),
                Err(back) => back@ == input@ && self.rejects(input@),
            },
    ;
}

/// Any function from an input to a `ParseResult` is a parser. It is well
/// formed when it can be called on every input, leaves only suffixes of its
/// input and fails only with the input it was given.
impl<'a, F, Output> Parser<'a, Output> for F where F: Fn(&'a str) -> ParseResult<'a, Output> {
    open spec fn wf(&self) -> bool {
        &&& forall|input: &'a str| call_requires(*self, (input,))
        &&& forall|input: &'a str, r: ParseResult<'a, Output>| #[trigger]
            call_ensures(*self, (input,), r) ==> match r {
                Ok((rest, _)) => rest@.is_suffix_of(input@),
                Err(back) => back@ == input@,
            }
    }

    open spec fn accepts(&self, input: Seq<char>, rest: Seq<char>, out: Output) -> bool {
        exists|i: &'a str, r: &'a str|
            i@ == input && r@ == rest && #[trigger] call_ensures(*self, (i,), Ok((r, out)))
    }

    open spec fn rejects(&self, input: Seq<char>) -> bool {
        exists|i: &'a str, r: &'a str| i@ == input && #[trigger] call_ensures(*self, (i,), Err(r))
    }

    fn parse(&self, input: &'a str) -> (r: ParseResult<'a, Output>) {
        self(input)
    }
}

/// The outcomes of a function that is used as a parser, in terms of what the
/// function itself ensures. Verus unfolds the three definitions above by
/// itself only inside code that is generic in the function; for a given
/// function or closure this lemma hands them over.
pub proof fn function_outcomes<'a, F, Output>(f: F) where
    F: Fn(&'a str) -> ParseResult<'a, Output>,

    ensures
        f.wf() <==> {
            &&& forall|input: &'a str| call_requires(f, (input,))
            &&& forall|input: &'a str, r: ParseResult<'a, Output>| #[trigger]
                call_ensures(f, (input,), r) ==> match r {
                    Ok((rest, _)) => rest@.is_suffix_of(input@),
                    Err(back) => back@ == input@,
                }
        },
        forall|input: Seq<char>, rest: Seq<char>, out: Output| #[trigger]
            f.accepts(input, rest, out) <==> exists|i: &'a str, r: &'a str|
                i@ == input && r@ == rest && #[trigger] call_ensures(f, (i,), Ok((r, out))),
        forall|input: Seq<char>| #[trigger]
            f.rejects(input) <==> exists|i: &'a str, r: &'a str|
                i@ == input && #[trigger] call_ensures(f, (i,), Err(r)),
{
}

/// A suffix of a suffix is a suffix.
pub proof fn lemma_suffix_transitive(a: Seq<char>, b: Seq<char>, c: Seq<char>)
    requires
        a.is_suffix_of(b),
        b.is_suffix_of(c),
    ensures
        a.is_suffix_of(c),
{
    let k = b.len() - a.len();
    let m = c.len() - b.len();
    assert(a =~= c.subrange(c.len() - a.len(), c.len() as int)) by {
        assert forall|i: int| 0 <= i < a.len() implies a[i] == c[c.len() - a.len() + i] by {
            assert(a[i] == b.subrange(k, b.len() as int)[i]);
            assert(b[k + i] == c.subrange(m, c.len() as int)[k + i]);
        }
    }
}

/// What follows a prefix is a suffix.
pub proof fn lemma_rest_is_suffix(front: Seq<char>, rest: Seq<char>)
    ensures
        rest.is_suffix_of(front + rest),
{
    let whole = front + rest;
    assert(rest =~= whole.subrange(whole.len() - rest.len(), whole.len() as int));
}

} // verus!
