use crate::parser::{lemma_rest_is_suffix, ParseResult, Parser};
use vstd::prelude::*;
use vstd::std_specs::iter::IteratorSpec;

verus! {

broadcast use vstd::string::group_string_axioms;

/// Whether `char::is_alphabetic` holds of `c`: the Unicode property
/// `Alphabetic`.
pub uninterp spec fn is_alphabetic(c: char) -> bool;

/// Whether `char::is_alphanumeric` holds of `c`: alphabetic, or in one of
/// the Unicode number categories.
pub uninterp spec fn is_alphanumeric(c: char) -> bool;

/// `char::is_alphabetic`. Nothing is proved of the answer; it is only given
/// the name `is_alphabetic`.
#[verifier::external_body]
fn char_is_alphabetic(c: char) -> (r: bool)
    ensures
        r == is_alphabetic(c),
{
    c.is_alphabetic()
}

/// `char::is_alphanumeric`. Nothing is proved of the answer; it is only given
/// the name `is_alphanumeric`.
#[verifier::external_body]
fn char_is_alphanumeric(c: char) -> (r: bool)
    ensures
        r == is_alphanumeric(c),
{
    c.is_alphanumeric()
}

/// `String::push`: the string afterwards is the string before with `c` added
/// at its end.
#[verifier::external_body]
fn push_char(text: &mut String, c: char)
    ensures
        final(text)@ == old(text)@.push(c),
{
    text.push(c)
}

/// `str::strip_prefix` with a string as the pattern: when `input` begins with
/// `prefix`, the part of `input` behind it; `None` when it does not.
#[verifier::external_body]
fn strip_prefix<'a>(input: &'a str, prefix: &str) -> (r: Option<&'a str>)
    ensures
        match r {
            Some(rest) => input@ == prefix@ + rest@,
            None => !prefix@.is_prefix_of(input@),
        },
{
    input.strip_prefix(prefix)
}

/// Takes one `a` off the front of the input.
pub fn the_letter_a<'a>(input: &'a str) -> (r: ParseResult<'a, ()>)
    ensures
        match r {
            Ok((rest, _)) => input@.len() > 0 && input@[0] == 'a' && rest@ == input@.skip(1)
                && rest@.is_suffix_of(input@),
            Err(back) => back@ == input@ && !(input@.len() > 0 && input@[0] == 'a'),
        },
{
    proof {
        reveal_strlit("a");
    }
    match strip_prefix(input, "a") {
        Some(rest) => {
            proof {
                lemma_rest_is_suffix("a"@, rest@);
                assert(rest@ =~= input@.skip(1));
            }
            Ok((rest, ()))
        },
        None => {
            assert(input@.len() > 0 && input@[0] == 'a' ==> "a"@ =~= input@.subrange(0, 1));
            Err(input)
        },
    }
}

/// The parser that `match_literal` makes: it takes `expected` off the front
/// of the input.
pub struct Literal {
    pub expected: &'static str,
}

impl<'a> Parser<'a, ()> for Literal {
    open spec fn wf(&self) -> bool {
        true
    }

    open spec fn accepts(&self, input: Seq<char>, rest: Seq<char>, out: ()) -> bool {
        input == self.expected@ + rest
    }

    open spec fn rejects(&self, input: Seq<char>) -> bool {
        !self.expected@.is_prefix_of(input)
    }

    fn parse(&self, input: &'a str) -> (r: ParseResult<'a, ()>)
        ensures
            r is Ok <==> self.expected@.is_prefix_of(input@),
            r matches Ok((rest, _)) ==> rest@ == input@.skip(self.expected@.len() as int),
    {
        match strip_prefix(input, self.expected) {
            Some(rest) => {
                proof {
                    lemma_rest_is_suffix(self.expected@, rest@);
                    assert(self.expected@ =~= input@.subrange(0, self.expected@.len() as int));
                    assert(rest@ =~= input@.skip(self.expected@.len() as int));
                }
                Ok((rest, ()))
            },
            None => Err(input),
        }
    }
}

/// A parser for the text `expected`.
pub fn match_literal(expected: &'static str) -> (r: Literal)
    ensures
        r == (Literal { expected }),
{
    Literal { expected }
}

/// A character that may stand in an identifier behind its first one.
pub open spec fn is_identifier_char(c: char) -> bool {
    is_alphanumeric(c) || c == '-'
}

/// `name` is the identifier at the front of `input`, and `rest` what follows
/// it: `name` begins with an alphabetic character, goes on with identifier
/// characters, and is followed by the end of the input or by a character that
/// cannot stand in an identifier.
pub open spec fn identifier_at_front(input: Seq<char>, rest: Seq<char>, name: Seq<char>) -> bool {
    &&& input == name + rest
    &&& name.len() >= 1
    &&& is_alphabetic(name[0])
    &&& forall|i: int| 1 <= i < name.len() ==> is_identifier_char(#[trigger] name[i])
    &&& rest.len() == 0 || !is_identifier_char(rest[0])
}

/// No identifier stands at the front of `input`.
pub open spec fn no_identifier_at_front(input: Seq<char>) -> bool {
    input.len() == 0 || !is_alphabetic(input[0])
}

/// Reads an identifier: one alphabetic character and then as many
/// alphanumeric characters and hyphens as follow it.
pub fn identifier<'a>(input: &'a str) -> (r: ParseResult<'a, String>)
    ensures
        match r {
            Ok((rest, name)) => identifier_at_front(input@, rest@, name@) && rest@.is_suffix_of(
                input@,
            ),
            Err(back) => back@ == input@ && no_identifier_at_front(input@),
        },
        r is Err <==> no_identifier_at_front(input@),
{
    let mut matched = String::new();
    let mut chars = input.chars();
    match chars.next() {
        Some(first) => {
            if char_is_alphabetic(first) {
                push_char(&mut matched, first);
            } else {
                return Err(input);
            }
        },
        None => {
            return Err(input);
        },
    }
    assert(matched@ =~= input@.take(1));
    let mut stopped = false;
    while !stopped
        invariant
            1 <= matched@.len() <= input@.len(),
            matched@ == input@.take(matched@.len() as int),
            is_alphabetic(matched@[0]),
            forall|i: int| 1 <= i < matched@.len() ==> is_identifier_char(#[trigger] matched@[i]),
            !stopped ==> chars.remaining() == input@.skip(matched@.len() as int),
            stopped ==> matched@.len() == input@.len() || !is_identifier_char(
                input@[matched@.len() as int],
            ),
        decreases (if stopped { 0nat } else { 1nat }), input@.len() - matched@.len(),
    {
        let ghost before = matched@;
        match chars.next() {
            Some(next) => {
                assert(next == input@[before.len() as int]);
                if char_is_alphanumeric(next) || next == '-' {
                    push_char(&mut matched, next);
                    assert(matched@ =~= input@.take(matched@.len() as int));
                    assert(chars.remaining() =~= input@.skip(matched@.len() as int));
                } else {
                    stopped = true;
                }
            },
            None => {
                stopped = true;
            },
        }
    }
    match strip_prefix(input, matched.as_str()) {
        Some(rest) => {
            proof {
                lemma_rest_is_suffix(matched@, rest@);
                assert(rest@ =~= input@.skip(matched@.len() as int));
                assert(input@[0] == matched@[0]);
            }
            Ok((rest, matched))
        },
        None => {
            // `matched` was read off the front of `input`, so this is never reached.
            assert(matched@.is_prefix_of(input@));
            Err(input)
        },
    }
}

} // verus!
