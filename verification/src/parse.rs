//! Validating tokenized numeric text.
//!
//! `parse_num_str` runs the tokenizer and accepts the token list only when
//! every token matches the number grammar; the first offending token aborts
//! the whole operation, so no partial result ever escapes.

use vstd::prelude::*;
use crate::error::SumError;
use crate::number::{is_number, is_number_token};
use crate::tokenize::{spec_tokens, tokenize};

verus! {

/// Every token is a valid number.
pub open spec fn all_numbers(toks: Seq<Seq<char>>) -> bool {
    forall|i: int| 0 <= i < toks.len() ==> is_number(#[trigger] toks[i])
}

/// The position of the first token that is not a valid number.
pub open spec fn first_bad(toks: Seq<Seq<char>>) -> int
    decreases toks.len(),
{
    if toks.len() == 0 {
        0
    } else if !is_number(toks[0]) {
        0
    } else {
        1 + first_bad(toks.skip(1))
    }
}

proof fn lemma_first_bad(toks: Seq<Seq<char>>, i: int)
    requires
        0 <= i < toks.len(),
        !is_number(toks[i]),
        forall|x: int| 0 <= x < i ==> is_number(#[trigger] toks[x]),
    ensures
        first_bad(toks) == i,
    decreases i,
{
    if i > 0 {
        assert forall|x: int| 0 <= x < i - 1 implies is_number(#[trigger] toks.skip(1)[x]) by {
            assert(toks.skip(1)[x] == toks[x + 1]);
        }
        assert(toks.skip(1)[i - 1] == toks[i]);
        lemma_first_bad(toks.skip(1), i - 1);
    }
}

/// Relies on String::push: appends the given character to the end of the
/// string.
#[verifier::external_body]
fn push_char(s: &mut String, c: char)
    ensures
        final(s)@ == old(s)@.push(c),
{
    s.push(c);
}

/// The characters, as a string.
fn chars_to_string(cs: &Vec<char>) -> (r: String)
    ensures
        r@ == cs@,
{
    let mut r = String::new();
    let mut i: usize = 0;
    while i < cs.len()
        invariant
            i <= cs@.len(),
            r@ == cs@.take(i as int),
        decreases cs@.len() - i,
    {
        push_char(&mut r, cs[i]);
        proof {
            assert(cs@.take(i + 1) =~= cs@.take(i as int).push(cs@[i as int]));
        }
        i = i + 1;
    }
    proof {
        assert(cs@.take(cs@.len() as int) =~= cs@);
    }
    r
}

/// Tokenizes raw numeric text and checks that every token is a valid
/// number.
///
/// On success the result holds exactly the tokens of the text, in order.
/// The operation fails if and only if some token is not a valid number, and
/// then reports the first such token; note that empty text and consecutive
/// separators yield empty tokens, which are not valid numbers.
pub fn parse_num_str(num_str: &str) -> (r: Result<Vec<String>, SumError>)
    ensures
        r is Ok <==> all_numbers(spec_tokens(num_str@)),
        r matches Ok(v) ==> v.deep_view() == spec_tokens(num_str@),
        r matches Err(e) ==> (e matches SumError::ParseError(t) && t@ == spec_tokens(num_str@)[
        first_bad(spec_tokens(num_str@))] && !is_number(t@)),
{
    let toks = tokenize(num_str);
    let mut i: usize = 0;
    while i < toks.len()
        invariant
            i <= toks@.len(),
            toks.deep_view() == spec_tokens(num_str@),
            forall|x: int| 0 <= x < i ==> is_number(#[trigger] toks.deep_view()[x]),
        decreases toks@.len() - i,
    {
        proof {
            assert(toks.deep_view()[i as int] =~= toks@[i as int]@);
        }
        if !is_number_token(&toks[i]) {
            let t = chars_to_string(&toks[i]);
            proof {
                lemma_first_bad(toks.deep_view(), i as int);
            }
            return Err(SumError::ParseError(t));
        }
        i = i + 1;
    }
    let mut out: Vec<String> = Vec::new();
    let mut j: usize = 0;
    while j < toks.len()
        invariant
            j <= toks@.len(),
            toks.deep_view() == spec_tokens(num_str@),
            all_numbers(spec_tokens(num_str@)),
            out.deep_view() == spec_tokens(num_str@).take(j as int),
        decreases toks@.len() - j,
    {
        let ghost out_dv = out.deep_view();
        let t = chars_to_string(&toks[j]);
        proof {
            assert(toks.deep_view()[j as int] =~= toks@[j as int]@);
        }
        out.push(t);
        proof {
            assert(out.deep_view() =~~= out_dv.push(toks.deep_view()[j as int]));
            assert(spec_tokens(num_str@).take(j + 1) =~= spec_tokens(num_str@).take(
                j as int,
            ).push(spec_tokens(num_str@)[j as int]));
        }
        j = j + 1;
    }
    proof {
        assert(spec_tokens(num_str@).take(spec_tokens(num_str@).len() as int) =~= spec_tokens(
            num_str@,
        ));
    }
    Ok(out)
}

} // verus!
