//! Resolving the command line into an input mode.

use vstd::prelude::*;
use crate::error::SumError;

verus! {

/// The input mode of one run: exactly one is selected per invocation.
#[derive(Debug, PartialEq, Eq)]
pub enum Config {
    /// No arguments were given: read standard input to the end.
    Stdin,
    /// The numeric text was given directly on the command line.
    CliArg(String),
    /// Read the file at this path.
    File(String),
    /// Print the help text and do nothing else.
    PrintHelp,
}

/// The arguments after the program name, joined with single spaces in order,
/// with no trailing separator.
pub open spec fn join_spaces(parts: Seq<Seq<char>>) -> Seq<char>
    decreases parts.len(),
{
    if parts.len() == 0 {
        Seq::empty()
    } else if parts.len() == 1 {
        parts[0]
    } else {
        parts[0] + seq![' '] + join_spaces(parts.skip(1))
    }
}

proof fn lemma_join_spaces_push(parts: Seq<Seq<char>>, p: Seq<char>)
    requires
        parts.len() >= 1,
    ensures
        join_spaces(parts.push(p)) == join_spaces(parts) + seq![' '] + p,
    decreases parts.len(),
{
    let whole = parts.push(p);
    if parts.len() == 1 {
        assert(whole.skip(1) =~= seq![p]);
        assert(join_spaces(whole) == parts[0] + seq![' '] + p);
    } else {
        lemma_join_spaces_push(parts.skip(1), p);
        assert(whole.skip(1) =~= parts.skip(1).push(p));
        assert(join_spaces(whole) == whole[0] + seq![' '] + join_spaces(whole.skip(1)));
        assert(parts[0] + seq![' '] + (join_spaces(parts.skip(1)) + seq![' '] + p) =~= (
        parts[0] + seq![' '] + join_spaces(parts.skip(1))) + seq![' '] + p);
    }
}

/// Character-by-character string comparison, specified over the views.
fn str_eq(a: &str, b: &str) -> (r: bool)
    ensures
        r == (a@ == b@),
{
    let alen = a.unicode_len();
    let blen = b.unicode_len();
    if alen != blen {
        return false;
    }
    let mut i: usize = 0;
    while i < alen
        invariant
            alen == a@.len(),
            blen == b@.len(),
            alen == blen,
            i <= alen,
            forall|j: int| 0 <= j < i ==> a@[j] == b@[j],
        decreases alen - i,
    {
        if a.get_char(i) != b.get_char(i) {
            return false;
        }
        i = i + 1;
    }
    proof {
        assert(a@ =~= b@);
    }
    true
}

/// Resolves the full process argument list (program name at position 0) into
/// an input mode.
///
/// With nothing after the program name the mode is `Stdin`; a first argument
/// `-f` selects the file named next, or fails when none follows; a first
/// argument `-h` selects the help mode whatever follows; any other first
/// argument makes the remaining arguments, joined with single spaces, the
/// literal numeric text.
pub fn parse_args(args: Vec<String>) -> (r: Result<Config, SumError>)
    ensures
        args.deep_view().len() <= 1 ==> (r matches Ok(c) && c is Stdin),
        args.deep_view().len() >= 2 && args.deep_view()[1] == "-h"@ ==> (r matches Ok(c)
            && c is PrintHelp),
        args.deep_view().len() >= 3 && args.deep_view()[1] == "-f"@ ==> (r matches Ok(c) && (
        c matches Config::File(p) && p@ == args.deep_view()[2])),
        args.deep_view().len() == 2 && args.deep_view()[1] == "-f"@ ==> (r matches Err(e)
            && e is MissingArgument),
        args.deep_view().len() >= 2 && args.deep_view()[1] != "-h"@ && args.deep_view()[1]
            != "-f"@ ==> (r matches Ok(c) && (c matches Config::CliArg(t) && t@ == join_spaces(
        args.deep_view().skip(1)))),
        r is Err <==> (args.deep_view().len() == 2 && args.deep_view()[1] == "-f"@),
{
    proof {
        reveal_strlit("-f");
        reveal_strlit("-h");
        assert("-f"@[1] == 'f' && "-h"@[1] == 'h');
        assert("-f"@ != "-h"@);
    }
    let ghost a = args.deep_view();
    if args.len() <= 1 {
        return Ok(Config::Stdin);
    }
    let first = &args[1];
    proof {
        assert(a[1] == args@[1]@);
    }
    if str_eq(first.as_str(), "-f") {
        if args.len() >= 3 {
            proof {
                assert(a[2] == args@[2]@);
            }
            Ok(Config::File(args[2].clone()))
        } else {
            Err(SumError::MissingArgument)
        }
    } else if str_eq(first.as_str(), "-h") {
        Ok(Config::PrintHelp)
    } else {
        let mut joined = String::new();
        let mut i: usize = 1;
        while i < args.len()
            invariant
                1 <= i <= args.len(),
                2 <= args.len(),
                a == args.deep_view(),
                a.len() == args.len(),
                joined@ == join_spaces(a.subrange(1, i as int)) + (if 1 < i && i < args.len() {
                    seq![' ']
                } else {
                    Seq::<char>::empty()
                }),
            decreases args.len() - i,
        {
            let ghost prefix = a.subrange(1, i as int);
            proof {
                assert(a[i as int] == args@[i as int]@);
                assert(a.subrange(1, i + 1 as int) =~= prefix.push(a[i as int]));
            }
            joined.append(args[i].as_str());
            if i + 1 < args.len() {
                joined.append(" ");
                proof {
                    reveal_strlit(" ");
                    assert(" "@ =~= seq![' ']);
                }
            }
            proof {
                if i == 1 {
                    assert(prefix.len() == 0);
                    assert(join_spaces(prefix) == Seq::<char>::empty());
                    assert(join_spaces(prefix.push(a[i as int])) == a[i as int]);
                    assert(join_spaces(prefix) + Seq::<char>::empty() + a[i as int] =~= a[
                    i as int]);
                } else {
                    lemma_join_spaces_push(prefix, a[i as int]);
                }
            }
            i = i + 1;
        }
        proof {
            assert(a.subrange(1, a.len() as int) =~= a.skip(1));
        }
        Ok(Config::CliArg(joined))
    }
}

/// The fixed help text.
pub open spec fn help_text_spec() -> Seq<char> {
    "\nSums up space and or newline delimited numbers (both integers and decimals) and prints result to stdout.\nInput can be from stdin (no flag) or a file (-f flag).\nNote: Commas in the numbers are allowed.\n"@
}

/// The fixed help text; every call returns the same string.
pub fn help_text() -> (r: &'static str)
    ensures
        r@ == help_text_spec(),
{
    "\nSums up space and or newline delimited numbers (both integers and decimals) and prints result to stdout.\nInput can be from stdin (no flag) or a file (-f flag).\nNote: Commas in the numbers are allowed.\n"
}

} // verus!
