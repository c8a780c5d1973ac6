//! Turning raw numeric text into tokens.
//!
//! The pipeline first removes every comma (a thousands separator, never a
//! delimiter), then trims surrounding whitespace, and finally splits on
//! single space and newline characters.  Splitting keeps empty pieces, so
//! consecutive separators yield empty tokens, which later fail validation.

use vstd::prelude::*;

verus! {

/// A whitespace character, as the trimming step understands it: the Unicode
/// `White_Space` set.
pub open spec fn is_ws(c: char) -> bool {
    let u = c as u32;
    u == 0x09 || u == 0x0A || u == 0x0B || u == 0x0C || u == 0x0D || u == 0x20 || u == 0x85 || u
        == 0xA0 || u == 0x1680 || (0x2000 <= u && u <= 0x200A) || u == 0x2028 || u == 0x2029 || u
        == 0x202F || u == 0x205F || u == 0x3000
}

fn is_ws_exec(c: char) -> (r: bool)
    ensures
        r == is_ws(c),
{
    let u = c as u32;
    u == 0x09 || u == 0x0A || u == 0x0B || u == 0x0C || u == 0x0D || u == 0x20 || u == 0x85 || u
        == 0xA0 || u == 0x1680 || (0x2000 <= u && u <= 0x200A) || u == 0x2028 || u == 0x2029 || u
        == 0x202F || u == 0x205F || u == 0x3000
}

/// A token separator: a single space or a newline.
pub open spec fn is_sep(c: char) -> bool {
    c == ' ' || c == '\n'
}

/// The characters of a string, in order.
pub fn to_char_vec(s: &str) -> (r: Vec<char>)
    ensures
        r@ == s@,
{
    let len = s.unicode_len();
    let mut r: Vec<char> = Vec::new();
    let mut i: usize = 0;
    while i < len
        invariant
            len == s@.len(),
            i <= len,
            r@ == s@.take(i as int),
        decreases len - i,
    {
        r.push(s.get_char(i));
        proof {
            assert(s@.take(i + 1) =~= s@.take(i as int).push(s@[i as int]));
        }
        i = i + 1;
    }
    proof {
        assert(s@.take(len as int) =~= s@);
    }
    r
}

/// The text with every comma removed, everything else kept in order.
pub open spec fn remove_commas(s: Seq<char>) -> Seq<char>
    decreases s.len(),
{
    if s.len() == 0 {
        Seq::empty()
    } else {
        let pre = remove_commas(s.drop_last());
        if s.last() == ',' {
            pre
        } else {
            pre.push(s.last())
        }
    }
}

/// Removes every comma from the characters.
pub fn remove_commas_exec(s: &Vec<char>) -> (r: Vec<char>)
    ensures
        r@ == remove_commas(s@),
{
    let mut r: Vec<char> = Vec::new();
    let mut i: usize = 0;
    while i < s.len()
        invariant
            i <= s@.len(),
            r@ == remove_commas(s@.take(i as int)),
        decreases s@.len() - i,
    {
        let c = s[i];
        proof {
            assert(s@.take(i + 1).drop_last() =~= s@.take(i as int));
            assert(s@.take(i + 1).last() == s@[i as int]);
        }
        if c != ',' {
            r.push(c);
        }
        i = i + 1;
    }
    proof {
        assert(s@.take(s@.len() as int) =~= s@);
    }
    r
}

/// The text with its maximal whitespace prefix removed.
pub open spec fn trim_start(s: Seq<char>) -> Seq<char>
    decreases s.len(),
{
    if s.len() > 0 && is_ws(s[0]) {
        trim_start(s.skip(1))
    } else {
        s
    }
}

/// The text with its maximal whitespace suffix removed.
pub open spec fn trim_end(s: Seq<char>) -> Seq<char>
    decreases s.len(),
{
    if s.len() > 0 && is_ws(s.last()) {
        trim_end(s.drop_last())
    } else {
        s
    }
}

/// The text with surrounding whitespace removed on both sides.
pub open spec fn trim_spec(s: Seq<char>) -> Seq<char> {
    trim_end(trim_start(s))
}

/// Removes leading and trailing whitespace from the characters.
pub fn trim_chars(s: &Vec<char>) -> (r: Vec<char>)
    ensures
        r@ == trim_spec(s@),
{
    proof {
        assert(s@.skip(0) =~= s@);
    }
    let mut lo: usize = 0;
    while lo < s.len() && is_ws_exec(s[lo])
        invariant
            lo <= s@.len(),
            trim_start(s@) == trim_start(s@.skip(lo as int)),
        decreases s@.len() - lo,
    {
        proof {
            assert(s@.skip(lo as int)[0] == s@[lo as int]);
            assert(s@.skip(lo as int).skip(1) =~= s@.skip(lo + 1));
        }
        lo = lo + 1;
    }
    proof {
        if lo < s@.len() {
            assert(trim_start(s@.skip(lo as int)) == s@.skip(lo as int));
        } else {
            assert(s@.skip(lo as int) =~= Seq::<char>::empty());
        }
        assert(trim_start(s@) == s@.skip(lo as int));
    }
    let mut hi: usize = s.len();
    while hi > lo && is_ws_exec(s[hi - 1])
        invariant
            lo <= hi <= s@.len(),
            trim_start(s@) == s@.skip(lo as int),
            trim_end(s@.skip(lo as int)) == trim_end(s@.subrange(lo as int, hi as int)),
        decreases hi,
    {
        proof {
            assert(s@.subrange(lo as int, hi as int).last() == s@[hi - 1]);
            assert(s@.subrange(lo as int, hi as int).drop_last() =~= s@.subrange(
                lo as int,
                hi - 1,
            ));
        }
        hi = hi - 1;
    }
    proof {
        if hi > lo {
            assert(s@.subrange(lo as int, hi as int).last() == s@[hi - 1]);
            assert(trim_end(s@.subrange(lo as int, hi as int)) == s@.subrange(
                lo as int,
                hi as int,
            ));
        } else {
            assert(s@.subrange(lo as int, hi as int) =~= Seq::<char>::empty());
        }
        assert(trim_spec(s@) == s@.subrange(lo as int, hi as int));
    }
    let mut r: Vec<char> = Vec::new();
    let mut i: usize = lo;
    while i < hi
        invariant
            lo <= i <= hi <= s@.len(),
            r@ == s@.subrange(lo as int, i as int),
        decreases hi - i,
    {
        r.push(s[i]);
        proof {
            assert(s@.subrange(lo as int, i + 1) =~= s@.subrange(lo as int, i as int).push(
                s@[i as int],
            ));
        }
        i = i + 1;
    }
    r
}

/// The pieces of the text between separators, in order, empty pieces kept.
/// Text without any separator is one piece, so empty text is one empty piece.
pub open spec fn split_seps(s: Seq<char>) -> Seq<Seq<char>>
    decreases s.len(),
{
    if s.len() == 0 {
        seq![Seq::<char>::empty()]
    } else if is_sep(s[0]) {
        seq![Seq::<char>::empty()] + split_seps(s.skip(1))
    } else {
        let rest = split_seps(s.skip(1));
        seq![seq![s[0]] + rest[0]] + rest.skip(1)
    }
}

pub proof fn lemma_split_seps_len(s: Seq<char>)
    ensures
        split_seps(s).len() >= 1,
    decreases s.len(),
{
    if s.len() > 0 {
        lemma_split_seps_len(s.skip(1));
    }
}

/// Splits the characters on spaces and newlines, keeping empty pieces.
pub fn split_tokens(s: &Vec<char>) -> (r: Vec<Vec<char>>)
    ensures
        r.deep_view() == split_seps(s@),
{
    let mut tokens: Vec<Vec<char>> = Vec::new();
    let mut cur: Vec<char> = Vec::new();
    proof {
        assert(s@.skip(0) =~= s@);
        lemma_split_seps_len(s@);
        assert(tokens.deep_view() =~~= Seq::<Seq<char>>::empty());
        assert(cur@ + split_seps(s@)[0] =~= split_seps(s@)[0]);
        assert(Seq::<Seq<char>>::empty().push(split_seps(s@)[0]) + split_seps(s@).skip(1)
            =~= split_seps(s@));
    }
    let mut i: usize = 0;
    while i < s.len()
        invariant
            i <= s@.len(),
            split_seps(s@.skip(i as int)).len() >= 1,
            split_seps(s@) == tokens.deep_view().push(
                cur@ + split_seps(s@.skip(i as int))[0],
            ) + split_seps(s@.skip(i as int)).skip(1),
        decreases s@.len() - i,
    {
        let ghost rest_here = split_seps(s@.skip(i as int));
        let ghost rest_next = split_seps(s@.skip(i + 1));
        proof {
            assert(s@.skip(i as int)[0] == s@[i as int]);
            assert(s@.skip(i as int).skip(1) =~= s@.skip(i + 1));
            lemma_split_seps_len(s@.skip(i + 1));
        }
        let c = s[i];
        if c == ' ' || c == '\n' {
            proof {
                assert(rest_here =~= seq![Seq::<char>::empty()] + rest_next);
                assert(rest_here[0] =~= Seq::<char>::empty());
                assert(rest_here.skip(1) =~= rest_next);
                assert(cur@ + rest_here[0] =~= cur@);
                assert(rest_next =~= seq![rest_next[0]] + rest_next.skip(1));
                assert(tokens.deep_view().push(cur@ + rest_here[0]) + rest_here.skip(1)
                    =~= tokens.deep_view().push(cur@).push(rest_next[0]) + rest_next.skip(1));
            }
            let ghost tokens_dv = tokens.deep_view();
            let ghost cur_view = cur@;
            tokens.push(cur);
            proof {
                assert(tokens.deep_view() =~~= tokens_dv.push(cur_view));
            }
            cur = Vec::new();
        } else {
            proof {
                assert(rest_here[0] =~= seq![s@[i as int]] + rest_next[0]);
                assert(rest_here.skip(1) =~= rest_next.skip(1));
                assert(cur@ + rest_here[0] =~= cur@.push(s@[i as int]) + rest_next[0]);
            }
            cur.push(c);
        }
        i = i + 1;
    }
    proof {
        assert(s@.skip(s@.len() as int) =~= Seq::<char>::empty());
        assert(split_seps(s@.skip(s@.len() as int)) =~= seq![Seq::<char>::empty()]);
        assert(cur@ + Seq::<char>::empty() =~= cur@);
        assert(split_seps(s@) =~~= tokens.deep_view().push(cur@));
    }
    let ghost tokens_dv = tokens.deep_view();
    let ghost cur_view = cur@;
    tokens.push(cur);
    proof {
        assert(tokens.deep_view() =~~= tokens_dv.push(cur_view));
    }
    tokens
}

/// The tokens of raw numeric text: commas removed, whitespace trimmed, the
/// rest split on spaces and newlines with empty pieces kept.
pub open spec fn spec_tokens(s: Seq<char>) -> Seq<Seq<char>> {
    split_seps(trim_spec(remove_commas(s)))
}

proof fn lemma_remove_commas_push(s: Seq<char>, c: char)
    ensures
        remove_commas(s.push(c)) == if c == ',' {
            remove_commas(s)
        } else {
            remove_commas(s).push(c)
        },
{
    assert(s.push(c).drop_last() =~= s);
    assert(s.push(c).last() == c);
}

proof fn lemma_remove_commas_idempotent(s: Seq<char>)
    ensures
        remove_commas(remove_commas(s)) == remove_commas(s),
    decreases s.len(),
{
    if s.len() > 0 {
        lemma_remove_commas_idempotent(s.drop_last());
        if s.last() != ',' {
            lemma_remove_commas_push(remove_commas(s.drop_last()), s.last());
        }
    }
}

/// Comma-insensitivity: stripping the commas from the text beforehand
/// leaves its tokens unchanged, so texts that differ only in thousands
/// separators yield the same numbers.
pub proof fn lemma_comma_insensitive(s: Seq<char>)
    ensures
        spec_tokens(remove_commas(s)) == spec_tokens(s),
{
    lemma_remove_commas_idempotent(s);
}

/// One position of a text and of its reading with relaxed separators: the
/// characters are equal, or a space was replaced by a newline.
pub open spec fn sep_pair_ok(a: char, b: char) -> bool {
    b == a || (a == ' ' && b == '\n')
}

/// `t` is `s` with some subset of its spaces replaced by newlines.
pub open spec fn newlines_for_spaces(s: Seq<char>, t: Seq<char>) -> bool {
    s.len() == t.len() && forall|i: int| 0 <= i < s.len() ==> #[trigger] sep_pair_ok(s[i], t[i])
}

proof fn lemma_remove_commas_related(s: Seq<char>, t: Seq<char>)
    requires
        newlines_for_spaces(s, t),
    ensures
        newlines_for_spaces(remove_commas(s), remove_commas(t)),
    decreases s.len(),
{
    if s.len() > 0 {
        assert(sep_pair_ok(s.last(), t.last()));
        assert forall|i: int| 0 <= i < s.drop_last().len() implies #[trigger] sep_pair_ok(
            s.drop_last()[i],
            t.drop_last()[i],
        ) by {
            assert(sep_pair_ok(s[i], t[i]));
        }
        lemma_remove_commas_related(s.drop_last(), t.drop_last());
        if s.last() == ',' {
            assert(t.last() == ',');
        } else {
            assert(t.last() != ',');
            let ps = remove_commas(s.drop_last());
            let pt = remove_commas(t.drop_last());
            assert forall|i: int| 0 <= i < ps.push(s.last()).len() implies #[trigger] sep_pair_ok(
                ps.push(s.last())[i],
                pt.push(t.last())[i],
            ) by {
                if i < ps.len() {
                    assert(sep_pair_ok(ps[i], pt[i]));
                }
            }
        }
    }
}

proof fn lemma_trim_start_related(s: Seq<char>, t: Seq<char>)
    requires
        newlines_for_spaces(s, t),
    ensures
        newlines_for_spaces(trim_start(s), trim_start(t)),
    decreases s.len(),
{
    if s.len() > 0 {
        assert(sep_pair_ok(s[0], t[0]));
        assert(is_ws(s[0]) == is_ws(t[0]));
        if is_ws(s[0]) {
            assert forall|i: int| 0 <= i < s.skip(1).len() implies #[trigger] sep_pair_ok(
                s.skip(1)[i],
                t.skip(1)[i],
            ) by {
                assert(sep_pair_ok(s[i + 1], t[i + 1]));
            }
            lemma_trim_start_related(s.skip(1), t.skip(1));
        }
    }
}

proof fn lemma_trim_end_related(s: Seq<char>, t: Seq<char>)
    requires
        newlines_for_spaces(s, t),
    ensures
        newlines_for_spaces(trim_end(s), trim_end(t)),
    decreases s.len(),
{
    if s.len() > 0 {
        assert(sep_pair_ok(s.last(), t.last()));
        assert(is_ws(s.last()) == is_ws(t.last()));
        if is_ws(s.last()) {
            assert forall|i: int| 0 <= i < s.drop_last().len() implies #[trigger] sep_pair_ok(
                s.drop_last()[i],
                t.drop_last()[i],
            ) by {
                assert(sep_pair_ok(s[i], t[i]));
            }
            lemma_trim_end_related(s.drop_last(), t.drop_last());
        }
    }
}

proof fn lemma_split_seps_related(s: Seq<char>, t: Seq<char>)
    requires
        newlines_for_spaces(s, t),
    ensures
        split_seps(s) == split_seps(t),
    decreases s.len(),
{
    if s.len() == 0 {
        assert(t.len() == 0);
    } else {
        assert(sep_pair_ok(s[0], t[0]));
        assert(is_sep(s[0]) == is_sep(t[0]));
        assert forall|i: int| 0 <= i < s.skip(1).len() implies #[trigger] sep_pair_ok(
            s.skip(1)[i],
            t.skip(1)[i],
        ) by {
            assert(sep_pair_ok(s[i + 1], t[i + 1]));
        }
        lemma_split_seps_related(s.skip(1), t.skip(1));
        if !is_sep(s[0]) {
            assert(t[0] == s[0]);
        }
    }
}

/// Delimiter-insensitivity: replacing any subset of the spaces of a text by
/// newlines leaves its tokens unchanged.
pub proof fn lemma_delimiter_insensitive(s: Seq<char>, t: Seq<char>)
    requires
        newlines_for_spaces(s, t),
    ensures
        spec_tokens(s) == spec_tokens(t),
{
    lemma_remove_commas_related(s, t);
    lemma_trim_start_related(remove_commas(s), remove_commas(t));
    lemma_trim_end_related(trim_start(remove_commas(s)), trim_start(remove_commas(t)));
    lemma_split_seps_related(
        trim_end(trim_start(remove_commas(s))),
        trim_end(trim_start(remove_commas(t))),
    );
}

/// The tokens of a string, computed as `spec_tokens` describes.
pub fn tokenize(s: &str) -> (r: Vec<Vec<char>>)
    ensures
        r.deep_view() == spec_tokens(s@),
{
    let chars = to_char_vec(s);
    let stripped = remove_commas_exec(&chars);
    let trimmed = trim_chars(&stripped);
    split_tokens(&trimmed)
}

} // verus!
