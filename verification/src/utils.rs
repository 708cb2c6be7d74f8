//! Scanner primitives: each consumes a prefix of the input and hands back the
//! rest beside what it has consumed.

use crate::error::{Error, ErrorView};
use std::str::Chars;
use vstd::prelude::*;
use vstd::std_specs::iter::IteratorSpec;
use vstd::string::*;

verus! {

/// `c` is one of the ASCII decimal digits.
pub open spec fn is_digit(c: char) -> bool {
    '0' <= c <= '9'
}

/// `c` is an ASCII letter of either case.
pub open spec fn is_alphabetic(c: char) -> bool {
    'a' <= c <= 'z' || 'A' <= c <= 'Z'
}

/// `c` is an ASCII letter or an ASCII decimal digit.
pub open spec fn is_alphanumeric(c: char) -> bool {
    is_alphabetic(c) || is_digit(c)
}

/// `c` is the space character; tabs and line ends are not.
pub open spec fn is_space(c: char) -> bool {
    c == ' '
}

/// Tells whether `c` is an ASCII decimal digit.
pub fn is_ascii_digit(c: char) -> (r: bool)
    ensures
        r == is_digit(c),
{
    '0' <= c && c <= '9'
}

/// Tells whether `c` is an ASCII letter.
pub fn is_ascii_alphabetic(c: char) -> (r: bool)
    ensures
        r == is_alphabetic(c),
{
    ('a' <= c && c <= 'z') || ('A' <= c && c <= 'Z')
}

/// Tells whether `c` is an ASCII letter or digit.
pub fn is_ascii_alphanumeric(c: char) -> (r: bool)
    ensures
        r == is_alphanumeric(c),
{
    is_ascii_alphabetic(c) || is_ascii_digit(c)
}

/// Tells whether `c` is the space character.
pub fn is_ascii_space(c: char) -> (r: bool)
    ensures
        r == is_space(c),
{
    c == ' '
}

/// The class of ASCII decimal digits.
pub open spec fn digits() -> spec_fn(char) -> bool {
    |c: char| is_digit(c)
}

/// The class of ASCII letters and digits.
pub open spec fn alphanumerics() -> spec_fn(char) -> bool {
    |c: char| is_alphanumeric(c)
}

/// The class that holds the space character alone.
pub open spec fn spaces() -> spec_fn(char) -> bool {
    |c: char| is_space(c)
}

/// How many leading characters of `s` belong to `class`: the length of the
/// longest prefix of `s` that lies within it.
pub open spec fn run_len(s: Seq<char>, class: spec_fn(char) -> bool) -> nat
    decreases s.len(),
{
    if s.len() > 0 && class(s[0]) {
        1 + run_len(s.drop_first(), class)
    } else {
        0
    }
}

/// `run` holds decimal digits only; it may be empty.
pub open spec fn is_digits(run: Seq<char>) -> bool {
    forall|i: int| 0 <= i < run.len() ==> is_digit(#[trigger] run[i])
}

/// `run` is an identifier: a letter, then letters and digits.
pub open spec fn is_identifier(run: Seq<char>) -> bool {
    &&& run.len() > 0
    &&& is_alphabetic(run[0])
    &&& forall|i: int| 0 <= i < run.len() ==> is_alphanumeric(#[trigger] run[i])
}

/// `run` holds spaces only; it may be empty.
pub open spec fn is_padding(run: Seq<char>) -> bool {
    forall|i: int| 0 <= i < run.len() ==> is_space(#[trigger] run[i])
}

/// The run that [`run_len`] measures ends within `s`, holds only characters of
/// `class`, and is followed by a character outside it unless it ends `s`.
pub proof fn lemma_run_len_is_longest(s: Seq<char>, class: spec_fn(char) -> bool)
    ensures
        run_len(s, class) <= s.len(),
        forall|i: int| 0 <= i < run_len(s, class) ==> class(#[trigger] s[i]),
        run_len(s, class) < s.len() ==> !class(s[run_len(s, class) as int]),
    decreases s.len(),
{
    if s.len() > 0 && class(s[0]) {
        let tail = s.drop_first();
        lemma_run_len_is_longest(tail, class);
        assert forall|i: int| 0 <= i < run_len(s, class) implies class(#[trigger] s[i]) by {
            if i > 0 {
                assert(s[i] == tail[i - 1]);
            }
        }
        if run_len(s, class) < s.len() {
            assert(s[run_len(s, class) as int] == tail[run_len(tail, class) as int]);
        }
    }
}

/// A prefix of `n` characters of `class` that ends `s`, or stops before a
/// character outside `class`, is the run that [`run_len`] measures.
pub proof fn lemma_run_len_unique(s: Seq<char>, class: spec_fn(char) -> bool, n: int)
    requires
        0 <= n <= s.len(),
        forall|i: int| 0 <= i < n ==> class(#[trigger] s[i]),
        n < s.len() ==> !class(s[n]),
    ensures
        run_len(s, class) == n,
    decreases n,
{
    if n > 0 {
        let tail = s.drop_first();
        assert(class(s[0]));
        assert forall|i: int| 0 <= i < n - 1 implies class(#[trigger] tail[i]) by {
            assert(tail[i] == s[i + 1]);
        }
        if n - 1 < tail.len() {
            assert(tail[n - 1] == s[n]);
        }
        lemma_run_len_unique(tail, class, n - 1);
    }
}

/// The outcome of a scan, with the two slices taken as sequences of
/// characters and the error by its view.
pub open spec fn scan_view(r: Result<(&str, &str), Error>) -> Result<
    (Seq<char>, Seq<char>),
    ErrorView,
> {
    match r {
        Ok((remainder, extracted)) => Ok((remainder@, extracted@)),
        Err(e) => Err(e@),
    }
}

/// The outcome of parsing a node that holds no string, with the remainder
/// taken as a sequence of characters and the error by its view.
pub open spec fn parse_view<T>(r: Result<(&str, T), Error>) -> Result<(Seq<char>, T), ErrorView> {
    match r {
        Ok((remainder, node)) => Ok((remainder@, node)),
        Err(e) => Err(e@),
    }
}

/// The outcome of parsing a node that holds a string, with the remainder
/// taken as a sequence of characters and the node and the error by their
/// views.
pub open spec fn parse_view_of<T: View>(r: Result<(&str, T), Error>) -> Result<
    (Seq<char>, T::V),
    ErrorView,
> {
    match r {
        Ok((remainder, node)) => Ok((remainder@, node@)),
        Err(e) => Err(e@),
    }
}

/// What [`take_while`] returns for a predicate that decides `class`: the
/// remainder first, then the run.
pub open spec fn spec_take_while(class: spec_fn(char) -> bool, s: Seq<char>) -> (Seq<char>, Seq<char>) {
    (s.skip(run_len(s, class) as int), s.take(run_len(s, class) as int))
}

/// What [`take_while1`] returns for a predicate that decides `class`.
pub open spec fn spec_take_while1(
    class: spec_fn(char) -> bool,
    s: Seq<char>,
    error: ErrorView,
) -> Result<(Seq<char>, Seq<char>), ErrorView> {
    if run_len(s, class) > 0 {
        Ok(spec_take_while(class, s))
    } else {
        Err(error)
    }
}

/// What [`tag`] returns: the input without the literal it starts with.
pub open spec fn spec_tag(literal: Seq<char>, s: Seq<char>) -> Result<Seq<char>, ErrorView> {
    if literal.is_prefix_of(s) {
        Ok(s.skip(literal.len() as int))
    } else {
        Err(ErrorView::UnexpectedToken { expected: literal })
    }
}

/// What [`extract_digits`] returns: the leading run of digits, which must not
/// be empty.
pub open spec fn spec_extract_digits(s: Seq<char>) -> Result<(Seq<char>, Seq<char>), ErrorView> {
    spec_take_while1(digits(), s, ErrorView::ExpectedDigits)
}

/// What [`extract_whitespace`] returns: the leading run of spaces, which may
/// be empty.
pub open spec fn spec_extract_whitespace(s: Seq<char>) -> (Seq<char>, Seq<char>) {
    spec_take_while(spaces(), s)
}

/// What [`extract_whitespace1`] returns: the leading run of spaces, which
/// must not be empty.
pub open spec fn spec_extract_whitespace1(s: Seq<char>) -> Result<
    (Seq<char>, Seq<char>),
    ErrorView,
> {
    spec_take_while1(spaces(), s, ErrorView::ExpectedSpace)
}

/// What [`extract_identifier`] returns: the leading run of letters and
/// digits, provided that it starts with a letter.
pub open spec fn spec_extract_identifier(s: Seq<char>) -> Result<
    (Seq<char>, Seq<char>),
    ErrorView,
> {
    if s.len() > 0 && is_alphabetic(s[0]) {
        Ok(spec_take_while(alphanumerics(), s))
    } else {
        Err(ErrorView::ExpectedIdentifier)
    }
}

/// Splits `string` after its longest prefix whose characters `accept` all
/// takes, and returns the remainder and that prefix. The prefix may be empty.
///
/// `accept` may be any function on characters, so the contract speaks of what
/// it has answered: yes for each character of the prefix, and no for the
/// character that follows the prefix, if there is one. Where `accept` decides
/// a class of characters, [`lemma_take_while_decides`] turns this into
/// [`spec_take_while`].
pub fn take_while<'a, F: Fn(char) -> bool>(accept: F, string: &'a str) -> (r: (&'a str, &'a str))
    requires
        forall|i: int| 0 <= i < string@.len() ==> call_requires(accept, (#[trigger] string@[i],)),
    ensures
        r.1@ + r.0@ == string@,
        forall|i: int| 0 <= i < r.1@.len() ==> call_ensures(accept, (#[trigger] r.1@[i],), true),
        r.0@.len() > 0 ==> call_ensures(accept, (r.0@[0],), false),
{
    let total: usize = string.unicode_len();
    let mut chars: Chars<'a> = string.chars();
    let mut end: usize = 0;
    loop
        invariant_except_break
            chars.remaining() == string@.skip(end as int),
        invariant
            end <= total == string@.len(),
            forall|i: int|
                0 <= i < string@.len() ==> call_requires(accept, (#[trigger] string@[i],)),
            forall|i: int| 0 <= i < end ==> call_ensures(accept, (#[trigger] string@[i],), true),
        ensures
            end < total ==> call_ensures(accept, (string@[end as int],), false),
        decreases total - end,
    {
        match chars.next() {
            None => {
                break ;
            },
            Some(c) => {
                if !accept(c) {
                    break ;
                }
                end = end + 1;
            },
        }
    }
    let extracted = string.substring_char(0, end);
    let remainder = string.substring_char(end, total);
    assert(extracted@ + remainder@ =~= string@);
    (remainder, extracted)
}

/// Where `accept` decides `class`, the split that [`take_while`] promises is
/// the one after the longest run of `class`.
pub proof fn lemma_take_while_decides<F: Fn(char) -> bool>(
    accept: F,
    class: spec_fn(char) -> bool,
    s: Seq<char>,
    remainder: Seq<char>,
    extracted: Seq<char>,
)
    requires
        forall|c: char, b: bool| call_ensures(accept, (c,), b) ==> b == class(c),
        extracted + remainder == s,
        forall|i: int|
            0 <= i < extracted.len() ==> call_ensures(accept, (#[trigger] extracted[i],), true),
        remainder.len() > 0 ==> call_ensures(accept, (remainder[0],), false),
    ensures
        (remainder, extracted) == spec_take_while(class, s),
{
    let n = extracted.len() as int;
    assert forall|i: int| 0 <= i < n implies class(#[trigger] s[i]) by {
        assert(s[i] == extracted[i]);
    }
    if n < s.len() {
        assert(s[n] == remainder[0]);
    }
    lemma_run_len_unique(s, class, n);
    assert(s.skip(n) =~= remainder);
    assert(s.take(n) =~= extracted);
}

/// As [`take_while`], but fails with `error` where the prefix would be empty.
pub fn take_while1<'a, F: Fn(char) -> bool>(accept: F, string: &'a str, error: Error) -> (r:
    Result<(&'a str, &'a str), Error>)
    requires
        forall|i: int| 0 <= i < string@.len() ==> call_requires(accept, (#[trigger] string@[i],)),
    ensures
        match r {
            Ok((remainder, extracted)) => {
                &&& extracted@.len() > 0
                &&& extracted@ + remainder@ == string@
                &&& forall|i: int|
                    0 <= i < extracted@.len() ==> call_ensures(
                        accept,
                        (#[trigger] extracted@[i],),
                        true,
                    )
                &&& remainder@.len() > 0 ==> call_ensures(accept, (remainder@[0],), false)
            },
            Err(e) => {
                &&& e == error
                &&& string@.len() > 0 ==> call_ensures(accept, (string@[0],), false)
            },
        },
{
    let (remainder, extracted) = take_while(accept, string);
    if extracted.is_empty() {
        assert(remainder@ =~= string@);
        Err(error)
    } else {
        Ok((remainder, extracted))
    }
}

/// Where `accept` decides `class`, what [`take_while1`] promises is
/// [`spec_take_while1`].
pub proof fn lemma_take_while1_decides<F: Fn(char) -> bool>(
    accept: F,
    class: spec_fn(char) -> bool,
    s: Seq<char>,
    error: ErrorView,
    outcome: Result<(Seq<char>, Seq<char>), ErrorView>,
)
    requires
        forall|c: char, b: bool| call_ensures(accept, (c,), b) ==> b == class(c),
        match outcome {
            Ok((remainder, extracted)) => {
                &&& extracted.len() > 0
                &&& extracted + remainder == s
                &&& forall|i: int|
                    0 <= i < extracted.len() ==> call_ensures(
                        accept,
                        (#[trigger] extracted[i],),
                        true,
                    )
                &&& remainder.len() > 0 ==> call_ensures(accept, (remainder[0],), false)
            },
            Err(e) => {
                &&& e == error
                &&& s.len() > 0 ==> call_ensures(accept, (s[0],), false)
            },
        },
    ensures
        outcome == spec_take_while1(class, s, error),
{
    match outcome {
        Ok((remainder, extracted)) => {
            lemma_take_while_decides(accept, class, s, remainder, extracted);
        },
        Err(_) => {},
    }
}

/// Takes `starting_text` off the front of `string` and returns what follows
/// it; fails where `string` does not start with `starting_text`.
pub fn tag<'a>(starting_text: &str, string: &'a str) -> (r: Result<&'a str, Error>)
    ensures
        match r {
            Ok(remainder) => spec_tag(starting_text@, string@) == Ok::<Seq<char>, ErrorView>(
                remainder@,
            ),
            Err(e) => spec_tag(starting_text@, string@) == Err::<Seq<char>, ErrorView>(e@),
        },
{
    let total: usize = string.unicode_len();
    let mut wanted: Chars<'_> = starting_text.chars();
    let mut given: Chars<'a> = string.chars();
    let mut matched: usize = 0;
    loop
        invariant
            matched <= total == string@.len(),
            matched <= starting_text@.len(),
            wanted.remaining() == starting_text@.skip(matched as int),
            given.remaining() == string@.skip(matched as int),
            starting_text@.take(matched as int) == string@.take(matched as int),
        decreases total - matched,
    {
        match wanted.next() {
            None => {
                assert(starting_text@ =~= starting_text@.take(matched as int));
                return Ok(string.substring_char(matched, total));
            },
            Some(w) => {
                match given.next() {
                    Some(g) if g == w => {
                        assert(starting_text@.take(matched + 1) =~= starting_text@.take(
                            matched as int,
                        ).push(w));
                        assert(string@.take(matched + 1) =~= string@.take(matched as int).push(g));
                        matched = matched + 1;
                    },
                    _ => {
                        return Err(Error::UnexpectedToken { expected: starting_text.to_owned() });
                    },
                }
            },
        }
    }
}

/// Takes the leading run of ASCII decimal digits; fails where there is none.
pub fn extract_digits(string: &str) -> (r: Result<(&str, &str), Error>)
    ensures
        scan_view(r) == spec_extract_digits(string@),
{
    let r = take_while1(is_ascii_digit, string, Error::ExpectedDigits);
    proof {
        lemma_take_while1_decides(
            is_ascii_digit,
            digits(),
            string@,
            ErrorView::ExpectedDigits,
            scan_view(r),
        );
    }
    r
}

/// Takes the leading run of spaces, which may be empty.
pub fn extract_whitespace(string: &str) -> (r: (&str, &str))
    ensures
        (r.0@, r.1@) == spec_extract_whitespace(string@),
{
    let r = take_while(is_ascii_space, string);
    proof {
        lemma_take_while_decides(is_ascii_space, spaces(), string@, r.0@, r.1@);
    }
    r
}

/// Takes the leading run of spaces; fails where there is none.
pub fn extract_whitespace1(string: &str) -> (r: Result<(&str, &str), Error>)
    ensures
        scan_view(r) == spec_extract_whitespace1(string@),
{
    let r = take_while1(is_ascii_space, string, Error::ExpectedSpace);
    proof {
        lemma_take_while1_decides(
            is_ascii_space,
            spaces(),
            string@,
            ErrorView::ExpectedSpace,
            scan_view(r),
        );
    }
    r
}

/// Takes the leading run of ASCII letters and digits; fails where `string`
/// does not start with a letter.
pub fn extract_identifier(string: &str) -> (r: Result<(&str, &str), Error>)
    ensures
        scan_view(r) == spec_extract_identifier(string@),
{
    let mut chars: Chars<'_> = string.chars();
    let starts_with_alphabetic = match chars.next() {
        Some(c) => is_ascii_alphabetic(c),
        None => false,
    };
    if starts_with_alphabetic {
        let r = take_while(is_ascii_alphanumeric, string);
        proof {
            lemma_take_while_decides(is_ascii_alphanumeric, alphanumerics(), string@, r.0@, r.1@);
        }
        Ok(r)
    } else {
        Err(Error::ExpectedIdentifier)
    }
}

/// A run of `class` in front of a rest that does not start with a character
/// of `class` is told apart from that rest.
pub proof fn lemma_run_before_rest(run: Seq<char>, rest: Seq<char>, class: spec_fn(char) -> bool)
    requires
        forall|i: int| 0 <= i < run.len() ==> class(#[trigger] run[i]),
        rest.len() > 0 ==> !class(rest[0]),
    ensures
        run_len(run + rest, class) == run.len(),
        spec_take_while(class, run + rest) == (rest, run),
{
    let s = run + rest;
    let n = run.len() as int;
    assert forall|i: int| 0 <= i < n implies class(#[trigger] s[i]) by {
        assert(s[i] == run[i]);
    }
    if n < s.len() {
        assert(s[n] == rest[0]);
    }
    lemma_run_len_unique(s, class, n);
    assert(s.skip(n) =~= rest);
    assert(s.take(n) =~= run);
}

/// A run of digits in front of a rest that does not start with a digit is
/// extracted whole and leaves that rest; without a digit in front, the
/// extraction fails.
pub proof fn law_extract_digits_takes_the_run(run: Seq<char>, rest: Seq<char>)
    requires
        is_digits(run),
        rest.len() > 0 ==> !is_digit(rest[0]),
    ensures
        run.len() > 0 ==> spec_extract_digits(run + rest) == Ok::<_, ErrorView>((rest, run)),
        run.len() == 0 ==> spec_extract_digits(run + rest) == Err::<(Seq<char>, Seq<char>), _>(
            ErrorView::ExpectedDigits,
        ),
{
    lemma_run_before_rest(run, rest, digits());
}

/// An identifier in front of a rest that does not start with a letter or a
/// digit is extracted whole and leaves that rest.
pub proof fn law_extract_identifier_takes_the_name(name: Seq<char>, rest: Seq<char>)
    requires
        is_identifier(name),
        rest.len() > 0 ==> !is_alphanumeric(rest[0]),
    ensures
        spec_extract_identifier(name + rest) == Ok::<_, ErrorView>((rest, name)),
{
    lemma_run_before_rest(name, rest, alphanumerics());
    assert((name + rest)[0] == name[0]);
}

/// An input that starts with a digit holds no identifier: the extraction
/// fails, and so consumes nothing.
pub proof fn law_identifier_starts_with_no_digit(s: Seq<char>)
    requires
        s.len() > 0,
        is_digit(s[0]),
    ensures
        spec_extract_identifier(s) == Err::<(Seq<char>, Seq<char>), _>(
            ErrorView::ExpectedIdentifier,
        ),
{
}

/// Spaces in front of a rest that does not start with a space are skipped
/// whole and leave that rest; where at least one space is asked for, the
/// scan fails without one.
pub proof fn law_extract_whitespace_takes_the_padding(padding: Seq<char>, rest: Seq<char>)
    requires
        is_padding(padding),
        rest.len() > 0 ==> !is_space(rest[0]),
    ensures
        spec_extract_whitespace(padding + rest) == (rest, padding),
        padding.len() > 0 ==> spec_extract_whitespace1(padding + rest) == Ok::<_, ErrorView>(
            (rest, padding),
        ),
        padding.len() == 0 ==> spec_extract_whitespace1(padding + rest) == Err::<
            (Seq<char>, Seq<char>),
            _,
        >(ErrorView::ExpectedSpace),
{
    lemma_run_before_rest(padding, rest, spaces());
}

/// A literal in front of any rest is taken off and leaves that rest.
pub proof fn law_tag_takes_the_literal(literal: Seq<char>, rest: Seq<char>)
    ensures
        spec_tag(literal, literal + rest) == Ok::<_, ErrorView>(rest),
{
    let s = literal + rest;
    assert(literal =~= s.subrange(0, literal.len() as int));
    assert(s.skip(literal.len() as int) =~= rest);
}

/// What a scanner extracts lies within its class of characters, and what it
/// leaves does not start with a character of that class: the run is the
/// longest there is. What the identifier scanner extracts is an identifier.
pub proof fn law_scan_takes_the_longest_run(s: Seq<char>)
    ensures
        is_padding(spec_extract_whitespace(s).1),
        spec_extract_whitespace(s).0.len() > 0 ==> !is_space(spec_extract_whitespace(s).0[0]),
        spec_extract_whitespace1(s) matches Ok((remainder, run)) ==> {
            &&& run.len() > 0
            &&& is_padding(run)
            &&& remainder.len() > 0 ==> !is_space(remainder[0])
        },
        spec_extract_digits(s) matches Ok((remainder, run)) ==> {
            &&& run.len() > 0
            &&& is_digits(run)
            &&& remainder.len() > 0 ==> !is_digit(remainder[0])
        },
        spec_extract_identifier(s) matches Ok((remainder, run)) ==> {
            &&& is_identifier(run)
            &&& remainder.len() > 0 ==> !is_alphanumeric(remainder[0])
        },
{
    lemma_run_len_is_longest(s, spaces());
    lemma_run_len_is_longest(s, digits());
    lemma_run_len_is_longest(s, alphanumerics());
}

/// What a scanner consumes and what it leaves make up its input, in this
/// order.
pub proof fn law_scan_splits_the_input(s: Seq<char>, literal: Seq<char>)
    ensures
        spec_extract_whitespace(s).1 + spec_extract_whitespace(s).0 == s,
        spec_extract_digits(s) matches Ok((remainder, run)) ==> run + remainder == s,
        spec_extract_whitespace1(s) matches Ok((remainder, run)) ==> run + remainder == s,
        spec_extract_identifier(s) matches Ok((remainder, run)) ==> run + remainder == s,
        spec_tag(literal, s) matches Ok(remainder) ==> literal + remainder == s,
{
    lemma_run_len_is_longest(s, spaces());
    lemma_run_len_is_longest(s, digits());
    lemma_run_len_is_longest(s, alphanumerics());
    assert forall|class: spec_fn(char) -> bool| run_len(s, class) <= s.len() implies (
    #[trigger] spec_take_while(class, s)).1 + spec_take_while(class, s).0 == s by {
        let n = run_len(s, class) as int;
        assert(s.take(n) + s.skip(n) =~= s);
    }
    if literal.is_prefix_of(s) {
        assert(literal + s.skip(literal.len() as int) =~= s);
    }
}

/// What follows a front part is a suffix of the whole.
pub proof fn lemma_suffix_of_concat(front: Seq<char>, back: Seq<char>)
    ensures
        back.is_suffix_of(front + back),
{
    let s = front + back;
    assert(back =~= s.subrange(s.len() - back.len(), s.len() as int));
}

/// A suffix of a suffix of `c` is a suffix of `c`.
pub proof fn lemma_suffix_of_suffix(a: Seq<char>, b: Seq<char>, c: Seq<char>)
    requires
        a.is_suffix_of(b),
        b.is_suffix_of(c),
    ensures
        a.is_suffix_of(c),
{
    assert(a =~= c.subrange(c.len() - a.len(), c.len() as int));
}

/// What a scanner leaves is a suffix of its input.
pub proof fn law_scan_leaves_a_suffix(s: Seq<char>, literal: Seq<char>)
    ensures
        spec_extract_whitespace(s).0.is_suffix_of(s),
        spec_extract_digits(s) matches Ok((remainder, _)) ==> remainder.is_suffix_of(s),
        spec_extract_whitespace1(s) matches Ok((remainder, _)) ==> remainder.is_suffix_of(s),
        spec_extract_identifier(s) matches Ok((remainder, _)) ==> remainder.is_suffix_of(s),
        spec_tag(literal, s) matches Ok(remainder) ==> remainder.is_suffix_of(s),
{
    law_scan_splits_the_input(s, literal);
    lemma_suffix_of_concat(spec_extract_whitespace(s).1, spec_extract_whitespace(s).0);
    if let Ok((remainder, run)) = spec_extract_digits(s) {
        lemma_suffix_of_concat(run, remainder);
    }
    if let Ok((remainder, run)) = spec_extract_identifier(s) {
        lemma_suffix_of_concat(run, remainder);
    }
    if let Ok(remainder) = spec_tag(literal, s) {
        lemma_suffix_of_concat(literal, remainder);
    }
}

} // verus!
