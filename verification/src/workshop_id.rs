//! Finding the catalog id that a file name carries: the first run of digits
//! of a configured minimum length.  The search itself is made by the `regex`
//! crate, with an expression that is compiled once.

use vstd::prelude::*;
use vstd::string::*;
use regex::Regex;
use crate::text::{
    decimal_digits, is_ascii_digit, parse_u32, parse_unsigned, text_view, u64_to_decimal,
};

verus! {

/// The minimum number of digits that tells a catalog id apart unless
/// another is configured.
pub const DEFAULT_MIN_DIGITS: usize = 4;

/// The expression that matches a run of at least `min_digits` ASCII digits.
pub open spec fn digit_run_pattern(min_digits: nat) -> Seq<char> {
    "[0-9]{"@ + decimal_digits(min_digits) + ",}"@
}

/// Whether the `n` characters of `s` from position `at` on exist and are
/// all ASCII digits.
pub open spec fn digits_at(s: Seq<char>, at: int, n: nat) -> bool {
    &&& 0 <= at
    &&& at + n <= s.len()
    &&& forall|j: int| at <= j < at + n ==> is_ascii_digit(#[trigger] s[j])
}

/// The least position from `from` on at which `n` digits start.
pub open spec fn run_start(s: Seq<char>, n: nat, from: int) -> Option<int>
    decreases s.len() - from,
{
    if from < 0 || from + n > s.len() {
        None
    } else if digits_at(s, from, n) {
        Some(from)
    } else {
        run_start(s, n, from + 1)
    }
}

/// The first position from `at` on that holds no digit.
pub open spec fn run_end(s: Seq<char>, at: int) -> int
    decreases s.len() - at,
{
    if at < 0 || at >= s.len() || !is_ascii_digit(s[at]) {
        at
    } else {
        run_end(s, at + 1)
    }
}

/// The first run of at least `n` digits in `s`, taken as far as it goes.
pub open spec fn first_digit_run(s: Seq<char>, n: nat) -> Option<Seq<char>> {
    match run_start(s, n, 0) {
        None => None,
        Some(i) => Some(s.subrange(i, run_end(s, i))),
    }
}

/// `regex::Regex`: a compiled expression.  Nothing is known of its inside
/// but what [`regex_source`] says of it.
#[verifier::external_type_specification]
#[verifier::external_body]
pub struct ExRegex(Regex);

/// Whether `Regex::new` accepts `pattern`.
pub uninterp spec fn regex_accepts(pattern: Seq<char>) -> bool;

/// The text that `Regex::new` compiled the expression from.  Of an
/// expression built in any other way it is the empty text, so that nothing
/// is claimed of such an expression.
pub uninterp spec fn regex_source(re: Regex) -> Seq<char>;

/// `Regex::new`: compiles `pattern`, `None` where the expression is
/// refused.
#[verifier::external_body]
fn regex_new(pattern: &str) -> (r: Option<Regex>)
    ensures
        r is Some <==> regex_accepts(pattern@),
        r matches Some(re) ==> regex_source(re) == pattern@,
{
    Regex::new(pattern).ok()
}

/// `Regex::captures`, of which group 0, the whole match, is kept.
///
/// The crate documents `[0-9]` as any ASCII digit, `x{n,}` as at least `n`
/// `x`, greedy, and a search as giving the leftmost match.  So for an
/// expression compiled from `[0-9]{n,}` the match starts at the least
/// position where `n` ASCII digits start and runs over every digit that
/// follows: it is [`first_digit_run`].  Nothing is claimed of any other
/// expression.
#[verifier::external_body]
fn regex_whole_match(re: &Regex, haystack: &str) -> (r: Option<String>)
    ensures
        forall|n: nat|
            regex_source(*re) == #[trigger] digit_run_pattern(n) ==> text_view(r)
                == first_digit_run(haystack@, n),
{
    re.captures(haystack).map(|c| c[0].to_string())
}

/// How a catalog id is told apart in a file name: by the least number of
/// digits in a row that counts as one.  The expression that finds such a
/// run is compiled once, when the pattern is made.
pub struct IdPattern {
    min_digits: usize,
    regex: Regex,
}

impl IdPattern {
    #[verifier::type_invariant]
    spec fn compiled(&self) -> bool {
        &&& self.min_digits > 0
        &&& regex_source(self.regex) == digit_run_pattern(self.min_digits as nat)
    }

    /// The configured minimum number of digits.
    pub closed spec fn min_digits(&self) -> nat {
        self.min_digits as nat
    }

    /// A pattern for runs of at least `min_digits` digits.  There is none
    /// for a minimum of zero, which would tell no id apart, nor where the
    /// expression for the minimum is refused (as it is for a very large
    /// one).
    pub fn new(min_digits: usize) -> (r: Option<IdPattern>)
        ensures
            r is Some <==> min_digits > 0 && regex_accepts(digit_run_pattern(min_digits as nat)),
            r matches Some(p) ==> p.min_digits() == min_digits,
    {
        if min_digits == 0 {
            return None;
        }
        let source = pattern_source(min_digits);
        match regex_new(source.as_str()) {
            Some(regex) => Some(IdPattern { min_digits, regex }),
            None => None,
        }
    }

    /// The configured minimum number of digits.
    pub fn minimum(&self) -> (n: usize)
        ensures
            n == self.min_digits(),
            n > 0,
    {
        proof {
            use_type_invariant(self);
        }
        self.min_digits
    }
}

fn pattern_source(min_digits: usize) -> (r: String)
    ensures
        r@ == digit_run_pattern(min_digits as nat),
{
    let mut source = String::from_str("[0-9]{");
    let count = u64_to_decimal(min_digits as u64);
    source.append(count.as_str());
    source.append(",}");
    source
}

/// The catalog id that `file_name` carries: the number spelled by its
/// first run of at least `min_digits` digits.  There is none where no such
/// run exists, or where the run spells a number beyond 32 bits.
pub open spec fn workshop_id_of(file_name: Seq<char>, min_digits: nat) -> Option<u32> {
    match first_digit_run(file_name, min_digits) {
        None => None,
        Some(run) => match parse_unsigned(run, u32::MAX as nat) {
            Some(v) => Some(v as u32),
            None => None,
        },
    }
}

/// Finds the catalog id in a file name; see [`workshop_id_of`].
pub fn find_workshop_id_in_str(pattern: &IdPattern, file_name: &str) -> (r: Option<u32>)
    ensures
        r == workshop_id_of(file_name@, pattern.min_digits()),
{
    proof {
        use_type_invariant(pattern);
    }
    match regex_whole_match(&pattern.regex, file_name) {
        Some(run) => parse_u32(run.as_str()),
        None => None,
    }
}

/// A file name without a run of the minimum length carries no id.
pub proof fn lemma_no_run_no_id(file_name: Seq<char>, min_digits: nat)
    requires
        forall|at: int| !digits_at(file_name, at, min_digits),
    ensures
        workshop_id_of(file_name, min_digits) is None,
{
    lemma_run_start_digits(file_name, min_digits, 0);
}

/// Where [`run_start`] finds a position, the digits are there.
pub proof fn lemma_run_start_digits(s: Seq<char>, n: nat, from: int)
    ensures
        run_start(s, n, from) matches Some(i) ==> from <= i && digits_at(s, i, n),
    decreases s.len() - from,
{
    if from < 0 || from + n > s.len() {
    } else if digits_at(s, from, n) {
    } else {
        lemma_run_start_digits(s, n, from + 1);
    }
}


/// Where [`run_start`] finds nothing, no position from `from` on starts `n`
/// digits; where it finds a position, none before it does.
pub proof fn lemma_run_start_least(s: Seq<char>, n: nat, from: int)
    requires
        0 <= from,
    ensures
        match run_start(s, n, from) {
            None => forall|at: int| from <= at ==> !digits_at(s, at, n),
            Some(i) => forall|at: int| from <= at < i ==> !digits_at(s, at, n),
        },
    decreases s.len() - from,
{
    if from + n > s.len() {
    } else if digits_at(s, from, n) {
    } else {
        lemma_run_start_least(s, n, from + 1);
    }
}

/// [`run_end`] stops at the first character from `at` on that is no digit.
pub proof fn lemma_run_end(s: Seq<char>, at: int)
    requires
        0 <= at <= s.len(),
    ensures
        at <= run_end(s, at) <= s.len(),
        forall|j: int| at <= j < run_end(s, at) ==> is_ascii_digit(#[trigger] s[j]),
        run_end(s, at) < s.len() ==> !is_ascii_digit(s[run_end(s, at)]),
    decreases s.len() - at,
{
    if at < s.len() && is_ascii_digit(s[at]) {
        lemma_run_end(s, at + 1);
    }
}

/// What [`first_digit_run`] finds is the leftmost run of at least `n`
/// digits, whole: it starts at the least position where `n` digits start,
/// holds digits only, at least `n` of them, and is bounded on both sides
/// by the ends of the text or by characters that are no digits.  It finds
/// nothing exactly where no position starts `n` digits.
pub proof fn lemma_first_digit_run(s: Seq<char>, n: nat)
    ensures
        match run_start(s, n, 0) {
            None => first_digit_run(s, n) is None && forall|at: int| !digits_at(s, at, n),
            Some(i) => {
                let j = run_end(s, i);
                &&& first_digit_run(s, n) == Some(s.subrange(i, j))
                &&& 0 <= i && i + n <= j <= s.len()
                &&& forall|k: int| 0 <= k < i ==> !digits_at(s, k, n)
                &&& forall|k: int| i <= k < j ==> is_ascii_digit(#[trigger] s[k])
                &&& j < s.len() ==> !is_ascii_digit(s[j])
                &&& n > 0 && i > 0 ==> !is_ascii_digit(s[i - 1])
            },
        },
{
    lemma_run_start_least(s, n, 0);
    lemma_run_start_digits(s, n, 0);
    match run_start(s, n, 0) {
        None => {},
        Some(i) => {
            lemma_run_end(s, i);
            let j = run_end(s, i);
            if j < i + n {
                assert(is_ascii_digit(s[j]));
            }
            if n > 0 && i > 0 && is_ascii_digit(s[i - 1]) {
                assert forall|k: int| i - 1 <= k < i - 1 + n implies is_ascii_digit(
                    #[trigger] s[k],
                ) by {
                    if k >= i {
                        assert(is_ascii_digit(s[k]));
                    }
                }
                assert(digits_at(s, i - 1, n));
            }
        },
    }
}

} // verus!
