//! The two operations that the host calls: parsing and lexing a formula.
//!
//! Each hands the formula to `fiasto`, reads the JSON that comes back into a
//! generic value tree, and converts that tree; a failure of `fiasto` becomes a
//! [`HostError`] whose text is the failure's own text behind a fixed prefix.
use vstd::prelude::*;
use vstd::string::*;
use crate::value::{GenericValue, ValueModel};
use crate::native::{NativeObject, NativeModel};
use crate::bridge::{convert, native_of};
use crate::json::{from_json, json_model};

verus! {

/// The one kind of error that the host sees: an invalid-argument error that
/// carries a text and nothing else.
#[derive(Debug, PartialEq, Eq)]
pub struct HostError {
    pub message: String,
}

impl View for HostError {
    type V = Seq<char>;

    open spec fn view(&self) -> Seq<char> {
        self.message@
    }
}

impl HostError {
    /// The text that the host displays for this error.
    pub fn to_string(&self) -> (text: String)
        ensures
            text@ == self@,
    {
        self.message.clone()
    }
}

/// The prefix of the text of a failed parse.
pub open spec fn parse_prefix() -> Seq<char> {
    "Formula parsing error: "@
}

/// The prefix of the text of a failed lex.
pub open spec fn lex_prefix() -> Seq<char> {
    "Formula lexing error: "@
}

/// What an operation returns for what the formula parser gave: the native
/// object of the tree, or the parser's message behind `prefix`.
pub open spec fn outcome_of(prefix: Seq<char>, given: Result<ValueModel, Seq<char>>) -> Result<
    NativeModel,
    Seq<char>,
> {
    match given {
        Ok(tree) => Ok(native_of(tree)),
        Err(message) => Err(prefix + message),
    }
}

/// The model of what the formula parser gave.
pub open spec fn given_view(given: Result<GenericValue, String>) -> Result<ValueModel, Seq<char>> {
    match given {
        Ok(tree) => Ok(tree@),
        Err(message) => Err(message@),
    }
}

/// The model of what an operation returned.
pub open spec fn result_view(r: Result<NativeObject, HostError>) -> Result<NativeModel, Seq<char>> {
    match r {
        Ok(native) => Ok(native@),
        Err(e) => Err(e@),
    }
}

/// The largest integer argument that the parser can read: it reads one into
/// 32 unsigned bits and stops the program where it does not fit.
pub const MAX_INTEGER: u64 = 4294967295;

/// The byte is an ASCII decimal digit.
pub open spec fn is_digit(b: u8) -> bool {
    48 <= b <= 57
}

/// The byte is an ASCII letter or an underscore: after it, digits go on a
/// name and start no integer.
pub open spec fn is_name_byte(b: u8) -> bool {
    65 <= b <= 90 || 97 <= b <= 122 || b == 95
}

/// The digit at `at` stands in a run of digits that follows a letter or an
/// underscore, and so belongs to a name.
pub open spec fn in_name(bytes: Seq<u8>, at: int) -> bool
    decreases at,
{
    0 < at < bytes.len() && is_digit(bytes[at]) && (is_name_byte(bytes[at - 1]) || in_name(
        bytes,
        at - 1,
    ))
}

/// The decimal value of the run of digits that ends just before `end`, where
/// that run belongs to no name; 0 where no such run ends there.
pub open spec fn run_value(bytes: Seq<u8>, end: int) -> nat
    decreases end,
{
    if end <= 0 || end > bytes.len() || !is_digit(bytes[end - 1]) || in_name(bytes, end - 1) {
        0
    } else {
        run_value(bytes, end - 1) * 10 + (bytes[end - 1] - 48) as nat
    }
}

/// An opening parenthesis stands somewhere before `end`. The parser reads an
/// integer only among the arguments of a function, and so after one.
pub open spec fn opened(bytes: Seq<u8>, end: int) -> bool
    decreases end,
{
    0 < end <= bytes.len() && (bytes[end - 1] == 40 || opened(bytes, end - 1))
}

/// After an opening parenthesis no byte beyond ASCII stands directly after a
/// digit. The parser's lexer takes every Unicode decimal digit into an
/// integer that an ASCII digit began, and the parser cannot read such an
/// integer.
pub open spec fn digits_end_plainly(bytes: Seq<u8>) -> bool {
    forall|i: int|
        0 <= i && i + 1 < bytes.len() && opened(bytes, i) && is_digit(#[trigger] bytes[i])
            ==> bytes[i + 1] < 128
}

/// Every integer that the parser may read in the text is one that it can
/// read: after an opening parenthesis, digits are followed by ASCII only, and
/// no run of digits outside a name has a value above [`MAX_INTEGER`].
///
/// An integer of the parser starts at a digit from two to nine and takes the
/// digits that follow, so its value is at most that of the run it stands in.
pub open spec fn integers_fit(bytes: Seq<u8>) -> bool {
    &&& digits_end_plainly(bytes)
    &&& forall|end: int|
        0 <= end <= bytes.len() && opened(bytes, end) ==> #[trigger] run_value(bytes, end)
            <= MAX_INTEGER
}

/// Tells whether every integer that the parser may read in the formula is
/// one that it can read.
pub fn has_fitting_integers(formula: &str) -> (fit: bool)
    ensures
        fit == integers_fit(formula.spec_bytes()),
{
    let bytes = formula.as_bytes();
    let mut value: u64 = 0;
    let mut named: bool = false;
    let mut open: bool = false;
    let mut at: usize = 0;
    while at < bytes.len()
        invariant
            at <= bytes.len(),
            bytes@ == formula.spec_bytes(),
            open == opened(bytes@, at as int),
            open ==> value == run_value(bytes@, at as int),
            value <= MAX_INTEGER,
            named == (at > 0 && in_name(bytes@, at - 1)),
            forall|end: int|
                0 <= end <= at && opened(bytes@, end) ==> #[trigger] run_value(bytes@, end)
                    <= MAX_INTEGER,
            forall|i: int|
                0 <= i && i + 1 < at && opened(bytes@, i) && is_digit(#[trigger] bytes@[i])
                    ==> bytes@[i + 1] < 128,
        decreases bytes.len() - at,
    {
        let b = bytes[at];
        if at > 0 {
            let before = bytes[at - 1];
            if open && 48 <= before && before <= 57 && b >= 128 {
                assert(opened(bytes@, at - 1) && is_digit(bytes@[at - 1]) && bytes@[at as int]
                    >= 128);
                return false;
            }
            named = 48 <= b && b <= 57 && (name_byte(before) || named);
        } else {
            named = false;
        }
        if open && 48 <= b && b <= 57 && !named {
            value = value * 10 + (b - 48) as u64;
        } else {
            value = 0;
        }
        if b == 40 {
            open = true;
        }
        at += 1;
        assert(open == opened(bytes@, at as int));
        assert(open ==> value == run_value(bytes@, at as int));
        if value > MAX_INTEGER {
            return false;
        }
    }
    true
}

/// The byte is one that the parser's lexer skips between tokens.
pub open spec fn is_blank(b: u8) -> bool {
    b == 32 || b == 9 || b == 10 || b == 12
}

/// The place of the last byte before `end` that is no blank, or -1 where
/// there is none.
pub open spec fn prev_solid(bytes: Seq<u8>, end: int) -> int
    decreases end,
{
    if end <= 0 || end > bytes.len() {
        -1
    } else if !is_blank(bytes[end - 1]) {
        end - 1
    } else {
        prev_solid(bytes, end - 1)
    }
}

/// The byte is one after which the parser reads a term: `~`, `+`, `*` or `:`.
pub open spec fn is_term_opener(b: u8) -> bool {
    b == 126 || b == 43 || b == 42 || b == 58
}

/// The parser may read a term that starts at `at`: the last byte before it
/// that is no blank is one after which it reads a term.
pub open spec fn starts_term(bytes: Seq<u8>, at: int) -> bool {
    let before = prev_solid(bytes, at);
    0 <= before < bytes.len() && is_term_opener(bytes[before])
}

/// The two bytes that end at `at` are `first` and `second`, where a term may
/// start.
pub open spec fn ends_pair(bytes: Seq<u8>, at: int, first: u8, second: u8) -> bool {
    1 <= at < bytes.len() && bytes[at - 1] == first && bytes[at] == second && starts_term(
        bytes,
        at - 1,
    )
}

/// The three bytes that end at `at` spell `mmc`, where a term may start.
pub open spec fn ends_mmc(bytes: Seq<u8>, at: int) -> bool {
    2 <= at < bytes.len() && bytes[at - 2] == 109 && bytes[at - 1] == 109 && bytes[at] == 99
        && starts_term(bytes, at - 2)
}

/// What ends at `at` may be the first token of a term after which the parser
/// cannot take an opening parenthesis: another opening parenthesis, a `0`, a
/// `1`, or one of the words `gr`, `mm`, `mmc` and `cs`.
pub open spec fn bars_opening(bytes: Seq<u8>, at: int) -> bool {
    0 <= at < bytes.len() && (((bytes[at] == 40 || bytes[at] == 48 || bytes[at] == 49)
        && starts_term(bytes, at)) || ends_pair(bytes, at, 103, 114) || ends_pair(
        bytes,
        at,
        109,
        109,
    ) || ends_pair(bytes, at, 99, 115) || ends_mmc(bytes, at))
}

/// No opening parenthesis follows, directly or after blanks, what bars one.
/// The parser reads such a parenthesis as the start of a function's
/// arguments, finds no function, and stops the program.
pub open spec fn terms_open_well(bytes: Seq<u8>) -> bool {
    forall|at: int|
        0 <= at < bytes.len() && #[trigger] bytes[at] == 40 ==> !bars_opening(
            bytes,
            prev_solid(bytes, at),
        )
}

/// The formula is one that the parser takes without stopping the program, as
/// far as its bytes show: see [`integers_fit`] and [`terms_open_well`].
pub open spec fn parser_takes(bytes: Seq<u8>) -> bool {
    integers_fit(bytes) && terms_open_well(bytes)
}

/// Tells whether the byte before place `after` exists and is one after which
/// the parser reads a term; `after` is a place plus one, and 0 for none.
fn opener_before(bytes: &[u8], after: usize) -> (opens: bool)
    requires
        after <= bytes@.len(),
    ensures
        opens == (after > 0 && is_term_opener(bytes@[after - 1])),
{
    if after == 0 {
        false
    } else {
        let b = bytes[after - 1];
        b == 126 || b == 43 || b == 42 || b == 58
    }
}

/// Tells whether what ends at `at` bars an opening parenthesis. `second`,
/// `third` and `fourth` are the places, each plus one and 0 for none, of the
/// three bytes before `at` that are no blanks, from the nearest on.
fn bars_opening_at(bytes: &[u8], at: usize, second: usize, third: usize, fourth: usize) -> (bars:
    bool)
    requires
        at < bytes@.len(),
        second == prev_solid(bytes@, at as int) + 1,
        third == prev_solid(bytes@, second - 1) + 1,
        fourth == prev_solid(bytes@, third - 1) + 1,
    ensures
        bars == bars_opening(bytes@, at as int),
{
    proof {
        lemma_prev_solid(bytes@, at as int);
        lemma_prev_solid(bytes@, second - 1);
        lemma_prev_solid(bytes@, third - 1);
    }
    let b = bytes[at];
    if (b == 40 || b == 48 || b == 49) && opener_before(bytes, second) {
        return true;
    }
    if at >= 1 {
        let a = bytes[at - 1];
        if ((a == 103 && b == 114) || (a == 109 && b == 109) || (a == 99 && b == 115))
            && opener_before(bytes, third) {
            return true;
        }
    }
    if at >= 2 && bytes[at - 2] == 109 && bytes[at - 1] == 109 && b == 99 && opener_before(
        bytes,
        fourth,
    ) {
        return true;
    }
    false
}

/// `prev_solid` points before `end`, at a byte that is no blank where it
/// points at one, and is the byte just before `end` where that is no blank.
pub proof fn lemma_prev_solid(bytes: Seq<u8>, end: int)
    ensures
        -1 <= prev_solid(bytes, end) < end || (end <= 0 && prev_solid(bytes, end) == -1),
        prev_solid(bytes, end) < bytes.len(),
        prev_solid(bytes, end) >= 0 ==> !is_blank(bytes[prev_solid(bytes, end)]),
        0 < end <= bytes.len() && !is_blank(bytes[end - 1]) ==> prev_solid(bytes, end) == end - 1,
    decreases end,
{
    if 0 < end <= bytes.len() && is_blank(bytes[end - 1]) {
        lemma_prev_solid(bytes, end - 1);
    }
}

/// Tells whether the byte is an ASCII letter or an underscore.
fn name_byte(b: u8) -> (named: bool)
    ensures
        named == is_name_byte(b),
{
    (65 <= b && b <= 90) || (97 <= b && b <= 122) || b == 95
}

/// Tells whether no opening parenthesis of the formula follows what bars one.
pub fn has_sound_openings(formula: &str) -> (sound: bool)
    ensures
        sound == terms_open_well(formula.spec_bytes()),
{
    let bytes = formula.as_bytes();
    let mut first: usize = 0;
    let mut second: usize = 0;
    let mut third: usize = 0;
    let mut fourth: usize = 0;
    let mut at: usize = 0;
    while at < bytes.len()
        invariant
            at <= bytes.len(),
            bytes@ == formula.spec_bytes(),
            first <= at,
            first == prev_solid(bytes@, at as int) + 1,
            second == prev_solid(bytes@, first - 1) + 1,
            third == prev_solid(bytes@, second - 1) + 1,
            fourth == prev_solid(bytes@, third - 1) + 1,
            forall|p: int|
                0 <= p < at && #[trigger] bytes@[p] == 40 ==> !bars_opening(
                    bytes@,
                    prev_solid(bytes@, p),
                ),
        decreases bytes.len() - at,
    {
        let b = bytes[at];
        if b == 40 && first > 0 {
            if bars_opening_at(bytes, first - 1, second, third, fourth) {
                return false;
            }
        }
        if !(b == 32 || b == 9 || b == 10 || b == 12) {
            fourth = third;
            third = second;
            second = first;
            first = at + 1;
        }
        at += 1;
    }
    true
}

/// Tells whether the formula is one that the parser takes without stopping
/// the program, as far as its bytes show.
pub fn is_taken_by_parser(formula: &str) -> (taken: bool)
    ensures
        taken == parser_takes(formula.spec_bytes()),
{
    has_fitting_integers(formula) && has_sound_openings(formula)
}

/// The text of the parser's error for a formula on which `fiasto` fails to
/// parse, and `None` for a formula that it parses.
pub uninterp spec fn parse_failure(formula: Seq<char>) -> Option<Seq<char>>;

/// What lexing a formula with `fiasto` gives: the tree of the JSON value, or
/// the text of the lexer's error.
pub uninterp spec fn lexed(formula: Seq<char>) -> Result<ValueModel, Seq<char>>;

/// `fiasto::parse_formula`, its error handed out as its displayed text.
///
/// Whether the parser fails, and the text of its error, are fixed by the
/// formula: that is `parse_failure`. Nothing is claimed of the value that
/// comes back on success: for a formula with several responses the parser
/// orders its columns by the walk of a hash map.
///
/// The parser stops the program on an integer argument that does not read as
/// 32 unsigned bits, and on an opening parenthesis after a token that names
/// no function; `requires` keeps both out. On a failure the parser also
/// prints its diagnostic to standard error, and stops the program where that
/// cannot be written; nothing in the formula decides that. For `poly` with a
/// degree it builds that many column names, and it reads a chain of
/// interactions by recursion, so time, memory and stack grow with the
/// formula.
#[verifier::external_body]
fn run_parser(formula: &str) -> (given: Result<serde_json::Value, String>)
    requires
        parser_takes(formula.spec_bytes()),
    ensures
        match given {
            Ok(json) => parse_failure(formula@) is None,
            Err(message) => parse_failure(formula@) == Some(message@),
        },
{
    match fiasto::parse_formula(formula) {
        Ok(json) => Ok(json),
        Err(e) => Err(e.to_string()),
    }
}

/// `fiasto::lex_formula`, its error handed out as its displayed text. The
/// lexer reads nothing but the formula, so what comes back is `lexed` of it.
#[verifier::external_body]
fn run_lexer(formula: &str) -> (given: Result<serde_json::Value, String>)
    ensures
        match given {
            Ok(json) => lexed(formula@) == Ok::<ValueModel, Seq<char>>(json_model(json)),
            Err(message) => lexed(formula@) == Err::<ValueModel, Seq<char>>(message@),
        },
{
    match fiasto::lex_formula(formula) {
        Ok(json) => Ok(json),
        Err(e) => Err(e.to_string()),
    }
}

/// Converts the tree, or puts `prefix` before the message.
fn finish(given: Result<GenericValue, String>, prefix: &str) -> (r: Result<NativeObject, HostError>)
    ensures
        result_view(r) == outcome_of(prefix@, given_view(given)),
{
    match given {
        Ok(tree) => Ok(convert(&tree)),
        Err(message) => {
            let text = String::from_str(prefix).concat(message.as_str());
            Err(HostError { message: text })
        },
    }
}

/// Reads the JSON that `fiasto` gave into a generic value tree.
fn read(given: Result<serde_json::Value, String>) -> (tree: Result<GenericValue, String>)
    ensures
        match given {
            Ok(json) => given_view(tree) == Ok::<ValueModel, Seq<char>>(json_model(json)),
            Err(message) => given_view(tree) == Err::<ValueModel, Seq<char>>(message@),
        },
        tree matches Ok(t) ==> t@.well_formed(),
{
    match given {
        Ok(json) => Ok(from_json(&json)),
        Err(message) => Err(message),
    }
}

/// Finishes a parse: converts the tree that the parser gave, or wraps its
/// message as `Formula parsing error: ` followed by the message.
pub fn parse_outcome(given: Result<GenericValue, String>) -> (r: Result<NativeObject, HostError>)
    ensures
        result_view(r) == outcome_of(parse_prefix(), given_view(given)),
{
    finish(given, "Formula parsing error: ")
}

/// Finishes a lex: converts the tree that the lexer gave, or wraps its
/// message as `Formula lexing error: ` followed by the message.
pub fn lex_outcome(given: Result<GenericValue, String>) -> (r: Result<NativeObject, HostError>)
    ensures
        result_view(r) == outcome_of(lex_prefix(), given_view(given)),
{
    finish(given, "Formula lexing error: ")
}

/// What holds of the result of parsing `formula`: where the parser fails, the
/// error with the parser's text behind the prefix; where it parses, the
/// native object of some tree that has distinct keys in every object.
pub open spec fn parse_result(formula: Seq<char>, r: Result<NativeObject, HostError>) -> bool {
    match parse_failure(formula) {
        Some(message) => result_view(r) == Err::<NativeModel, Seq<char>>(parse_prefix() + message),
        None => exists|tree: ValueModel|
            tree.well_formed() && result_view(r) == Ok::<NativeModel, Seq<char>>(
                #[trigger] native_of(tree),
            ),
    }
}

/// Parses a formula and returns its metadata as a native object.
///
/// Which tree the parser gives for a formula that it parses is not fixed by
/// the formula alone, so the contract speaks of some tree.
pub fn parse_formula(formula: &str) -> (r: Result<NativeObject, HostError>)
    requires
        parser_takes(formula.spec_bytes()),
    ensures
        parse_result(formula@, r),
{
    let given = read(run_parser(formula));
    let ghost seen = given_view(given);
    let r = parse_outcome(given);
    proof {
        if let Ok(tree) = seen {
            assert(result_view(r) == Ok::<NativeModel, Seq<char>>(native_of(tree)));
        }
    }
    r
}

/// Parses a formula where the parser can take it: `None` for a formula on
/// which the parser may stop the program, and else what [`parse_formula`]
/// returns.
pub fn try_parse_formula(formula: &str) -> (r: Option<Result<NativeObject, HostError>>)
    ensures
        r is Some <==> parser_takes(formula.spec_bytes()),
        r matches Some(done) ==> parse_result(formula@, done),
{
    if is_taken_by_parser(formula) {
        Some(parse_formula(formula))
    } else {
        None
    }
}

/// Lexes a formula and returns its tokens as a native object: what
/// [`lex_outcome`] makes of what the lexer gives for the formula.
pub fn lex_formula(formula: &str) -> (r: Result<NativeObject, HostError>)
    ensures
        result_view(r) == outcome_of(lex_prefix(), lexed(formula@)),
        lexed(formula@) matches Ok(tree) ==> tree.well_formed(),
{
    let given = read(run_lexer(formula));
    lex_outcome(given)
}

} // verus!
