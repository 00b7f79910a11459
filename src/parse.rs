//! Parsing of compact duration strings such as `1h15m30s`.
//!
//! The input is trimmed, then scanned into number and unit tokens, then the
//! tokens are assembled into the three fields of a duration.
use vstd::prelude::*;
use vstd::string::*;

use crate::timer::{TimeoutDuration, MAX_SECONDS};

verus! {

/// A unit of a duration block.
#[derive(Debug, Clone, Copy, PartialEq, Eq, Structural)]
pub enum TimeUnit {
    Hour,
    Minute,
    Second,
}

/// Why a duration string was rejected.
#[derive(Debug)]
pub enum DurationParseError {
    /// A character that is neither a digit nor a unit letter.
    UnknownCharacter { found: char, input: String },
    /// A unit letter with no number before it.
    MissingNumber(TimeUnit),
    /// A number with no unit letter after it.
    MissingUnit,
    /// A second block for a unit that already has a non-zero value.
    DuplicateUnit,
    /// The duration adds up to zero seconds.
    ZeroDuration,
    /// The duration is longer than one day.
    OverLimit,
}

/// The cause of a rejection, without the echoed input.
#[derive(Debug, Clone, Copy, PartialEq, Eq, Structural)]
pub enum ParseFailure {
    UnknownCharacter(char),
    MissingNumber(TimeUnit),
    MissingUnit,
    DuplicateUnit,
    ZeroDuration,
    OverLimit,
}

impl DurationParseError {
    pub open spec fn failure(&self) -> ParseFailure {
        match self {
            DurationParseError::UnknownCharacter { found, .. } => ParseFailure::UnknownCharacter(
                *found,
            ),
            DurationParseError::MissingNumber(u) => ParseFailure::MissingNumber(*u),
            DurationParseError::MissingUnit => ParseFailure::MissingUnit,
            DurationParseError::DuplicateUnit => ParseFailure::DuplicateUnit,
            DurationParseError::ZeroDuration => ParseFailure::ZeroDuration,
            DurationParseError::OverLimit => ParseFailure::OverLimit,
        }
    }
}


/// The name of a unit as messages write it.
pub open spec fn unit_name(u: TimeUnit) -> Seq<char> {
    match u {
        TimeUnit::Hour => "Hour"@,
        TimeUnit::Minute => "Minute"@,
        TimeUnit::Second => "Second"@,
    }
}

impl DurationParseError {
    /// The text of `message`.
    pub open spec fn message_text(&self) -> Seq<char> {
        match self {
            DurationParseError::UnknownCharacter { found, input } => "unknown character `"@
                + seq![*found] + "` when try to parse `"@ + input@ + "`"@,
            DurationParseError::MissingNumber(u) => "Parse Error: A number should added before `"@
                + unit_name(*u) + "`"@,
            DurationParseError::MissingUnit => "Parse Error: A unit should follow the last number"@,
            DurationParseError::DuplicateUnit => "Parse Error: Should not have more than one hour block"@,
            DurationParseError::ZeroDuration => "Invalid: initial duration should not be zero"@,
            DurationParseError::OverLimit => "Invalid: Cannot have a time that is greater than 24 hours"@,
        }
    }

    /// A human-readable description of the rejection.
    pub fn message(&self) -> (r: String)
        ensures
            r@ == self.message_text(),
    {
        match self {
            DurationParseError::UnknownCharacter { found, input } => {
                let mut out = String::from_str("unknown character `");
                let c = char_text(*found);
                out.append(c.as_str());
                out.append("` when try to parse `");
                out.append(input.as_str());
                out.append("`");
                out
            },
            DurationParseError::MissingNumber(u) => {
                let mut out = String::from_str("Parse Error: A number should added before `");
                let name = match u {
                    TimeUnit::Hour => "Hour",
                    TimeUnit::Minute => "Minute",
                    TimeUnit::Second => "Second",
                };
                out.append(name);
                out.append("`");
                out
            },
            DurationParseError::MissingUnit => String::from_str(
                "Parse Error: A unit should follow the last number",
            ),
            DurationParseError::DuplicateUnit => String::from_str(
                "Parse Error: Should not have more than one hour block",
            ),
            DurationParseError::ZeroDuration => String::from_str(
                "Invalid: initial duration should not be zero",
            ),
            DurationParseError::OverLimit => String::from_str(
                "Invalid: Cannot have a time that is greater than 24 hours",
            ),
        }
    }
}

/// Relies on `char::to_string` (`ToString` through `Display` for `char`),
/// which writes the character itself.
#[verifier::external_body]
fn char_text(c: char) -> (r: String)
    ensures
        r@ == seq![c],
{
    c.to_string()
}

/// A token as scanned, with the exact value of its digits.
pub enum Lexeme {
    Number(nat),
    Unit(TimeUnit),
}

/// A token as the scanner stores it: a number above `NUMBER_CAP` is stored
/// as `NUMBER_CAP`, which is rejected as over the limit all the same.
#[derive(Debug, Clone, Copy, PartialEq, Eq, Structural)]
pub enum Token {
    Number(u32),
    Unit(TimeUnit),
}

/// One more than the largest number of seconds a duration may have.
pub const NUMBER_CAP: u32 = 86401;

impl Token {
    pub open spec fn lexeme(&self) -> Lexeme {
        match self {
            Token::Number(n) => Lexeme::Number(*n as nat),
            Token::Unit(u) => Lexeme::Unit(*u),
        }
    }
}

pub open spec fn lexemes_of(ts: Seq<Token>) -> Seq<Lexeme> {
    ts.map_values(|t: Token| t.lexeme())
}

pub open spec fn cap(n: nat) -> nat {
    if n > NUMBER_CAP {
        NUMBER_CAP as nat
    } else {
        n
    }
}

pub open spec fn cap_lexeme(l: Lexeme) -> Lexeme {
    match l {
        Lexeme::Number(n) => Lexeme::Number(cap(n)),
        Lexeme::Unit(u) => Lexeme::Unit(u),
    }
}

pub open spec fn capped(ls: Seq<Lexeme>) -> Seq<Lexeme> {
    ls.map_values(|l: Lexeme| cap_lexeme(l))
}

// ---- trimming ----

/// The characters that `str::trim` removes: those with the Unicode
/// `White_Space` property.
pub open spec fn is_space(c: char) -> bool {
    ||| '\u{9}' <= c <= '\u{d}'
    ||| c == ' '
    ||| c == '\u{85}'
    ||| c == '\u{a0}'
    ||| c == '\u{1680}'
    ||| '\u{2000}' <= c <= '\u{200a}'
    ||| c == '\u{2028}'
    ||| c == '\u{2029}'
    ||| c == '\u{202f}'
    ||| c == '\u{205f}'
    ||| c == '\u{3000}'
}

pub open spec fn trim_start(s: Seq<char>) -> Seq<char>
    decreases s.len(),
{
    if s.len() > 0 && is_space(s[0]) {
        trim_start(s.drop_first())
    } else {
        s
    }
}

pub open spec fn trim_end(s: Seq<char>) -> Seq<char>
    decreases s.len(),
{
    if s.len() > 0 && is_space(s.last()) {
        trim_end(s.drop_last())
    } else {
        s
    }
}

/// `s` without leading and trailing white space.
pub open spec fn trim(s: Seq<char>) -> Seq<char> {
    trim_end(trim_start(s))
}

// ---- scanning ----

pub open spec fn is_digit(c: char) -> bool {
    '0' <= c <= '9'
}

pub open spec fn digit_value(c: char) -> nat {
    (c as int - '0' as int) as nat
}

/// The unit that a letter names, in either case.
pub open spec fn unit_of(c: char) -> Option<TimeUnit> {
    if c == 'h' || c == 'H' {
        Some(TimeUnit::Hour)
    } else if c == 'm' || c == 'M' {
        Some(TimeUnit::Minute)
    } else if c == 's' || c == 'S' {
        Some(TimeUnit::Second)
    } else {
        None
    }
}

/// Where a left-to-right scan stands: the tokens emitted, the value of the
/// digits read since the last unit letter (if any), and the first character
/// that is neither a digit nor a unit letter (if one was met).
pub struct ScanState {
    pub lexemes: Seq<Lexeme>,
    pub pending: Option<nat>,
    pub stray: Option<char>,
}

pub open spec fn scan_step(st: ScanState, c: char) -> ScanState {
    if st.stray is Some {
        st
    } else if is_digit(c) {
        let prior = match st.pending {
            Some(p) => p,
            None => 0,
        };
        ScanState { pending: Some(prior * 10 + digit_value(c)), ..st }
    } else if unit_of(c) is Some {
        let emitted = match st.pending {
            Some(p) => st.lexemes.push(Lexeme::Number(p)),
            None => st.lexemes,
        };
        ScanState {
            lexemes: emitted.push(Lexeme::Unit(unit_of(c)->0)),
            pending: None,
            stray: None,
        }
    } else {
        ScanState { stray: Some(c), ..st }
    }
}

pub open spec fn scan_state(t: Seq<char>) -> ScanState
    decreases t.len(),
{
    if t.len() == 0 {
        ScanState { lexemes: seq![], pending: None, stray: None }
    } else {
        scan_step(scan_state(t.drop_last()), t.last())
    }
}

/// The tokens of `t`: each digit run before a unit letter becomes a number
/// token, each unit letter a unit token, and trailing digits a last number
/// token; or the first character that is neither digit nor unit letter.
pub open spec fn scan(t: Seq<char>) -> Result<Seq<Lexeme>, char> {
    let st = scan_state(t);
    match st.stray {
        Some(c) => Err(c),
        None => match st.pending {
            Some(p) => Ok(st.lexemes.push(Lexeme::Number(p))),
            None => Ok(st.lexemes),
        },
    }
}

proof fn lemma_stray_persists(t: Seq<char>, i: int)
    requires
        0 <= i <= t.len(),
        scan_state(t.take(i)).stray is Some,
    ensures
        scan_state(t).stray == scan_state(t.take(i)).stray,
    decreases t.len() - i,
{
    if i < t.len() {
        assert(t.take(i + 1).drop_last() =~= t.take(i));
        lemma_stray_persists(t, i + 1);
    } else {
        assert(t.take(i) =~= t);
    }
}


// ---- assembling ----

/// Where the assembly of a token sequence stands: the three fields so far,
/// the number waiting for its unit (if any), and the first failure met.
pub struct Assembly {
    pub hours: nat,
    pub minutes: nat,
    pub seconds: nat,
    pub pending: Option<nat>,
    pub failure: Option<ParseFailure>,
}

pub open spec fn field(a: Assembly, u: TimeUnit) -> nat {
    match u {
        TimeUnit::Hour => a.hours,
        TimeUnit::Minute => a.minutes,
        TimeUnit::Second => a.seconds,
    }
}

pub open spec fn fail(a: Assembly, f: ParseFailure) -> Assembly {
    Assembly { failure: Some(f), ..a }
}

/// One token of assembly: a number waits for its unit; a unit takes the
/// waiting number into its field, which must still be zero.
pub open spec fn assemble_step(a: Assembly, l: Lexeme) -> Assembly {
    if a.failure is Some {
        a
    } else {
        match l {
            Lexeme::Number(n) => if a.pending is Some {
                fail(a, ParseFailure::MissingUnit)
            } else {
                Assembly { pending: Some(n), ..a }
            },
            Lexeme::Unit(u) => match a.pending {
                None => fail(a, ParseFailure::MissingNumber(u)),
                Some(n) => if field(a, u) != 0 {
                    fail(a, ParseFailure::DuplicateUnit)
                } else {
                    match u {
                        TimeUnit::Hour => Assembly { hours: n, pending: None, ..a },
                        TimeUnit::Minute => Assembly { minutes: n, pending: None, ..a },
                        TimeUnit::Second => Assembly { seconds: n, pending: None, ..a },
                    }
                },
            },
        }
    }
}

pub open spec fn assemble_state(ls: Seq<Lexeme>) -> Assembly
    decreases ls.len(),
{
    if ls.len() == 0 {
        Assembly { hours: 0, minutes: 0, seconds: 0, pending: None, failure: None }
    } else {
        assemble_step(assemble_state(ls.drop_last()), ls.last())
    }
}

pub open spec fn seconds_of(h: nat, m: nat, s: nat) -> nat {
    (h * 60 + m) * 60 + s
}

/// The fields `(hours, minutes, seconds)` that a token sequence assembles
/// into, or why it is rejected: the first assembly failure, then a number
/// left without a unit, then a zero total, then a total over one day.
pub open spec fn assemble(ls: Seq<Lexeme>) -> Result<(nat, nat, nat), ParseFailure> {
    let a = assemble_state(ls);
    if a.failure is Some {
        Err(a.failure->0)
    } else if a.pending is Some {
        Err(ParseFailure::MissingUnit)
    } else if seconds_of(a.hours, a.minutes, a.seconds) == 0 {
        Err(ParseFailure::ZeroDuration)
    } else if seconds_of(a.hours, a.minutes, a.seconds) > MAX_SECONDS {
        Err(ParseFailure::OverLimit)
    } else {
        Ok((a.hours, a.minutes, a.seconds))
    }
}

/// What a duration string parses to: its trimmed text scanned, then
/// assembled.
pub open spec fn parse_spec(s: Seq<char>) -> Result<(nat, nat, nat), ParseFailure> {
    match scan(trim(s)) {
        Err(c) => Err(ParseFailure::UnknownCharacter(c)),
        Ok(ls) => assemble(ls),
    }
}

/// `r` is the outcome `o`: the same fields and no ticks, or the same cause.
pub open spec fn outcome_matches(
    r: Result<TimeoutDuration, DurationParseError>,
    o: Result<(nat, nat, nat), ParseFailure>,
) -> bool {
    match o {
        Ok((h, m, s)) => r matches Ok(d) && d.hours == h && d.minutes == m && d.seconds == s
            && d.progress == 0,
        Err(f) => r matches Err(e) && e.failure() == f,
    }
}

proof fn lemma_failure_persists(ls: Seq<Lexeme>, i: int)
    requires
        0 <= i <= ls.len(),
        assemble_state(ls.take(i)).failure is Some,
    ensures
        assemble_state(ls).failure == assemble_state(ls.take(i)).failure,
    decreases ls.len() - i,
{
    if i < ls.len() {
        assert(ls.take(i + 1).drop_last() =~= ls.take(i));
        lemma_failure_persists(ls, i + 1);
    } else {
        assert(ls.take(i) =~= ls);
    }
}

pub open spec fn cap_assembly(a: Assembly) -> Assembly {
    Assembly {
        hours: cap(a.hours),
        minutes: cap(a.minutes),
        seconds: cap(a.seconds),
        pending: match a.pending {
            Some(p) => Some(cap(p)),
            None => None,
        },
        failure: a.failure,
    }
}

proof fn lemma_assemble_state_capped(ls: Seq<Lexeme>)
    ensures
        assemble_state(capped(ls)) == cap_assembly(assemble_state(ls)),
    decreases ls.len(),
{
    if ls.len() > 0 {
        assert(capped(ls).drop_last() =~= capped(ls.drop_last()));
        lemma_assemble_state_capped(ls.drop_last());
    }
}

/// Storing numbers above `NUMBER_CAP` as `NUMBER_CAP` changes no outcome.
proof fn lemma_assemble_capped(ls: Seq<Lexeme>)
    ensures
        assemble(capped(ls)) == assemble(ls),
{
    lemma_assemble_state_capped(ls);
}

/// Tokens whose numbers are at most `NUMBER_CAP`, the only ones the scanner
/// stores.
pub open spec fn numbers_capped(ts: Seq<Token>) -> bool {
    forall|i: int| 0 <= i < ts.len() ==> (#[trigger] ts[i] matches Token::Number(n) ==> n <= NUMBER_CAP)
}

/// A duration string scanned into tokens, ready to be assembled.
pub struct SimpleDurationParser {
    tokens: Vec<Token>,
}

impl SimpleDurationParser {
    /// The scanned tokens, with their values.
    pub closed spec fn lexemes(&self) -> Seq<Lexeme> {
        lexemes_of(self.tokens@)
    }

    pub closed spec fn well_formed(&self) -> bool {
        numbers_capped(self.tokens@)
    }

    /// Trims `raw` and scans it into tokens; fails on the first character
    /// that is neither a digit nor a unit letter.
    pub fn new(raw: &str) -> (r: Result<Self, DurationParseError>)
        ensures
            match scan(trim(raw@)) {
                Ok(ls) => r matches Ok(p) && p.lexemes() == capped(ls) && p.well_formed(),
                Err(c) => r matches Err(DurationParseError::UnknownCharacter { found, input })
                    && found == c && input@ == raw@,
            },
    {
        let t = trim_str(raw);
        let n = t.unicode_len();
        let mut tokens: Vec<Token> = Vec::new();
        let mut num: u32 = 0;
        let mut has_num: bool = false;
        let mut i: usize = 0;
        while i < n
            invariant
                0 <= i <= n,
                n == t@.len(),
                t@ == trim(raw@),
                scan_state(t@.take(i as int)).stray is None,
                lexemes_of(tokens@) == capped(scan_state(t@.take(i as int)).lexemes),
                numbers_capped(tokens@),
                has_num <==> scan_state(t@.take(i as int)).pending is Some,
                has_num ==> num as nat == cap(scan_state(t@.take(i as int)).pending->0),
                num <= NUMBER_CAP,
            decreases n - i,
        {
            let c = t.get_char(i);
            let ghost before = scan_state(t@.take(i as int));
            assert(t@.take(i + 1).drop_last() =~= t@.take(i as int));
            assert(t@.take(i + 1).last() == c);
            if c >= '0' && c <= '9' {
                let d: u32 = (c as u32) - ('0' as u32);
                let next: u32 = if has_num { num * 10 + d } else { d };
                num = if next > NUMBER_CAP { NUMBER_CAP } else { next };
                has_num = true;
            } else if c == 'h' || c == 'H' || c == 'm' || c == 'M' || c == 's' || c == 'S' {
                let unit = if c == 'h' || c == 'H' {
                    TimeUnit::Hour
                } else if c == 'm' || c == 'M' {
                    TimeUnit::Minute
                } else {
                    TimeUnit::Second
                };
                if has_num {
                    tokens.push(Token::Number(num));
                    proof { lemma_capped_push(before.lexemes, Lexeme::Number(before.pending->0)); }
                }
                let ghost mid = tokens@;
                tokens.push(Token::Unit(unit));
                num = 0;
                has_num = false;
                proof {
                    let emitted = match before.pending {
                        Some(p) => before.lexemes.push(Lexeme::Number(p)),
                        None => before.lexemes,
                    };
                    lemma_capped_push(emitted, Lexeme::Unit(unit));
                    assert(lexemes_of(tokens@) =~= lexemes_of(mid).push(Lexeme::Unit(unit)));
                }
            } else {
                proof { lemma_stray_persists(t@, i + 1); }
                return Err(DurationParseError::UnknownCharacter { found: c, input: String::from_str(raw) });
            }
            i = i + 1;
        }
        assert(t@.take(n as int) =~= t@);
        if has_num {
            let ghost before = scan_state(t@);
            tokens.push(Token::Number(num));
            proof { lemma_capped_push(before.lexemes, Lexeme::Number(before.pending->0)); }
        }
        Ok(SimpleDurationParser { tokens })
    }

    /// Assembles the tokens into a duration: each unit takes the number
    /// before it, each field at most once, and the total must be more than
    /// zero and at most one day.
    pub fn parse(&mut self) -> (r: Result<TimeoutDuration, DurationParseError>)
        requires
            old(self).well_formed(),
        ensures
            *final(self) == *old(self),
            outcome_matches(r, assemble(old(self).lexemes())),
            !(r matches Err(DurationParseError::UnknownCharacter { .. })),
    {
        let ghost ls = lexemes_of(self.tokens@);
        let mut ret = TimeoutDuration::default();
        let mut pending: Option<u32> = None;
        let mut i: usize = 0;
        while i < self.tokens.len()
            invariant
                *self == *old(self),
                ls == lexemes_of(self.tokens@),
                numbers_capped(self.tokens@),
                0 <= i <= self.tokens@.len(),
                assemble_state(ls.take(i as int)).failure is None,
                ret.hours == assemble_state(ls.take(i as int)).hours,
                ret.minutes == assemble_state(ls.take(i as int)).minutes,
                ret.seconds == assemble_state(ls.take(i as int)).seconds,
                ret.progress == 0,
                0 <= ret.hours <= NUMBER_CAP,
                0 <= ret.minutes <= NUMBER_CAP,
                0 <= ret.seconds <= NUMBER_CAP,
                pending is Some <==> assemble_state(ls.take(i as int)).pending is Some,
                pending is Some ==> pending->0 <= NUMBER_CAP && pending->0 as nat
                    == assemble_state(ls.take(i as int)).pending->0,
            decreases self.tokens@.len() - i,
        {
            let token = self.tokens[i];
            assert(ls.take(i + 1).drop_last() =~= ls.take(i as int));
            assert(ls.take(i + 1).last() == token.lexeme());
            assert(numbers_capped(self.tokens@) ==> (token matches Token::Number(n) ==> n <= NUMBER_CAP));
            match token {
                Token::Number(num) => {
                    if pending.is_some() {
                        proof { lemma_failure_persists(ls, i + 1); }
                        return Err(DurationParseError::MissingUnit);
                    }
                    pending = Some(num);
                },
                Token::Unit(unit) => {
                    match pending {
                        None => {
                            proof { lemma_failure_persists(ls, i + 1); }
                            return Err(DurationParseError::MissingNumber(unit));
                        },
                        Some(num) => {
                            let current = match unit {
                                TimeUnit::Hour => ret.hours,
                                TimeUnit::Minute => ret.minutes,
                                TimeUnit::Second => ret.seconds,
                            };
                            if current != 0 {
                                proof { lemma_failure_persists(ls, i + 1); }
                                return Err(DurationParseError::DuplicateUnit);
                            }
                            match unit {
                                TimeUnit::Hour => ret.hours = num as i32,
                                TimeUnit::Minute => ret.minutes = num as i32,
                                TimeUnit::Second => ret.seconds = num as i32,
                            }
                            pending = None;
                        },
                    }
                },
            }
            i = i + 1;
        }
        assert(ls.take(i as int) =~= ls);
        if pending.is_some() {
            return Err(DurationParseError::MissingUnit);
        }
        if ret.is_zero() {
            return Err(DurationParseError::ZeroDuration);
        }
        ret.is_valid()
    }
}

/// Parses a duration string such as `1h15m30s`: surrounding white space is
/// ignored, units are `h`, `m` and `s` in either case and any order, each
/// block is a decimal number followed by its unit, and the result lies
/// between one second and one day.
pub fn parse_duration(duration: &str) -> (r: Result<TimeoutDuration, DurationParseError>)
    ensures
        outcome_matches(r, parse_spec(duration@)),
        r matches Ok(d) ==> d.valid(),
        r matches Err(DurationParseError::UnknownCharacter { input, .. }) ==> input@ == duration@,
{
    let mut parser = match SimpleDurationParser::new(duration) {
        Ok(p) => p,
        Err(e) => return Err(e),
    };
    proof {
        lemma_assemble_capped(scan(trim(duration@))->Ok_0);
    }
    parser.parse()
}

proof fn lemma_capped_push(ls: Seq<Lexeme>, l: Lexeme)
    ensures
        capped(ls.push(l)) == capped(ls).push(cap_lexeme(l)),
{
    assert(capped(ls.push(l)) =~= capped(ls).push(cap_lexeme(l)));
}

/// `raw` without leading and trailing white space.
fn trim_str(raw: &str) -> (r: &str)
    ensures
        r@ == trim(raw@),
{
    let n = raw.unicode_len();
    let mut start: usize = 0;
    assert(raw@.subrange(0, n as int) =~= raw@);
    while start < n && is_space_char(raw.get_char(start))
        invariant
            start <= n,
            n == raw@.len(),
            trim_start(raw@) == trim_start(raw@.subrange(start as int, n as int)),
        decreases n - start,
    {
        assert(raw@.subrange(start as int, n as int).drop_first() =~= raw@.subrange(start + 1, n as int));
        start = start + 1;
    }
    assert(trim_start(raw@.subrange(start as int, n as int)) == raw@.subrange(start as int, n as int));
    let mut end: usize = n;
    while end > start && is_space_char(raw.get_char(end - 1))
        invariant
            start <= end <= n,
            n == raw@.len(),
            trim(raw@) == trim_end(raw@.subrange(start as int, end as int)),
        decreases end - start,
    {
        assert(raw@.subrange(start as int, end as int).drop_last() =~= raw@.subrange(start as int, end - 1));
        end = end - 1;
    }
    raw.substring_char(start, end)
}

fn is_space_char(c: char) -> (r: bool)
    ensures
        r == is_space(c),
{
    ('\u{9}' <= c && c <= '\u{d}') || c == ' ' || c == '\u{85}' || c == '\u{a0}' || c == '\u{1680}'
        || ('\u{2000}' <= c && c <= '\u{200a}') || c == '\u{2028}' || c == '\u{2029}' || c
        == '\u{202f}' || c == '\u{205f}' || c == '\u{3000}'
}

} // verus!
