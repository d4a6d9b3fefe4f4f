//! The arguments of the in-process benchmark.
use crate::chars::{digit_of, digits_value, lemma_digits_grow};
use crate::cursor::string_views;
use crate::text::{chars_of, concat2, concat3, text_eq};
use vstd::prelude::*;
use vstd::slice::slice_subrange;
use vstd::string::*;

verus! {

#[derive(Clone, Debug)]
pub struct Args {
    pub rows: usize,
    pub segment_rows: usize,
    pub row_group_rows: u32,
    pub iters: usize,
    pub mode: String,
}

/// The values of the arguments.
#[verifier::ext_equal]
pub ghost struct ArgsView {
    pub rows: nat,
    pub segment_rows: nat,
    pub row_group_rows: nat,
    pub iters: nat,
    pub mode: Seq<char>,
}

impl View for Args {
    type V = ArgsView;

    open spec fn view(&self) -> ArgsView {
        ArgsView {
            rows: self.rows as nat,
            segment_rows: self.segment_rows as nat,
            row_group_rows: self.row_group_rows as nat,
            iters: self.iters as nat,
            mode: self.mode@,
        }
    }
}

/// What is used where no argument is given.
pub open spec fn default_args() -> ArgsView {
    ArgsView {
        rows: 100_000,
        segment_rows: 50_000,
        row_group_rows: 16_384,
        iters: 30,
        mode: "hot"@,
    }
}

impl Default for Args {
    fn default() -> (r: Self)
        ensures
            r@ == default_args(),
    {
        Args {
            rows: 100_000,
            segment_rows: 50_000,
            row_group_rows: 16_384,
            iters: 30,
            mode: String::from_str("hot"),
        }
    }
}

/// Why a text is no number.
#[derive(Clone, Copy, Debug, PartialEq, Eq, Structural)]
pub enum NumberFault {
    Empty,
    InvalidDigit,
    TooLarge,
}

impl NumberFault {
    /// The message.
    pub open spec fn text(self) -> Seq<char> {
        match self {
            NumberFault::Empty => "cannot parse integer from empty string"@,
            NumberFault::InvalidDigit => "invalid digit found in string"@,
            NumberFault::TooLarge => "number too large to fit in target type"@,
        }
    }

    pub fn to_string(&self) -> (r: String)
        ensures
            r@ == self.text(),
    {
        match self {
            NumberFault::Empty => String::from_str("cannot parse integer from empty string"),
            NumberFault::InvalidDigit => String::from_str("invalid digit found in string"),
            NumberFault::TooLarge => String::from_str("number too large to fit in target type"),
        }
    }
}

/// Why arguments are refused.
#[derive(Debug)]
pub enum ArgsError {
    /// The flag stands last.
    NeedsValue(String),
    /// The value is no number, or too large a one.
    BadNumber(NumberFault),
    Unknown(String),
    /// The named argument must not be zero.
    Zero(String),
    /// No such mode.
    BadMode(String),
}

/// A refusal by its kind and text.
pub ghost enum ArgsFault {
    NeedsValue(Seq<char>),
    BadNumber(NumberFault),
    Unknown(Seq<char>),
    Zero(Seq<char>),
    BadMode(Seq<char>),
}

impl View for ArgsError {
    type V = ArgsFault;

    open spec fn view(&self) -> ArgsFault {
        match self {
            ArgsError::NeedsValue(s) => ArgsFault::NeedsValue(s@),
            ArgsError::BadNumber(f) => ArgsFault::BadNumber(*f),
            ArgsError::Unknown(s) => ArgsFault::Unknown(s@),
            ArgsError::Zero(s) => ArgsFault::Zero(s@),
            ArgsError::BadMode(s) => ArgsFault::BadMode(s@),
        }
    }
}

impl ArgsError {
    /// The message.
    pub fn to_string(&self) -> (r: String)
        ensures
            r@ == match self@ {
                ArgsFault::NeedsValue(s) => s + " needs a value"@,
                ArgsFault::BadNumber(f) => f.text(),
                ArgsFault::Unknown(s) => "unknown argument "@ + s,
                ArgsFault::Zero(s) => s + " must be > 0"@,
                ArgsFault::BadMode(s) => "unsupported --mode "@ + s
                    + "; expected hot, cold, or both"@,
            },
    {
        match self {
            ArgsError::NeedsValue(s) => concat2(s.as_str(), " needs a value"),
            ArgsError::BadNumber(f) => f.to_string(),
            ArgsError::Unknown(s) => concat2("unknown argument ", s.as_str()),
            ArgsError::Zero(s) => concat2(s.as_str(), " must be > 0"),
            ArgsError::BadMode(s) => concat3(
                "unsupported --mode ",
                s.as_str(),
                "; expected hot, cold, or both",
            ),
        }
    }
}

/// How many digits a text begins with.
pub open spec fn digit_run(s: Seq<char>) -> nat
    decreases s.len(),
{
    if s.len() == 0 || digits_value(s) is Some {
        s.len()
    } else {
        digit_run(s.drop_last())
    }
}

/// The number that a text spells, with a plus sign or without, if it is at most `max`. The
/// first character from which on it cannot be one decides why it is not.
pub open spec fn number_within(s: Seq<char>, max: nat) -> Result<nat, NumberFault> {
    let body = if s.len() > 1 && s[0] == '+' { s.drop_first() } else { s };
    if body.len() == 0 {
        Err(NumberFault::Empty)
    } else {
        match digits_value(body.take(digit_run(body) as int)) {
            Some(v) => if v > max {
                Err(NumberFault::TooLarge)
            } else if digit_run(body) < body.len() {
                Err(NumberFault::InvalidDigit)
            } else {
                Ok(v)
            },
            None => Err(NumberFault::InvalidDigit),
        }
    }
}

/// A beginning of digits is part of the digits that a text begins with.
proof fn lemma_digit_run(s: Seq<char>, n: int)
    requires
        0 <= n <= s.len(),
        digits_value(s.take(n)) is Some,
    ensures
        n <= digit_run(s) <= s.len(),
        digits_value(s.take(digit_run(s) as int)) matches Some(v) && digits_value(s.take(n))->0
            <= v,
        n < s.len() && digit_of(s[n]) is None ==> digit_run(s) == n,
    decreases s.len(),
{
    lemma_digits_grow(s, n);
    assert(s.take(s.len() as int) =~= s);
    if n < s.len() {
        assert(s.take(n + 1).last() == s[n]);
        assert(s.take(n + 1).drop_last() =~= s.take(n));
        lemma_digits_grow(s, n + 1);
        if digits_value(s) is None {
            let t = s.drop_last();
            assert(t.take(n) =~= s.take(n));
            lemma_digit_run(t, n);
            assert(t.take(digit_run(t) as int) =~= s.take(digit_run(t) as int));
        }
    }
}

/// The arguments after one flag and its value.
pub open spec fn with_flag(a: ArgsView, flag: Seq<char>, value: Seq<char>) -> Result<
    ArgsView,
    ArgsFault,
> {
    if flag == "--rows"@ {
        match number_within(value, usize::MAX as nat) {
            Ok(v) => Ok(ArgsView { rows: v, ..a }),
            Err(f) => Err(ArgsFault::BadNumber(f)),
        }
    } else if flag == "--segment-rows"@ {
        match number_within(value, usize::MAX as nat) {
            Ok(v) => Ok(ArgsView { segment_rows: v, ..a }),
            Err(f) => Err(ArgsFault::BadNumber(f)),
        }
    } else if flag == "--row-group-rows"@ {
        match number_within(value, u32::MAX as nat) {
            Ok(v) => Ok(ArgsView { row_group_rows: v, ..a }),
            Err(f) => Err(ArgsFault::BadNumber(f)),
        }
    } else if flag == "--iters"@ {
        match number_within(value, usize::MAX as nat) {
            Ok(v) => Ok(ArgsView { iters: v, ..a }),
            Err(f) => Err(ArgsFault::BadNumber(f)),
        }
    } else if flag == "--mode"@ {
        Ok(ArgsView { mode: value, ..a })
    } else {
        Err(ArgsFault::Unknown(flag))
    }
}

/// The arguments after flags and values in turn; the first fault decides.
pub open spec fn with_flags(a: ArgsView, words: Seq<Seq<char>>) -> Result<ArgsView, ArgsFault>
    decreases words.len(),
{
    if words.len() == 0 {
        Ok(a)
    } else if words.len() == 1 {
        Err(ArgsFault::NeedsValue(words[0]))
    } else {
        match with_flag(a, words[0], words[1]) {
            Ok(b) => with_flags(b, words.skip(2)),
            Err(f) => Err(f),
        }
    }
}

/// What a command line asks for, or the first fault in it.
pub open spec fn parsed_args(words: Seq<Seq<char>>) -> Result<ArgsView, ArgsFault> {
    match with_flags(default_args(), words) {
        Err(f) => Err(f),
        Ok(a) => if a.rows == 0 {
            Err(ArgsFault::Zero("--rows"@))
        } else if a.segment_rows == 0 {
            Err(ArgsFault::Zero("--segment-rows"@))
        } else if a.row_group_rows == 0 {
            Err(ArgsFault::Zero("--row-group-rows"@))
        } else {
            Ok(a)
        },
    }
}

/// The number that a text spells.
fn read_number(value: &String, max: u64) -> (r: Result<u64, NumberFault>)
    ensures
        match number_within(value@, max as nat) {
            Ok(v) => r matches Ok(x) && x == v,
            Err(f) => r == Err::<u64, NumberFault>(f),
        },
{
    let all = chars_of(value.as_str());
    let start: usize = if all.len() > 1 && all[0] == '+' {
        1
    } else {
        0
    };
    let body = slice_subrange(all.as_slice(), start, all.len());
    let ghost text = if value@.len() > 1 && value@[0] == '+' {
        value@.drop_first()
    } else {
        value@
    };
    assert(body@ =~= text);
    if body.len() == 0 {
        return Err(NumberFault::Empty);
    }
    let mut v: u64 = 0;
    let mut i: usize = 0;
    assert(text.take(0) =~= Seq::empty());
    while i < body.len()
        invariant
            i <= body.len(),
            0 < body.len(),
            body@ == text,
            text == (if value@.len() > 1 && value@[0] == '+' {
                value@.drop_first()
            } else {
                value@
            }),
            v <= max,
            digits_value(text.take(i as int)) == Some(v as nat),
        decreases body.len() - i,
    {
        let c: u32 = body[i] as u32;
        proof {
            assert(text.take(i + 1).drop_last() =~= text.take(i as int));
            assert(text.take(i + 1).last() == text[i as int]);
            lemma_digit_run(text, i as int);
        }
        if c < '0' as u32 || c > '9' as u32 {
            return Err(NumberFault::InvalidDigit);
        }
        let next: u128 = v as u128 * 10 + (c - '0' as u32) as u128;
        proof {
            lemma_digit_run(text, i + 1);
        }
        if next > max as u128 {
            return Err(NumberFault::TooLarge);
        }
        v = next as u64;
        i = i + 1;
    }
    proof {
        lemma_digit_run(text, i as int);
    }
    Ok(v)
}

fn set_flag(args: &mut Args, flag: &String, value: &String) -> (r: Result<(), ArgsError>)
    ensures
        match with_flag(old(args)@, flag@, value@) {
            Ok(a) => r is Ok && final(args)@ == a,
            Err(f) => r matches Err(e) && e@ == f,
        },
{
    let name = flag.as_str();
    if text_eq(name, "--rows") {
        match read_number(value, usize::MAX as u64) {
            Ok(v) => {
                args.rows = v as usize;
            },
            Err(f) => {
                return Err(ArgsError::BadNumber(f));
            },
        }
    } else if text_eq(name, "--segment-rows") {
        match read_number(value, usize::MAX as u64) {
            Ok(v) => {
                args.segment_rows = v as usize;
            },
            Err(f) => {
                return Err(ArgsError::BadNumber(f));
            },
        }
    } else if text_eq(name, "--row-group-rows") {
        match read_number(value, u32::MAX as u64) {
            Ok(v) => {
                args.row_group_rows = v as u32;
            },
            Err(f) => {
                return Err(ArgsError::BadNumber(f));
            },
        }
    } else if text_eq(name, "--iters") {
        match read_number(value, usize::MAX as u64) {
            Ok(v) => {
                args.iters = v as usize;
            },
            Err(f) => {
                return Err(ArgsError::BadNumber(f));
            },
        }
    } else if text_eq(name, "--mode") {
        args.mode = value.clone();
    } else {
        return Err(ArgsError::Unknown(flag.clone()));
    }
    Ok(())
}

/// Reads a command line, without the program's name.
pub fn parse_args(words: &Vec<String>) -> (r: Result<Args, ArgsError>)
    ensures
        match parsed_args(string_views(words@)) {
            Ok(a) => r matches Ok(v) && v@ == a,
            Err(f) => r matches Err(e) && e@ == f,
        },
{
    let mut args = Args::default();
    let mut i: usize = 0;
    let ghost all = string_views(words@);
    assert(all.skip(0) =~= all);
    while i < words.len()
        invariant
            i <= words@.len(),
            all == string_views(words@),
            with_flags(default_args(), all) == with_flags(args@, all.skip(i as int)),
        decreases words@.len() - i,
    {
        let ghost rest = all.skip(i as int);
        if i + 1 >= words.len() {
            assert(rest.len() == 1 && rest[0] == words@[i as int]@);
            return Err(ArgsError::NeedsValue(words[i].clone()));
        }
        assert(rest.len() >= 2 && rest[0] == words@[i as int]@ && rest[1] == words@[i + 1]@);
        assert(rest.skip(2) =~= all.skip(i + 2));
        match set_flag(&mut args, &words[i], &words[i + 1]) {
            Ok(()) => {},
            Err(e) => {
                return Err(e);
            },
        }
        i = i + 2;
    }
    assert(all.skip(i as int).len() == 0);
    if args.rows == 0 {
        return Err(ArgsError::Zero(String::from_str("--rows")));
    }
    if args.segment_rows == 0 {
        return Err(ArgsError::Zero(String::from_str("--segment-rows")));
    }
    if args.row_group_rows == 0 {
        return Err(ArgsError::Zero(String::from_str("--row-group-rows")));
    }
    Ok(args)
}

/// How the caches are used in a run.
#[derive(Clone, Copy, Debug, PartialEq, Eq, Structural)]
pub enum CacheMode {
    Hot,
    Cold,
}

/// The runs that a mode stands for.
pub fn cache_modes(mode: &str) -> (r: Result<Vec<CacheMode>, ArgsError>)
    ensures
        if mode@ == "hot"@ {
            r matches Ok(v) && v@ == seq![CacheMode::Hot]
        } else if mode@ == "cold"@ {
            r matches Ok(v) && v@ == seq![CacheMode::Cold]
        } else if mode@ == "both"@ {
            r matches Ok(v) && v@ == seq![CacheMode::Hot, CacheMode::Cold]
        } else {
            r matches Err(e) && e@ == ArgsFault::BadMode(mode@)
        },
{
    if text_eq(mode, "hot") {
        let v: Vec<CacheMode> = vec![CacheMode::Hot];
        assert(v@ =~= seq![CacheMode::Hot]);
        Ok(v)
    } else if text_eq(mode, "cold") {
        let v: Vec<CacheMode> = vec![CacheMode::Cold];
        assert(v@ =~= seq![CacheMode::Cold]);
        Ok(v)
    } else if text_eq(mode, "both") {
        let v: Vec<CacheMode> = vec![CacheMode::Hot, CacheMode::Cold];
        assert(v@ =~= seq![CacheMode::Hot, CacheMode::Cold]);
        Ok(v)
    } else {
        Err(ArgsError::BadMode(String::from_str(mode)))
    }
}

} // verus!
