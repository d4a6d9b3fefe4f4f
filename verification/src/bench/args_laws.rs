//! What a command line sets.
use crate::bench::args::{
    default_args, number_within, parsed_args, with_flag, with_flags, ArgsFault, ArgsView,
    NumberFault,
};
use crate::chars::{digit_of, lemma_decimal};
use crate::text::decimal;
use vstd::prelude::*;
use vstd::string::*;

verus! {

proof fn lemma_flags_in_turn(a: ArgsView, words: Seq<Seq<char>>, more: Seq<Seq<char>>)
    requires
        with_flags(a, words) is Ok,
    ensures
        with_flags(a, words + more) == with_flags(with_flags(a, words)->Ok_0, more),
    decreases words.len(),
{
    if words.len() == 0 {
        assert(words + more =~= more);
    } else {
        let rest = words.skip(2);
        assert((words + more).skip(2) =~= rest + more);
        lemma_flags_in_turn(
            with_flag(a, words[0], words[1])->Ok_0,
            rest,
            more,
        );
    }
}

proof fn lemma_numeral(n: nat, max: nat)
    ensures
        number_within(decimal(n), max) == (if n <= max {
            Ok::<nat, NumberFault>(n)
        } else {
            Err(NumberFault::TooLarge)
        }),
{
    lemma_decimal(n);
    let s = decimal(n);
    assert(digit_of(s[0]) is Some);
    assert(s.take(s.len() as int) =~= s);
}

proof fn lemma_one_flag(a: ArgsView, flag: Seq<char>, value: Seq<char>)
    ensures
        with_flags(a, seq![flag, value]) == with_flag(a, flag, value),
{
    let words = seq![flag, value];
    assert(words.skip(2) =~= Seq::<Seq<char>>::empty());
    reveal_with_fuel(with_flags, 2);
}

/// Without arguments a run takes 100,000 rows in segments of 50,000, row groups of 16,384 and
/// thirty rounds over a warm cache.
pub proof fn runs_have_defaults()
    ensures
        parsed_args(Seq::empty()) == Ok::<ArgsView, ArgsFault>(
            (ArgsView {
                rows: 100_000,
                segment_rows: 50_000,
                row_group_rows: 16_384,
                iters: 30,
                mode: "hot"@,
            }),
        ),
{
}

/// A flag sets what it names to the number behind it, whatever was set before, and leaves
/// everything else alone.
pub proof fn flags_set_what_they_name(a: ArgsView, words: Seq<Seq<char>>, n: nat)
    requires
        with_flags(default_args(), words) == Ok::<ArgsView, ArgsFault>(a),
        n <= u32::MAX,
    ensures
        with_flags(default_args(), words + seq!["--rows"@, decimal(n)]) == Ok::<
            ArgsView,
            ArgsFault,
        >((ArgsView { rows: n, ..a })),
        with_flags(default_args(), words + seq!["--segment-rows"@, decimal(n)]) == Ok::<
            ArgsView,
            ArgsFault,
        >((ArgsView { segment_rows: n, ..a })),
        with_flags(default_args(), words + seq!["--row-group-rows"@, decimal(n)]) == Ok::<
            ArgsView,
            ArgsFault,
        >((ArgsView { row_group_rows: n, ..a })),
        with_flags(default_args(), words + seq!["--iters"@, decimal(n)]) == Ok::<
            ArgsView,
            ArgsFault,
        >((ArgsView { iters: n, ..a })),
{
    lemma_numeral(n, usize::MAX as nat);
    lemma_numeral(n, u32::MAX as nat);
    reveal_strlit("--rows");
    reveal_strlit("--segment-rows");
    reveal_strlit("--row-group-rows");
    reveal_strlit("--iters");
    assert("--rows"@.len() == 6 && "--segment-rows"@.len() == 14);
    assert("--row-group-rows"@.len() == 16 && "--iters"@.len() == 7);
    lemma_flags_in_turn(default_args(), words, seq!["--rows"@, decimal(n)]);
    lemma_one_flag(a, "--rows"@, decimal(n));
    lemma_flags_in_turn(default_args(), words, seq!["--segment-rows"@, decimal(n)]);
    lemma_one_flag(a, "--segment-rows"@, decimal(n));
    lemma_flags_in_turn(default_args(), words, seq!["--row-group-rows"@, decimal(n)]);
    lemma_one_flag(a, "--row-group-rows"@, decimal(n));
    lemma_flags_in_turn(default_args(), words, seq!["--iters"@, decimal(n)]);
    lemma_one_flag(a, "--iters"@, decimal(n));
}

/// The mode is taken as it stands, a flag at the end needs a value, and any other flag is
/// unknown.
pub proof fn other_flags_are_refused(
    a: ArgsView,
    words: Seq<Seq<char>>,
    flag: Seq<char>,
    value: Seq<char>,
)
    requires
        with_flags(default_args(), words) == Ok::<ArgsView, ArgsFault>(a),
    ensures
        with_flags(default_args(), words + seq!["--mode"@, value]) == Ok::<ArgsView, ArgsFault>(
            (ArgsView { mode: value, ..a }),
        ),
        with_flags(default_args(), words + seq![flag]) == Err::<ArgsView, ArgsFault>(
            ArgsFault::NeedsValue(flag),
        ),
        flag != "--rows"@ && flag != "--segment-rows"@ && flag != "--row-group-rows"@ && flag
            != "--iters"@ && flag != "--mode"@ ==> with_flags(
            default_args(),
            words + seq![flag, value],
        ) == Err::<ArgsView, ArgsFault>(ArgsFault::Unknown(flag)),
{
    reveal_strlit("--rows");
    reveal_strlit("--segment-rows");
    reveal_strlit("--row-group-rows");
    reveal_strlit("--iters");
    reveal_strlit("--mode");
    assert("--mode"@[2] == 'm' && "--rows"@[2] == 'r');
    assert("--segment-rows"@[2] == 's' && "--row-group-rows"@[2] == 'r' && "--iters"@[2] == 'i');
    lemma_flags_in_turn(default_args(), words, seq!["--mode"@, value]);
    lemma_one_flag(a, "--mode"@, value);
    lemma_flags_in_turn(default_args(), words, seq![flag]);
    lemma_flags_in_turn(default_args(), words, seq![flag, value]);
    lemma_one_flag(a, flag, value);
}

/// What a command line asks for has rows, segments and row groups that are not empty.
pub proof fn runs_are_never_empty(words: Seq<Seq<char>>)
    ensures
        parsed_args(words) matches Ok(a) ==> a.rows > 0 && a.segment_rows > 0 && a.row_group_rows
            > 0 && with_flags(default_args(), words) == Ok::<ArgsView, ArgsFault>(a),
        with_flags(default_args(), words) matches Ok(a) ==> (a.rows > 0 && a.segment_rows > 0
            && a.row_group_rows > 0 ==> parsed_args(words) == Ok::<ArgsView, ArgsFault>(a)),
{
}

} // verus!
