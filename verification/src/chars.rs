//! Taking text apart: trimming, splitting, numbers.
use crate::text::decimal;
use vstd::prelude::*;
use vstd::slice::slice_subrange;
use vstd::string::*;

verus! {

/// The Unicode property `White_Space`.
pub open spec fn is_space(c: char) -> bool {
    let n = c as u32;
    (9 <= n && n <= 13) || n == 0x20 || n == 0x85 || n == 0xa0 || n == 0x1680 || (0x2000 <= n && n
        <= 0x200a) || n == 0x2028 || n == 0x2029 || n == 0x202f || n == 0x205f || n == 0x3000
}

/// Whether the character is white space.
pub fn char_is_space(c: char) -> (r: bool)
    ensures
        r == is_space(c),
{
    let n: u32 = c as u32;
    (9 <= n && n <= 13) || n == 0x20 || n == 0x85 || n == 0xa0 || n == 0x1680 || (0x2000 <= n && n
        <= 0x200a) || n == 0x2028 || n == 0x2029 || n == 0x202f || n == 0x205f || n == 0x3000
}

/// The text without white space at its ends.
pub open spec fn trimmed(s: Seq<char>) -> Seq<char>
    decreases s.len(),
{
    if s.len() == 0 {
        s
    } else if is_space(s[0]) {
        trimmed(s.drop_first())
    } else if is_space(s.last()) {
        trimmed(s.drop_last())
    } else {
        s
    }
}

/// The text without white space at its ends.
pub fn trim_chars(s: &[char]) -> (r: &[char])
    ensures
        r@ == trimmed(s@),
{
    let mut lo: usize = 0;
    let mut hi: usize = s.len();
    assert(s@.subrange(0, s@.len() as int) =~= s@);
    while lo < hi && char_is_space(s[lo])
        invariant
            lo <= hi,
            hi == s.len(),
            trimmed(s@) == trimmed(s@.subrange(lo as int, hi as int)),
        decreases hi - lo,
    {
        let ghost here = s@.subrange(lo as int, hi as int);
        assert(here.drop_first() =~= s@.subrange(lo + 1, hi as int));
        assert(here[0] == s@[lo as int]);
        lo = lo + 1;
    }
    while lo < hi && char_is_space(s[hi - 1])
        invariant
            lo <= hi <= s.len(),
            lo < hi ==> !is_space(s@[lo as int]),
            trimmed(s@) == trimmed(s@.subrange(lo as int, hi as int)),
        decreases hi - lo,
    {
        let ghost here = s@.subrange(lo as int, hi as int);
        assert(here.drop_last() =~= s@.subrange(lo as int, hi - 1));
        assert(here.last() == s@[hi - 1]);
        assert(here[0] == s@[lo as int]);
        hi = hi - 1;
    }
    let r = slice_subrange(s, lo, hi);
    proof {
        if lo < hi {
            assert(r@[0] == s@[lo as int]);
            assert(r@.last() == s@[hi - 1]);
        }
    }
    r
}

/// The parts of a text between separators.
pub open spec fn pieces(s: Seq<char>, sep: char) -> Seq<Seq<char>>
    decreases s.len(),
{
    if s.len() == 0 {
        seq![Seq::empty()]
    } else {
        let p = pieces(s.drop_last(), sep);
        if s.last() == sep {
            p.push(Seq::empty())
        } else {
            p.update(p.len() - 1, p.last().push(s.last()))
        }
    }
}

pub proof fn lemma_pieces_len(s: Seq<char>, sep: char)
    ensures
        pieces(s, sep).len() > 0,
    decreases s.len(),
{
    if s.len() > 0 {
        lemma_pieces_len(s.drop_last(), sep);
    }
}

/// The contents of a list of character lists.
pub open spec fn char_rows(v: Seq<Vec<char>>) -> Seq<Seq<char>> {
    Seq::new(v.len(), |i: int| v[i]@)
}

/// The parts of a text between separators.
pub fn split_chars(s: &[char], sep: char) -> (r: Vec<Vec<char>>)
    ensures
        char_rows(r@) == pieces(s@, sep),
{
    let mut done: Vec<Vec<char>> = Vec::new();
    let mut current: Vec<char> = Vec::new();
    let mut i: usize = 0;
    assert(s@.take(0) =~= Seq::empty());
    assert(char_rows(done@).push(current@) =~= pieces(s@.take(0), sep));
    while i < s.len()
        invariant
            i <= s.len(),
            char_rows(done@).push(current@) == pieces(s@.take(i as int), sep),
        decreases s.len() - i,
    {
        let c: char = s[i];
        proof {
            assert(s@.take(i + 1).drop_last() =~= s@.take(i as int));
            assert(s@.take(i + 1).last() == c);
        }
        let ghost before = char_rows(done@).push(current@);
        if c == sep {
            let ghost rows = char_rows(done@);
            let ghost part = current@;
            done.push(current);
            current = Vec::new();
            proof {
                assert(char_rows(done@) =~= rows.push(part));
                assert(char_rows(done@).push(current@) =~= before.push(Seq::empty()));
            }
        } else {
            current.push(c);
            assert(char_rows(done@).push(current@) =~= before.update(
                before.len() - 1,
                before.last().push(c),
            ));
        }
        i = i + 1;
    }
    assert(s@.take(i as int) =~= s@);
    let ghost rows = char_rows(done@);
    let ghost part = current@;
    done.push(current);
    assert(char_rows(done@) =~= rows.push(part));
    done
}

/// The text before and after the first two dots in a row.
pub open spec fn split_dots(s: Seq<char>) -> Option<(Seq<char>, Seq<char>)>
    decreases s.len(),
{
    if s.len() < 2 {
        None
    } else if s[0] == '.' && s[1] == '.' {
        Some((Seq::empty(), s.skip(2)))
    } else {
        match split_dots(s.drop_first()) {
            Some((a, b)) => Some((seq![s[0]] + a, b)),
            None => None,
        }
    }
}

/// Where the first two dots in a row stand.
pub fn find_dots(s: &[char]) -> (r: Option<usize>)
    ensures
        match r {
            Some(i) => i + 2 <= s@.len() && split_dots(s@) == Some(
                (s@.take(i as int), s@.skip(i + 2)),
            ),
            None => split_dots(s@) is None,
        },
{
    let mut i: usize = 0;
    assert(s@.skip(0) =~= s@);
    while i < s.len() && s.len() - i >= 2
        invariant
            i <= s.len(),
            match split_dots(s@.skip(i as int)) {
                Some((a, b)) => split_dots(s@) == Some((s@.take(i as int) + a, b)),
                None => split_dots(s@) is None,
            },
        decreases s.len() - i,
    {
        let ghost here = s@.skip(i as int);
        assert(here[0] == s@[i as int] && here[1] == s@[i + 1]);
        if s[i] == '.' && s[i + 1] == '.' {
            assert(here.skip(2) =~= s@.skip(i + 2));
            assert(s@.take(i as int) + Seq::<char>::empty() =~= s@.take(i as int));
            return Some(i);
        }
        proof {
            assert(here.drop_first() =~= s@.skip(i + 1));
            if let Some((a, b)) = split_dots(s@.skip(i + 1)) {
                assert(s@.take(i as int) + (seq![here[0]] + a) =~= s@.take(i + 1) + a);
            }
        }
        i = i + 1;
    }
    None
}

/// The value of a decimal digit.
pub open spec fn digit_of(c: char) -> Option<nat> {
    if '0' as u32 <= c as u32 && c as u32 <= '9' as u32 {
        Some((c as u32 - '0' as u32) as nat)
    } else {
        None
    }
}

/// The number that a text of decimal digits spells.
pub open spec fn digits_value(s: Seq<char>) -> Option<nat>
    decreases s.len(),
{
    if s.len() == 0 {
        Some(0)
    } else {
        match (digits_value(s.drop_last()), digit_of(s.last())) {
            (Some(v), Some(d)) => Some(v * 10 + d),
            _ => None,
        }
    }
}

/// The 64-bit number that a text spells: decimal digits, with a plus sign or without.
pub open spec fn number_of(s: Seq<char>) -> Option<u64> {
    let body = if s.len() > 1 && s[0] == '+' { s.drop_first() } else { s };
    if body.len() == 0 {
        None
    } else {
        match digits_value(body) {
            Some(v) => if v <= u64::MAX { Some(v as u64) } else { None },
            None => None,
        }
    }
}

/// What begins a number is no larger than the number.
pub proof fn lemma_digits_grow(s: Seq<char>, n: int)
    requires
        0 <= n <= s.len(),
    ensures
        digits_value(s) matches Some(v) ==> (digits_value(s.take(n)) matches Some(w) && w <= v),
    decreases s.len() - n,
{
    if n < s.len() {
        lemma_digits_grow(s, n + 1);
        assert(s.take(n + 1).drop_last() =~= s.take(n));
    } else {
        assert(s.take(n) =~= s);
    }
}

/// The 64-bit number that a text spells.
pub fn parse_number(s: &[char]) -> (r: Option<u64>)
    ensures
        r == number_of(s@),
{
    let start: usize = if s.len() > 1 && s[0] == '+' {
        1
    } else {
        0
    };
    let body = slice_subrange(s, start, s.len());
    proof {
        if start == 1 {
            assert(body@ =~= s@.drop_first());
        } else {
            assert(body@ =~= s@);
        }
    }
    if body.len() == 0 {
        return None;
    }
    let mut v: u64 = 0;
    let mut i: usize = 0;
    assert(body@.take(0) =~= Seq::empty());
    while i < body.len()
        invariant
            i <= body.len(),
            number_of(s@) == (match digits_value(body@) {
                Some(v) => if v <= u64::MAX { Some(v as u64) } else { None },
                None => None,
            }),
            digits_value(body@.take(i as int)) == Some(v as nat),
        decreases body.len() - i,
    {
        let c: u32 = body[i] as u32;
        proof {
            assert(body@.take(i + 1).drop_last() =~= body@.take(i as int));
            assert(body@.take(i + 1).last() == body@[i as int]);
            lemma_digits_grow(body@, i + 1);
        }
        if c < '0' as u32 || c > '9' as u32 {
            return None;
        }
        let d: u64 = (c - '0' as u32) as u64;
        if v > (u64::MAX - d) / 10 {
            return None;
        }
        v = v * 10 + d;
        i = i + 1;
    }
    assert(body@.take(i as int) =~= body@);
    Some(v)
}

/// Whether a text begins with another.
pub open spec fn begins_with(s: Seq<char>, prefix: Seq<char>) -> bool {
    prefix.len() <= s.len() && s.take(prefix.len() as int) == prefix
}

/// Whether a text begins with another.
pub fn starts_with(s: &[char], prefix: &[char]) -> (r: bool)
    ensures
        r == begins_with(s@, prefix@),
{
    if prefix.len() > s.len() {
        return false;
    }
    let mut i: usize = 0;
    while i < prefix.len()
        invariant
            i <= prefix.len() <= s.len(),
            forall|k: int| 0 <= k < i ==> s@[k] == prefix@[k],
        decreases prefix.len() - i,
    {
        if s[i] != prefix[i] {
            assert(s@.take(prefix@.len() as int)[i as int] != prefix@[i as int]);
            return false;
        }
        i = i + 1;
    }
    assert(s@.take(prefix@.len() as int) =~= prefix@);
    true
}

/// Whether two texts are equal.
pub fn same_chars(a: &[char], b: &[char]) -> (r: bool)
    ensures
        r == (a@ == b@),
{
    if a.len() != b.len() {
        return false;
    }
    let r = starts_with(a, b);
    assert(a@.take(b@.len() as int) =~= a@);
    r
}

/// A decimal numeral is made of digits and spells its number.
pub proof fn lemma_decimal(n: nat)
    ensures
        decimal(n).len() > 0,
        digits_value(decimal(n)) == Some(n),
        forall|i: int| 0 <= i < decimal(n).len() ==> digit_of(#[trigger] decimal(n)[i]) is Some,
    decreases n,
{
    if n >= 10 {
        lemma_decimal(n / 10);
        assert(decimal(n).drop_last() =~= decimal(n / 10));
    } else {
        assert(decimal(n).drop_last() =~= Seq::empty());
        reveal_with_fuel(digits_value, 2);
    }
}

/// Reading the decimal numeral of a number gives the number.
pub proof fn lemma_number_of_decimal(n: u64)
    ensures
        number_of(decimal(n as nat)) == Some(n),
{
    lemma_decimal(n as nat);
    assert(digit_of(decimal(n as nat)[0]) is Some);
}

/// Text without a separator only makes the last piece longer.
pub proof fn lemma_pieces_more(a: Seq<char>, b: Seq<char>, sep: char)
    requires
        forall|i: int| 0 <= i < b.len() ==> #[trigger] b[i] != sep,
    ensures
        pieces(a + b, sep) == pieces(a, sep).update(
            pieces(a, sep).len() - 1,
            pieces(a, sep).last() + b,
        ),
    decreases b.len(),
{
    lemma_pieces_len(a, sep);
    let p = pieces(a, sep);
    if b.len() == 0 {
        assert(a + b =~= a);
        assert(p.last() + b =~= p.last());
        assert(p.update(p.len() - 1, p.last()) =~= p);
    } else {
        let d = b.drop_last();
        assert forall|i: int| 0 <= i < d.len() implies #[trigger] d[i] != sep by {
            assert(d[i] == b[i]);
        }
        lemma_pieces_more(a, d, sep);
        assert((a + b).drop_last() =~= a + d);
        assert((a + b).last() == b[b.len() - 1]);
        let q = pieces(a + d, sep);
        assert(q.last() == p.last() + d);
        assert((p.last() + d).push(b.last()) =~= p.last() + b);
        assert(pieces(a + b, sep) =~= p.update(p.len() - 1, p.last() + b));
    }
}

/// Text without a separator is one piece.
pub proof fn lemma_piece_alone(b: Seq<char>, sep: char)
    requires
        forall|i: int| 0 <= i < b.len() ==> #[trigger] b[i] != sep,
    ensures
        pieces(b, sep) == seq![b],
{
    let e = Seq::<char>::empty();
    lemma_pieces_more(e, b, sep);
    assert(e + b =~= b);
    assert(pieces(e, sep) == seq![e]);
    assert(seq![e].update(0, e + b) =~= seq![b]);
}

/// Behind a separator a new piece begins.
pub proof fn lemma_pieces_next(a: Seq<char>, b: Seq<char>, sep: char)
    requires
        forall|i: int| 0 <= i < b.len() ==> #[trigger] b[i] != sep,
    ensures
        pieces(a + seq![sep] + b, sep) == pieces(a, sep).push(b),
{
    let c = a + seq![sep];
    assert(c.drop_last() =~= a);
    assert(c.last() == sep);
    let p = pieces(a, sep);
    assert(pieces(c, sep) == p.push(Seq::empty()));
    lemma_pieces_more(c, b, sep);
    assert(Seq::<char>::empty() + b =~= b);
    assert(p.push(Seq::empty()).update(p.len() as int, b) =~= p.push(b));
}

} // verus!
