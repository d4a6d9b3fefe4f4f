//! What shard expressions mean.
use crate::chars::{
    begins_with, digit_of, is_space, lemma_decimal, lemma_number_of_decimal, lemma_piece_alone,
    lemma_pieces_next, pieces, split_dots, trimmed,
};
use crate::cluster::shard::{expr_matches, part_at_matches, part_matches};
use crate::text::decimal;
use vstd::prelude::*;
use vstd::string::*;

verus! {

/// An entry of a tenant list: one tenant, or those from one up to but not including another.
pub ghost enum TenantEntry {
    One(u64),
    Range(u64, u64),
}

impl TenantEntry {
    pub open spec fn covers(self, tenant: u64) -> bool {
        match self {
            TenantEntry::One(n) => tenant == n,
            TenantEntry::Range(lo, hi) => lo <= tenant && tenant < hi,
        }
    }

    /// The entry as it is written.
    pub open spec fn text(self) -> Seq<char> {
        match self {
            TenantEntry::One(n) => decimal(n as nat),
            TenantEntry::Range(lo, hi) => decimal(lo as nat) + ".."@ + decimal(hi as nat),
        }
    }
}

/// So many blanks.
pub open spec fn blanks(n: nat) -> Seq<char> {
    Seq::new(n, |i: int| ' ')
}

/// Entries separated by commas, each behind as many blanks as `lead` says.
pub open spec fn list_text(entries: Seq<TenantEntry>, lead: Seq<nat>) -> Seq<char>
    decreases entries.len(),
{
    if entries.len() == 0 {
        Seq::empty()
    } else if entries.len() == 1 {
        blanks(lead[0]) + entries[0].text()
    } else {
        list_text(entries.drop_last(), lead) + seq![','] + (blanks(lead[entries.len() - 1])
            + entries.last().text())
    }
}

proof fn lemma_no_dots(s: Seq<char>)
    requires
        forall|i: int| 0 <= i < s.len() ==> digit_of(#[trigger] s[i]) is Some,
    ensures
        split_dots(s) is None,
    decreases s.len(),
{
    if s.len() >= 2 {
        let d = s.drop_first();
        assert(digit_of(s[0]) is Some);
        assert forall|i: int| 0 <= i < d.len() implies digit_of(#[trigger] d[i]) is Some by {
            assert(d[i] == s[i + 1]);
        }
        lemma_no_dots(d);
    }
}

proof fn lemma_first_dots(a: Seq<char>, b: Seq<char>)
    requires
        forall|i: int| 0 <= i < a.len() ==> digit_of(#[trigger] a[i]) is Some,
    ensures
        split_dots(a + seq!['.', '.'] + b) == Some((a, b)),
    decreases a.len(),
{
    let s = a + seq!['.', '.'] + b;
    if a.len() == 0 {
        assert(s.skip(2) =~= b);
        assert(a =~= Seq::empty());
    } else {
        let d = a.drop_first();
        assert(digit_of(a[0]) is Some);
        assert forall|i: int| 0 <= i < d.len() implies digit_of(#[trigger] d[i]) is Some by {
            assert(d[i] == a[i + 1]);
        }
        lemma_first_dots(d, b);
        assert(s.drop_first() =~= d + seq!['.', '.'] + b);
        assert(seq![a[0]] + d =~= a);
    }
}

proof fn lemma_entry_matches(e: TenantEntry, tenant: u64)
    ensures
        part_matches(e.text(), tenant) == e.covers(tenant),
{
    match e {
        TenantEntry::One(n) => {
            lemma_decimal(n as nat);
            lemma_no_dots(decimal(n as nat));
            lemma_number_of_decimal(n);
        },
        TenantEntry::Range(lo, hi) => {
            reveal_strlit("..");
            lemma_decimal(lo as nat);
            lemma_number_of_decimal(lo);
            lemma_number_of_decimal(hi);
            assert(".."@ =~= seq!['.', '.']);
            lemma_first_dots(decimal(lo as nat), decimal(hi as nat));
        },
    }
}

/// An entry begins and ends with a digit, and has no comma in it.
proof fn lemma_entry_text(e: TenantEntry)
    ensures
        e.text().len() > 0,
        digit_of(e.text()[0]) is Some,
        digit_of(e.text().last()) is Some,
        forall|i: int| 0 <= i < e.text().len() ==> #[trigger] e.text()[i] != ',',
{
    match e {
        TenantEntry::One(n) => {
            lemma_decimal(n as nat);
        },
        TenantEntry::Range(lo, hi) => {
            reveal_strlit("..");
            lemma_decimal(lo as nat);
            lemma_decimal(hi as nat);
            let t = e.text();
            let a = decimal(lo as nat);
            let b = decimal(hi as nat);
            assert(t[0] == a[0]);
            assert(t.last() == b.last());
            assert forall|i: int| 0 <= i < t.len() implies #[trigger] t[i] != ',' by {
                if i < a.len() {
                    assert(t[i] == a[i]);
                } else if i >= a.len() + 2 {
                    assert(t[i] == b[i - a.len() - 2]);
                }
            }
        },
    }
}

proof fn lemma_trim_lead(n: nat, s: Seq<char>)
    requires
        s.len() > 0,
        !is_space(s[0]),
        !is_space(s.last()),
    ensures
        trimmed(blanks(n) + s) == s,
    decreases n,
{
    let t = blanks(n) + s;
    if n == 0 {
        assert(t =~= s);
    } else {
        assert(t[0] == ' ');
        assert(t.drop_first() =~= blanks((n - 1) as nat) + s);
        lemma_trim_lead((n - 1) as nat, s);
    }
}

proof fn lemma_padded(e: TenantEntry, n: nat)
    ensures
        forall|i: int|
            0 <= i < (blanks(n) + e.text()).len() ==> #[trigger] (blanks(n) + e.text())[i] != ',',
        trimmed(blanks(n) + e.text()) == e.text(),
{
    lemma_entry_text(e);
    lemma_trim_lead(n, e.text());
    let t = blanks(n) + e.text();
    assert forall|i: int| 0 <= i < t.len() implies #[trigger] t[i] != ',' by {
        if i >= n {
            assert(t[i] == e.text()[i - n]);
        }
    }
}

proof fn lemma_list_pieces(entries: Seq<TenantEntry>, lead: Seq<nat>)
    requires
        entries.len() > 0,
    ensures
        pieces(list_text(entries, lead), ',').len() == entries.len(),
        forall|i: int|
            0 <= i < entries.len() ==> trimmed(#[trigger] pieces(list_text(entries, lead), ',')[i])
                == entries[i].text(),
        list_text(entries, lead).len() > 0,
        digit_of(list_text(entries, lead).last()) is Some,
    decreases entries.len(),
{
    let n = entries.len() as int;
    let last = blanks(lead[n - 1]) + entries[n - 1].text();
    lemma_padded(entries[n - 1], lead[n - 1]);
    lemma_entry_text(entries[n - 1]);
    assert(last.last() == entries[n - 1].text().last());
    if n == 1 {
        lemma_piece_alone(last, ',');
    } else {
        let head = entries.drop_last();
        let a = list_text(head, lead);
        lemma_list_pieces(head, lead);
        lemma_pieces_next(a, last, ',');
        let all = list_text(entries, lead);
        assert(all == a + seq![','] + last);
        assert(all.last() == last.last());
        assert forall|i: int| 0 <= i < n implies trimmed(#[trigger] pieces(all, ',')[i])
            == entries[i].text() by {
            if i < n - 1 {
                assert(pieces(all, ',')[i] == pieces(a, ',')[i]);
                assert(head[i] == entries[i]);
            }
        }
    }
}

/// A list of tenants and ranges covers a tenant if and only if one of its entries does,
/// wherever in the list it stands and however many blanks precede it.
pub proof fn tenant_lists_cover_their_entries(
    entries: Seq<TenantEntry>,
    lead: Seq<nat>,
    tenant: u64,
)
    ensures
        expr_matches("tenant="@ + list_text(entries, lead), tenant) <==> exists|i: int|
            0 <= i < entries.len() && (#[trigger] entries[i]).covers(tenant),
{
    reveal_strlit("tenant=");
    reveal_strlit("*");
    let rest = list_text(entries, lead);
    let expr = "tenant="@ + rest;
    assert(expr[0] == 't');
    let parts = pieces(rest, ',');
    if entries.len() == 0 {
        assert(rest.len() == 0);
        assert(expr.last() == '=');
    } else {
        lemma_list_pieces(entries, lead);
        assert(expr.last() == rest.last());
    }
    assert(!is_space(expr[0]) && !is_space(expr.last()));
    assert(trimmed(expr) == expr);
    assert(expr.take("tenant="@.len() as int) =~= "tenant="@);
    assert(expr.skip("tenant="@.len() as int) =~= rest);
    assert(begins_with(expr, "tenant="@));
    if entries.len() == 0 {
        assert(rest =~= Seq::empty());
        assert(parts == seq![Seq::<char>::empty()]);
        assert(trimmed(parts[0]) == Seq::<char>::empty());
        assert(!part_at_matches(parts, 0, tenant));
    } else {
        assert forall|i: int| 0 <= i < entries.len() implies #[trigger] part_at_matches(
            parts,
            i,
            tenant,
        ) == entries[i].covers(tenant) by {
            assert(trimmed(parts[i]) == entries[i].text());
            lemma_entry_matches(entries[i], tenant);
        }
        if exists|i: int| 0 <= i < entries.len() && (#[trigger] entries[i]).covers(tenant) {
            let i = choose|i: int| 0 <= i < entries.len() && (#[trigger] entries[i]).covers(tenant);
            assert(part_at_matches(parts, i, tenant));
        }
        if expr_matches(expr, tenant) {
            let i = choose|i: int|
                0 <= i < parts.len() && #[trigger] part_at_matches(parts, i, tenant);
            assert(entries[i].covers(tenant));
        }
    }
}

/// The entries of a plain list of tenants.
pub open spec fn single_tenants(tenants: Seq<u64>) -> Seq<TenantEntry> {
    Seq::new(tenants.len(), |i: int| TenantEntry::One(tenants[i]))
}

/// The numbers of tenants, separated by commas, cover exactly those tenants.
pub proof fn tenant_numbers_cover_themselves(tenants: Seq<u64>, tenant: u64)
    ensures
        expr_matches(
            "tenant="@ + list_text(single_tenants(tenants), Seq::new(tenants.len(), |i: int| 0nat)),
            tenant,
        ) <==> tenants.contains(tenant),
{
    let entries = single_tenants(tenants);
    tenant_lists_cover_their_entries(entries, Seq::new(tenants.len(), |i: int| 0nat), tenant);
    if tenants.contains(tenant) {
        let i = choose|i: int| 0 <= i < tenants.len() && tenants[i] == tenant;
        assert(entries[i].covers(tenant));
    }
    if exists|i: int| 0 <= i < entries.len() && (#[trigger] entries[i]).covers(tenant) {
        let i = choose|i: int| 0 <= i < entries.len() && (#[trigger] entries[i]).covers(tenant);
        assert(tenants[i] == tenant);
    }
}

/// A range covers the tenants from its first number up to but not including its second.
pub proof fn tenant_ranges_are_half_open(lo: u64, hi: u64, tenant: u64)
    ensures
        expr_matches("tenant="@ + decimal(lo as nat) + ".."@ + decimal(hi as nat), tenant) <==> lo
            <= tenant < hi,
{
    let e = TenantEntry::Range(lo, hi);
    tenant_lists_cover_their_entries(seq![e], seq![0nat], tenant);
    assert("tenant="@ + list_text(seq![e], seq![0nat]) =~= "tenant="@ + decimal(lo as nat) + ".."@
        + decimal(hi as nat)) by {
        assert(blanks(0) =~= Seq::empty());
    }
    assert(seq![e][0].covers(tenant) == (lo <= tenant && tenant < hi));
}

/// A star, and nothing but blanks, cover every tenant.
pub proof fn open_expressions_cover_all(n: nat, tenant: u64)
    ensures
        expr_matches("*"@, tenant),
        expr_matches(blanks(n), tenant),
    decreases n,
{
    reveal_strlit("*");
    assert(trimmed("*"@) == "*"@);
    lemma_trim_blanks(n);
}

proof fn lemma_trim_blanks(n: nat)
    ensures
        trimmed(blanks(n)).len() == 0,
    decreases n,
{
    if n > 0 {
        assert(blanks(n).drop_first() =~= blanks((n - 1) as nat));
        lemma_trim_blanks((n - 1) as nat);
    }
}

/// An expression that is neither empty nor a star and has no `tenant=` before it covers no
/// tenant.
pub proof fn unknown_expressions_cover_none(expr: Seq<char>, tenant: u64)
    requires
        expr.len() > 0,
        !is_space(expr[0]),
        !is_space(expr.last()),
        expr != "*"@,
        !"tenant="@.is_prefix_of(expr),
    ensures
        !expr_matches(expr, tenant),
{
    assert(trimmed(expr) == expr);
    if begins_with(expr, "tenant="@) {
        assert(expr.take("tenant="@.len() as int) =~= expr.subrange(0, "tenant="@.len() as int));
    }
}

proof fn lemma_trimmed_at(s: Seq<char>) -> (at: int)
    ensures
        0 <= at,
        at + trimmed(s).len() <= s.len(),
        s.subrange(at, at + trimmed(s).len() as int) == trimmed(s),
        forall|k: int| 0 <= k < at ==> is_space(#[trigger] s[k]),
        forall|k: int| at + trimmed(s).len() <= k < s.len() ==> is_space(#[trigger] s[k]),
        trimmed(s).len() > 0 ==> !is_space(trimmed(s)[0]) && !is_space(trimmed(s).last()),
    decreases s.len(),
{
    let n = trimmed(s).len() as int;
    if s.len() == 0 {
        assert(s.subrange(0, n) =~= s);
        0
    } else if is_space(s[0]) {
        let rest = s.drop_first();
        let at = lemma_trimmed_at(rest);
        assert(s.subrange(at + 1, at + 1 + n) =~= rest.subrange(at, at + n));
        assert forall|k: int| 0 <= k < at + 1 implies is_space(#[trigger] s[k]) by {
            if k > 0 {
                assert(is_space(rest[k - 1]));
            }
        }
        assert forall|k: int| at + 1 + n <= k < s.len() implies is_space(#[trigger] s[k]) by {
            assert(is_space(rest[k - 1]));
        }
        at + 1
    } else if is_space(s.last()) {
        let rest = s.drop_last();
        let at = lemma_trimmed_at(rest);
        assert(s.subrange(at, at + n) =~= rest.subrange(at, at + n));
        assert forall|k: int| 0 <= k < at implies is_space(#[trigger] s[k]) by {
            assert(is_space(rest[k]));
        }
        assert forall|k: int| at + n <= k < s.len() implies is_space(#[trigger] s[k]) by {
            if k < rest.len() {
                assert(is_space(rest[k]));
            }
        }
        at
    } else {
        assert(s.subrange(0, n) =~= s);
        0
    }
}

/// Of a text without its blanks nothing is missing but blanks at its ends, and all of those
/// are.
pub proof fn blanks_at_the_ends_are_dropped(s: Seq<char>)
    ensures
        trimmed(s).len() > 0 ==> !is_space(trimmed(s)[0]) && !is_space(trimmed(s).last()),
        exists|front: Seq<char>, back: Seq<char>|
            #![trigger front + trimmed(s) + back]
            {
                &&& s == front + trimmed(s) + back
                &&& forall|k: int| 0 <= k < front.len() ==> is_space(#[trigger] front[k])
                &&& forall|k: int| 0 <= k < back.len() ==> is_space(#[trigger] back[k])
            },
{
    let at = lemma_trimmed_at(s);
    let end = at + trimmed(s).len() as int;
    let front = s.take(at);
    let back = s.skip(end);
    assert(s =~= front + trimmed(s) + back) by {
        assert forall|k: int| at <= k < end implies s[k] == trimmed(s)[k - at] by {
            assert(s.subrange(at, end)[k - at] == s[k]);
        }
    }
}

} // verus!
