//! Which keys a restore accepts.
use crate::chars::{begins_with, digit_of, lemma_decimal, split_dots};
use crate::cli::restore::{commit_or_zero, is_safe_key, is_tenant_key, low_i16, or_zero};
use crate::text::decimal;
use vstd::prelude::*;
use vstd::string::*;

verus! {

/// Two dots in a row stand somewhere in the text.
pub open spec fn has_two_dots(s: Seq<char>) -> bool {
    exists|i: int| 0 <= i && i + 1 < s.len() && #[trigger] s[i] == '.' && s[i + 1] == '.'
}

proof fn lemma_dots_found(s: Seq<char>)
    ensures
        split_dots(s) is Some <==> has_two_dots(s),
    decreases s.len(),
{
    if s.len() >= 2 {
        let d = s.drop_first();
        lemma_dots_found(d);
        if has_two_dots(d) {
            let i = choose|i: int|
                0 <= i && i + 1 < d.len() && #[trigger] d[i] == '.' && d[i + 1] == '.';
            assert(s[i + 1] == '.' && s[i + 1 + 1] == '.');
        }
        if has_two_dots(s) && !(s[0] == '.' && s[1] == '.') {
            let i = choose|i: int|
                0 <= i && i + 1 < s.len() && #[trigger] s[i] == '.' && s[i + 1] == '.';
            assert(d[i - 1] == '.' && d[i - 1 + 1] == '.');
        }
        if s[0] == '.' && s[1] == '.' {
            assert(has_two_dots(s));
        }
    }
}

/// A restore accepts a key if and only if it is not empty, does not climb up with two dots
/// anywhere, is not absolute, and has no NUL in it.
pub proof fn keys_that_leave_the_store_are_refused(key: Seq<char>)
    ensures
        is_safe_key(key) <==> {
            &&& key.len() > 0
            &&& !has_two_dots(key)
            &&& key[0] != '/'
            &&& forall|i: int| 0 <= i < key.len() ==> #[trigger] key[i] as u32 != 0
        },
{
    lemma_dots_found(key);
}

/// Two dots make a key unsafe wherever they stand in it.
pub proof fn climbing_keys_are_refused(before: Seq<char>, after: Seq<char>)
    ensures
        !is_safe_key(before + ".."@ + after),
        !is_safe_key("/"@ + after),
        !is_safe_key(Seq::empty()),
{
    reveal_strlit("..");
    reveal_strlit("/");
    let key = before + ".."@ + after;
    let n = before.len() as int;
    assert(key[n] == '.' && key[n + 1] == '.');
    assert(has_two_dots(key));
    lemma_dots_found(key);
}

proof fn lemma_numbers_end(a: nat, b: nat, x: Seq<char>, y: Seq<char>)
    requires
        decimal(a) + seq!['/'] + x == decimal(b) + seq!['/'] + y,
    ensures
        a == b,
{
    lemma_decimal(a);
    lemma_decimal(b);
    let s = decimal(a) + seq!['/'] + x;
    let t = decimal(b) + seq!['/'] + y;
    let m = decimal(a).len() as int;
    let n = decimal(b).len() as int;
    if m < n {
        assert(s[m] == '/');
        assert(t[m] == decimal(b)[m]);
        assert(digit_of(decimal(b)[m]) is Some);
    } else if n < m {
        assert(t[n] == '/');
        assert(s[n] == decimal(a)[n]);
        assert(digit_of(decimal(a)[n]) is Some);
    }
    assert(s.take(m) =~= decimal(a));
    assert(t.take(n) =~= decimal(b));
}

proof fn lemma_begins_number(prefix: Seq<char>, a: nat, b: nat, rest: Seq<char>)
    ensures
        begins_with(prefix + decimal(a) + "/"@ + rest, prefix + decimal(b) + "/"@) <==> a == b,
{
    reveal_strlit("/");
    let key = prefix + decimal(a) + "/"@ + rest;
    let p = prefix + decimal(b) + "/"@;
    if begins_with(key, p) {
        let y = key.skip(p.len() as int);
        assert(key =~= p + y);
        let n = prefix.len() as int;
        assert(key.skip(n) =~= decimal(a) + seq!['/'] + rest);
        assert((p + y).skip(n) =~= decimal(b) + seq!['/'] + y);
        lemma_numbers_end(a, b, rest, y);
    }
    if a == b {
        assert(key.take(p.len() as int) =~= p);
    }
}

/// A key under a tenant's prefix is that tenant's, and no other's: neither that of a tenant
/// whose number begins with the same digits.
pub proof fn keys_belong_to_one_tenant(owner: u64, tenant: u64, rest: Seq<char>)
    ensures
        is_tenant_key("tenants/"@ + decimal(owner as nat) + "/"@ + rest, tenant) <==> owner
            == tenant,
        is_tenant_key("seg/"@ + decimal(owner as nat) + "/"@ + rest, tenant) <==> owner == tenant,
{
    reveal_strlit("tenants/");
    reveal_strlit("seg/");
    lemma_begins_number("tenants/"@, owner as nat, tenant as nat, rest);
    lemma_begins_number("seg/"@, owner as nat, tenant as nat, rest);
    let a = "tenants/"@ + decimal(owner as nat) + "/"@ + rest;
    let b = "seg/"@ + decimal(owner as nat) + "/"@ + rest;
    let pa = "tenants/"@ + decimal(tenant as nat) + "/"@;
    let pb = "seg/"@ + decimal(tenant as nat) + "/"@;
    assert(a[0] == 't' && b[0] == 's');
    if begins_with(a, pb) {
        assert(a.take(pb.len() as int)[0] == pb[0]);
    }
    if begins_with(b, pa) {
        assert(b.take(pa.len() as int)[0] == pa[0]);
    }
}

/// A key under neither prefix belongs to no tenant.
pub proof fn other_keys_belong_to_none(key: Seq<char>, tenant: u64)
    requires
        !"tenants/"@.is_prefix_of(key),
        !"seg/"@.is_prefix_of(key),
    ensures
        !is_tenant_key(key, tenant),
{
    lemma_shorter("tenants/"@, decimal(tenant as nat) + "/"@, key);
    lemma_shorter("seg/"@, decimal(tenant as nat) + "/"@, key);
    assert("tenants/"@ + (decimal(tenant as nat) + "/"@) =~= "tenants/"@ + decimal(tenant as nat)
        + "/"@);
    assert("seg/"@ + (decimal(tenant as nat) + "/"@) =~= "seg/"@ + decimal(tenant as nat) + "/"@);
}

proof fn lemma_shorter(p: Seq<char>, q: Seq<char>, key: Seq<char>)
    ensures
        begins_with(key, p + q) ==> p.is_prefix_of(key),
{
    if begins_with(key, p + q) {
        let n = p.len() as int;
        assert(key.take((p + q).len() as int).take(n) =~= (p + q).take(n));
        assert((p + q).take(n) =~= p);
        assert(key.subrange(0, n) =~= p);
    }
}

/// A restored level is the one in the backup; one beyond sixteen bits keeps its lowest.
pub proof fn restored_levels_are_kept(v: i64)
    ensures
        i16::MIN <= v <= i16::MAX ==> low_i16(v) == v,
        (v - low_i16(v)) % 0x1_0000 == 0,
{
}

/// What a backup leaves out is restored as zero.
pub proof fn missing_counts_are_zero(v: i64, c: u64)
    ensures
        or_zero(Some(v)) == v,
        or_zero(None) == 0,
        commit_or_zero(Some(c)) == c,
        commit_or_zero(None) == 0,
{
}

} // verus!
