//! Names of nodes and of their roles.
use crate::cluster::node::NodeRole;
use crate::compactor::meta_laws::{lemma_digits_len, lemma_hex_injective, pow16};
use crate::outside::uuids::uuid_text;
use crate::text::digits;
use vstd::prelude::*;
use vstd::string::*;

verus! {

/// Different nodes have different names, of five groups of digits with a dash between them.
pub proof fn node_names_are_distinct(a: u128, b: u128)
    ensures
        uuid_text(a as nat).len() == 36,
        uuid_text(a as nat)[8] == '-' && uuid_text(a as nat)[13] == '-' && uuid_text(a as nat)[18]
            == '-' && uuid_text(a as nat)[23] == '-',
        uuid_text(a as nat) == uuid_text(b as nat) ==> a == b,
{
    reveal_strlit("-");
    let x = uuid_text(a as nat);
    let y = uuid_text(b as nat);
    let d = digits(a as nat, 16, 32);
    let e = digits(b as nat, 16, 32);
    lemma_digits_len(a as nat, 32);
    lemma_digits_len(b as nat, 32);
    if x == y {
        assert forall|i: int| 0 <= i < 32 implies d[i] == e[i] by {
            let k = if i < 8 {
                i
            } else if i < 12 {
                i + 1
            } else if i < 16 {
                i + 2
            } else if i < 20 {
                i + 3
            } else {
                i + 4
            };
            assert(x[k] == d[i]);
            assert(y[k] == e[i]);
        }
        assert(d =~= e);
        reveal_with_fuel(pow16, 33);
        lemma_hex_injective(a as nat, b as nat, 32);
    }
}

/// A role is known by its name in small letters, and by no other.
pub proof fn roles_have_their_names(name: Seq<char>)
    ensures
        NodeRole::named(name) == Some(NodeRole::Coordinator) <==> name == "coordinator"@,
        NodeRole::named(name) == Some(NodeRole::Worker) <==> name == "worker"@,
        NodeRole::named(name) == Some(NodeRole::Compactor) <==> name == "compactor"@,
        NodeRole::named(name) == Some(NodeRole::All) <==> name == "all"@,
{
    reveal_strlit("coordinator");
    reveal_strlit("worker");
    reveal_strlit("compactor");
    reveal_strlit("all");
    assert("coordinator"@.len() == 11 && "worker"@.len() == 6);
    assert("compactor"@.len() == 9 && "all"@.len() == 3);
}

} // verus!
