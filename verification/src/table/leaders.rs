//! What the checks of an accepted table guarantee as a whole: its lookups
//! are consistent, and every oneof has exactly one leading member, so the
//! member that is set is written once.
use vstd::prelude::*;
use super::entry::{Entry, EntryView};
use super::kind::Kind;
use super::message::{
    count_groups, count_leaders, entries_error, entry_error, lemma_checks_give_well_formed,
    lemma_entries_pass, lookup, member_error, numbers_increasing, table_error, well_formed, Aux,
};

verus! {

/// Whether entry `e` leads the oneof whose descriptor is at aux index `g`.
pub open spec fn leads(e: EntryView, aux: Seq<Aux>, g: int) -> bool {
    &&& e.kind == Kind::OneofLeader
    &&& (e.aux as int) < aux.len()
    &&& aux[e.aux as int] is Member
    &&& aux[e.aux as int]->Member_0@.group == g
}

/// The number of the first `k` entries that lead the oneof at aux index `g`.
pub open spec fn count_leaders_of(es: Seq<Entry>, aux: Seq<Aux>, g: int, k: int) -> nat
    decreases k,
{
    if k <= 0 {
        0
    } else {
        count_leaders_of(es, aux, g, k - 1) + if leads(es[k - 1]@, aux, g) {
            1nat
        } else {
            0
        }
    }
}

/// The leaders among the first `k` entries of the oneofs at aux indices
/// below `a`, added up over the oneofs.
spec fn sum_leaders(es: Seq<Entry>, aux: Seq<Aux>, a: int, k: int) -> nat
    decreases a,
{
    if a <= 0 {
        0
    } else {
        sum_leaders(es, aux, a - 1, k) + count_leaders_of(es, aux, a - 1, k)
    }
}

/// The number of oneof descriptors at aux indices below `a`.
spec fn groups_below(aux: Seq<Aux>, a: int) -> nat
    decreases a,
{
    if a <= 0 {
        0
    } else {
        groups_below(aux, a - 1) + if aux[a - 1] is Group {
            1nat
        } else {
            0
        }
    }
}

/// The group index of the member that entry `e` indexes, if it leads one.
spec fn led_group(e: EntryView, aux: Seq<Aux>) -> int {
    aux[e.aux as int]->Member_0@.group as int
}

/// Adding entry `k` adds one to the sum exactly when it leads a oneof at an
/// index below `a`.
proof fn lemma_sum_step(es: Seq<Entry>, aux: Seq<Aux>, a: int, k: int)
    requires
        0 <= k,
        0 <= a,
    ensures
        sum_leaders(es, aux, a, k + 1) == sum_leaders(es, aux, a, k) + if exists|g: int|
            0 <= g < a && #[trigger] leads(es[k]@, aux, g) {
            1nat
        } else {
            0
        },
    decreases a,
{
    if a > 0 {
        lemma_sum_step(es, aux, a - 1, k);
        if leads(es[k]@, aux, a - 1) {
            assert forall|g: int| 0 <= g < a - 1 implies !#[trigger] leads(es[k]@, aux, g) by {};
        } else {
            if exists|g: int| 0 <= g < a && #[trigger] leads(es[k]@, aux, g) {
                let g = choose|g: int| 0 <= g < a && #[trigger] leads(es[k]@, aux, g);
                assert(g < a - 1);
            }
        }
    }
}

/// In a table whose entries pass their checks, the leaders of all the
/// oneofs, added up over the aux array, are all the leading members.
proof fn lemma_sum_is_count(es: Seq<Entry>, aux: Seq<Aux>, size: nat, k: int)
    requires
        0 <= k <= es.len(),
        forall|i: int| 0 <= i < es.len() ==> #[trigger] entry_error(es, i, aux, size) is None,
    ensures
        sum_leaders(es, aux, aux.len() as int, k) == count_leaders(es, k),
    decreases k,
{
    if k == 0 {
        lemma_sum_empty(es, aux, aux.len() as int);
    } else {
        let j = k - 1;
        lemma_sum_is_count(es, aux, size, j);
        lemma_sum_step(es, aux, aux.len() as int, j);
        assert(entry_error(es, j, aux, size) is None);
        let e = es[j]@;
        if e.kind == Kind::OneofLeader {
            let h = led_group(e, aux);
            assert(member_error(e, aux[e.aux as int]->Member_0@, aux) is None);
            assert(leads(e, aux, h));
        } else {
            assert forall|g: int| 0 <= g < aux.len() implies !#[trigger] leads(es[j]@, aux, g) by {};
        }
    }
}

/// No oneof has a leader among no entries.
proof fn lemma_sum_empty(es: Seq<Entry>, aux: Seq<Aux>, a: int)
    requires
        0 <= a,
    ensures
        sum_leaders(es, aux, a, 0) == 0,
    decreases a,
{
    if a > 0 {
        lemma_sum_empty(es, aux, a - 1);
    }
}

/// Some entry before `k` leads the oneof at `g` when the count is positive.
proof fn lemma_some_leader(es: Seq<Entry>, aux: Seq<Aux>, g: int, k: int)
    requires
        count_leaders_of(es, aux, g, k) > 0,
    ensures
        exists|i: int| 0 <= i < k && #[trigger] leads(es[i]@, aux, g),
    decreases k,
{
    if k > 0 && !leads(es[k - 1]@, aux, g) {
        lemma_some_leader(es, aux, g, k - 1);
    }
}

/// A oneof has at most one leader among entries with distinct numbers that
/// pass their checks, and only a oneof descriptor has any.
proof fn lemma_leaders_of_bound(es: Seq<Entry>, aux: Seq<Aux>, size: nat, g: int, k: int)
    requires
        0 <= k <= es.len(),
        0 <= g < aux.len(),
        numbers_increasing(es),
        forall|i: int| 0 <= i < es.len() ==> #[trigger] entry_error(es, i, aux, size) is None,
    ensures
        count_leaders_of(es, aux, g, k) <= if aux[g] is Group {
            1nat
        } else {
            0
        },
    decreases k,
{
    if k > 0 {
        let j = k - 1;
        lemma_leaders_of_bound(es, aux, size, g, j);
        if leads(es[j]@, aux, g) {
            assert(entry_error(es, j, aux, size) is None);
            let e = es[j]@;
            assert(member_error(e, aux[e.aux as int]->Member_0@, aux) is None);
            if count_leaders_of(es, aux, g, j) > 0 {
                lemma_some_leader(es, aux, g, j);
                let i = choose|i: int| 0 <= i < j && #[trigger] leads(es[i]@, aux, g);
                assert(entry_error(es, i, aux, size) is None);
                let f = es[i]@;
                assert(member_error(f, aux[f.aux as int]->Member_0@, aux) is None);
                assert(es[i]@.number() < es[j]@.number());
            }
        }
    }
}

/// Sums of bounded terms that reach the sum of their bounds meet each bound.
proof fn lemma_sum_meets_bounds(es: Seq<Entry>, aux: Seq<Aux>, n: int, a: int)
    requires
        0 <= a <= aux.len(),
        forall|g: int|
            0 <= g < a ==> #[trigger] count_leaders_of(es, aux, g, n) <= if aux[g] is Group {
                1nat
            } else {
                0
            },
        sum_leaders(es, aux, a, n) == groups_below(aux, a),
    ensures
        forall|g: int|
            0 <= g < a && aux[g] is Group ==> #[trigger] count_leaders_of(es, aux, g, n) == 1,
    decreases a,
{
    if a > 0 {
        lemma_sum_below_bounds(es, aux, n, a - 1);
        lemma_sum_meets_bounds(es, aux, n, a - 1);
    }
}

/// Sums of bounded terms are below the sum of their bounds.
proof fn lemma_sum_below_bounds(es: Seq<Entry>, aux: Seq<Aux>, n: int, a: int)
    requires
        0 <= a <= aux.len(),
        forall|g: int|
            0 <= g < a ==> #[trigger] count_leaders_of(es, aux, g, n) <= if aux[g] is Group {
                1nat
            } else {
                0
            },
    ensures
        sum_leaders(es, aux, a, n) <= groups_below(aux, a),
    decreases a,
{
    if a > 0 {
        lemma_sum_below_bounds(es, aux, n, a - 1);
    }
}

/// Counting the oneof descriptors one way is counting them the other.
proof fn lemma_groups_below(aux: Seq<Aux>, a: int)
    requires
        0 <= a <= aux.len(),
    ensures
        groups_below(aux, a) == count_groups(aux, a),
    decreases a,
{
    if a > 0 {
        lemma_groups_below(aux, a - 1);
    }
}

/// A table that passes the checks of [`Table::new`](super::message::Table::new)
/// is well formed: its entries are in strictly increasing number order, every
/// dense slot is empty or names the entry with its number, every entry
/// numbered below the dense range has its slot, and every entry's descriptor
/// is of the variant its kind needs.
pub proof fn lemma_accepted_table_well_formed(
    abi: u32,
    es: Seq<Entry>,
    dense: Seq<u8>,
    aux: Seq<Aux>,
    unknown: Option<usize>,
    size: nat,
    unknown_size: nat,
    unknown_align: nat,
)
    requires
        table_error(abi, es, dense, aux, unknown, size, unknown_size, unknown_align) is None,
    ensures
        well_formed(es, dense, aux),
{
    lemma_checks_give_well_formed(es, dense, aux, size);
}

/// In a table that passes the checks of
/// [`Table::new`](super::message::Table::new), every oneof descriptor in the
/// aux array is led by exactly one entry, so the member that is set is
/// sized and written once.
pub proof fn lemma_one_leader_per_oneof(
    abi: u32,
    es: Seq<Entry>,
    dense: Seq<u8>,
    aux: Seq<Aux>,
    unknown: Option<usize>,
    size: nat,
    unknown_size: nat,
    unknown_align: nat,
    g: int,
)
    requires
        table_error(abi, es, dense, aux, unknown, size, unknown_size, unknown_align) is None,
        0 <= g < aux.len(),
        aux[g] is Group,
    ensures
        count_leaders_of(es, aux, g, es.len() as int) == 1,
{
    let n = es.len() as int;
    let a = aux.len() as int;
    lemma_checks_give_well_formed(es, dense, aux, size);
    lemma_entries_pass(es, aux, size, n);
    assert forall|h: int|
        0 <= h < a implies #[trigger] count_leaders_of(es, aux, h, n) <= if aux[h] is Group {
        1nat
    } else {
        0
    } by {
        lemma_leaders_of_bound(es, aux, size, h, n);
    };
    lemma_sum_is_count(es, aux, size, n);
    lemma_groups_below(aux, a);
    lemma_sum_meets_bounds(es, aux, n, a);
}

/// The first of the entries from index `k` on numbered `n`, as
/// `iter().find(|e| e.number() == n)` gives it.
pub open spec fn first_numbered(es: Seq<Entry>, n: nat, k: int) -> Option<Entry>
    decreases es.len() - k,
{
    if k < 0 || k >= es.len() {
        None
    } else if es[k]@.number() == n {
        Some(es[k])
    } else {
        first_numbered(es, n, k + 1)
    }
}

/// No entry before `k` is numbered `n`, so searching from `k` is searching
/// from the start.
proof fn lemma_first_from(es: Seq<Entry>, n: nat, k: int)
    requires
        0 <= k <= es.len(),
        numbers_increasing(es),
        forall|i: int| 0 <= i < k ==> #[trigger] es[i]@.number() != n,
    ensures
        first_numbered(es, n, k) == lookup(es, n),
    decreases es.len() - k,
{
    if k < es.len() {
        if es[k]@.number() == n {
            let j = choose|j: int| 0 <= j < es.len() && #[trigger] es[j]@.number() == n;
            assert(es[j]@.number() == n);
            if j < k {
                assert(es[j]@.number() != n);
            } else if k < j {
                assert(es[k]@.number() < es[j]@.number());
            }
        } else {
            lemma_first_from(es, n, k + 1);
        }
    } else {
        assert(!(exists|i: int| 0 <= i < es.len() && #[trigger] es[i]@.number() == n));
    }
}

/// In entries of strictly increasing numbers, the entry that `find` gives
/// for a number is the first, and only, entry with that number: what a
/// linear search from the start finds.
pub proof fn lemma_find_is_first(es: Seq<Entry>, n: nat)
    requires
        numbers_increasing(es),
    ensures
        lookup(es, n) == first_numbered(es, n, 0),
        lookup(es, n) matches Some(e) ==> forall|i: int|
            0 <= i < es.len() && #[trigger] es[i]@.number() == n ==> es[i] == e,
{
    lemma_first_from(es, n, 0);
    if lookup(es, n) is Some {
        let j = choose|j: int| 0 <= j < es.len() && #[trigger] es[j]@.number() == n;
        assert forall|i: int| 0 <= i < es.len() && #[trigger] es[i]@.number() == n implies es[i]
            == lookup(es, n)->0 by {
            if i < j {
                assert(es[i]@.number() < es[j]@.number());
            } else if j < i {
                assert(es[j]@.number() < es[i]@.number());
            }
        };
    }
}

} // verus!
