//! Listing the entries of a report by their combined bytes.

use vstd::prelude::*;
use crate::traffic::{
    combined, largest_first, one_entry_per_client, same_entries, traffic_views, ClientTraffic,
    ClientTrafficView,
};

verus! {

/// The bytes of an entry in both directions together.
fn combined_bytes(entry: &ClientTraffic) -> (sum: u128)
    ensures
        sum == combined(entry@),
{
    entry.bytes_from_to as u128 + entry.bytes_to_from as u128
}

/// Whether `entry` is one of the entries of `given` from place `from` on.
pub open spec fn listed_from(given: Seq<ClientTrafficView>, from: int, entry: ClientTrafficView) -> bool {
    exists|x: int| from <= x < given.len() && #[trigger] given[x] == entry
}

/// Whether `sorted` holds the entries of `given` from place `from` on, each
/// once, largest first.
pub open spec fn is_sorted_part(
    given: Seq<ClientTrafficView>,
    from: int,
    sorted: Seq<ClientTrafficView>,
) -> bool {
    &&& forall|i: int| 0 <= i < sorted.len() ==> listed_from(given, from, #[trigger] sorted[i])
    &&& forall|x: int| from <= x < given.len() ==> sorted.contains(#[trigger] given[x])
    &&& one_entry_per_client(sorted)
    &&& largest_first(sorted)
}

/// Whether the entries stand in the order of the rank of their clients.
pub open spec fn in_order_of_rank(
    report: Seq<ClientTrafficView>,
    rank: spec_fn(Option<Seq<char>>) -> int,
) -> bool {
    forall|i: int, j: int|
        0 <= i < j < report.len() ==> rank((#[trigger] report[i]).client_addr) < rank(
            (#[trigger] report[j]).client_addr,
        )
}

/// Whether entries with the same combined bytes stand in the order of the
/// rank of their clients.
pub open spec fn ties_in_order_of_rank(
    report: Seq<ClientTrafficView>,
    rank: spec_fn(Option<Seq<char>>) -> int,
) -> bool {
    forall|i: int, j: int|
        0 <= i < j < report.len() && combined(#[trigger] report[i]) == combined(
            #[trigger] report[j],
        ) ==> rank(report[i].client_addr) < rank(report[j].client_addr)
}

/// The entry before the sorted part differs in its client from every entry
/// of that part.
proof fn lemma_next_entry_is_new(
    given: Seq<ClientTrafficView>,
    from: int,
    sorted: Seq<ClientTrafficView>,
)
    requires
        1 <= from <= given.len(),
        one_entry_per_client(given),
        is_sorted_part(given, from, sorted),
    ensures
        forall|i: int|
            0 <= i < sorted.len() ==> (#[trigger] sorted[i]).client_addr != given[from
                - 1].client_addr,
{
    assert forall|i: int| 0 <= i < sorted.len() implies (#[trigger] sorted[i]).client_addr
        != given[from - 1].client_addr by {
        assert(listed_from(given, from, sorted[i]));
        let x = choose|x: int| from <= x < given.len() && #[trigger] given[x] == sorted[i];
        assert(given[from - 1].client_addr != given[x].client_addr);
    }
}

/// Putting the entry before the sorted part into it, behind the entries
/// that are larger and before those that are not, gives the sorted part
/// from that entry on.
proof fn lemma_insert_entry(
    given: Seq<ClientTrafficView>,
    from: int,
    sorted: Seq<ClientTrafficView>,
    at: int,
    rank: spec_fn(Option<Seq<char>>) -> int,
)
    requires
        1 <= from <= given.len(),
        one_entry_per_client(given),
        in_order_of_rank(given, rank),
        is_sorted_part(given, from, sorted),
        ties_in_order_of_rank(sorted, rank),
        0 <= at <= sorted.len(),
        forall|i: int| 0 <= i < at ==> combined(#[trigger] sorted[i]) > combined(given[from - 1]),
        at < sorted.len() ==> combined(sorted[at]) <= combined(given[from - 1]),
    ensures
        is_sorted_part(given, from - 1, sorted.insert(at, given[from - 1])),
        ties_in_order_of_rank(sorted.insert(at, given[from - 1]), rank),
{
    let e = given[from - 1];
    let after = sorted.insert(at, e);
    lemma_next_entry_is_new(given, from, sorted);
    assert(after.len() == sorted.len() + 1);
    assert(after[at] == e);
    assert forall|i: int| 0 <= i < at implies #[trigger] after[i] == sorted[i] by {}
    assert forall|i: int| at < i < after.len() implies #[trigger] after[i] == sorted[i - 1] by {}
    assert forall|i: int| 0 <= i < after.len() implies listed_from(
        given,
        from - 1,
        #[trigger] after[i],
    ) by {
        if i == at {
            assert(given[from - 1] == e);
        } else {
            let old_i = if i < at {
                i
            } else {
                i - 1
            };
            assert(listed_from(given, from, sorted[old_i]));
            let x = choose|x: int| from <= x < given.len() && #[trigger] given[x] == sorted[old_i];
            assert(given[x] == after[i]);
        }
    }
    assert forall|x: int| from - 1 <= x < given.len() implies after.contains(
        #[trigger] given[x],
    ) by {
        if x == from - 1 {
            assert(after[at] == given[x]);
        } else {
            assert(sorted.contains(given[x]));
            let i = choose|i: int| 0 <= i < sorted.len() && sorted[i] == given[x];
            if i < at {
                assert(after[i] == given[x]);
            } else {
                assert(after[i + 1] == given[x]);
            }
        }
    }
    assert forall|i: int, j: int| 0 <= i < j < after.len() implies (#[trigger] after[i]).client_addr
        != (#[trigger] after[j]).client_addr by {
        let old_i = if i < at {
            i
        } else {
            i - 1
        };
        let old_j = if j < at {
            j
        } else {
            j - 1
        };
        if i == at {
            assert(after[j] == sorted[old_j]);
        } else if j == at {
            assert(after[i] == sorted[old_i]);
        } else {
            assert(after[i] == sorted[old_i]);
            assert(after[j] == sorted[old_j]);
            assert(sorted[old_i].client_addr != sorted[old_j].client_addr);
        }
    }
    assert forall|i: int, j: int| 0 <= i < j < after.len() implies combined(#[trigger] after[i])
        >= combined(#[trigger] after[j]) by {
        let old_i = if i < at {
            i
        } else {
            i - 1
        };
        let old_j = if j < at {
            j
        } else {
            j - 1
        };
        if i == at {
            assert(after[j] == sorted[old_j]);
            if old_j > at {
                assert(combined(sorted[at]) >= combined(sorted[old_j]));
            }
        } else if j == at {
            assert(after[i] == sorted[old_i]);
        } else {
            assert(after[i] == sorted[old_i]);
            assert(after[j] == sorted[old_j]);
            assert(combined(sorted[old_i]) >= combined(sorted[old_j]));
        }
    }
    assert forall|i: int, j: int|
        0 <= i < j < after.len() && combined(#[trigger] after[i]) == combined(
            #[trigger] after[j],
        ) implies rank(after[i].client_addr) < rank(after[j].client_addr) by {
        let old_i = if i < at {
            i
        } else {
            i - 1
        };
        let old_j = if j < at {
            j
        } else {
            j - 1
        };
        if i == at {
            assert(after[j] == sorted[old_j]);
            assert(listed_from(given, from, sorted[old_j]));
            let x = choose|x: int| from <= x < given.len() && #[trigger] given[x] == sorted[old_j];
            assert(rank(given[from - 1].client_addr) < rank(given[x].client_addr));
        } else if j == at {
            assert(after[i] == sorted[old_i]);
        } else {
            assert(after[i] == sorted[old_i]);
            assert(after[j] == sorted[old_j]);
        }
    }
}

/// The place in a sorted report behind the entries that are larger than
/// `weight`.
fn place_for(sorted: &Vec<ClientTraffic>, weight: u128) -> (at: usize)
    ensures
        at <= sorted@.len(),
        forall|i: int| 0 <= i < at ==> combined(#[trigger] traffic_views(sorted@)[i]) > weight,
        at < sorted@.len() ==> combined(traffic_views(sorted@)[at as int]) <= weight,
{
    let mut at: usize = 0;
    while at < sorted.len() && combined_bytes(&sorted[at]) > weight
        invariant
            at <= sorted@.len(),
            forall|i: int| 0 <= i < at ==> combined(#[trigger] traffic_views(sorted@)[i]) > weight,
        decreases sorted@.len() - at,
    {
        assert(traffic_views(sorted@)[at as int] == sorted@[at as int]@);
        at += 1;
    }
    proof {
        if at < sorted@.len() {
            assert(traffic_views(sorted@)[at as int] == sorted@[at as int]@);
        }
    }
    at
}

/// Lists the entries by their combined bytes, largest first. Entries with
/// the same combined bytes keep their order, which is that of `rank`.
pub(crate) fn sort_largest_first(
    groups: Vec<ClientTraffic>,
    Ghost(rank): Ghost<spec_fn(Option<Seq<char>>) -> int>,
) -> (sorted: Vec<ClientTraffic>)
    requires
        one_entry_per_client(traffic_views(groups@)),
        in_order_of_rank(traffic_views(groups@), rank),
    ensures
        same_entries(traffic_views(groups@), traffic_views(sorted@)),
        largest_first(traffic_views(sorted@)),
        ties_in_order_of_rank(traffic_views(sorted@), rank),
{
    let ghost given = traffic_views(groups@);
    let mut left = groups;
    let mut sorted: Vec<ClientTraffic> = Vec::new();
    while left.len() > 0
        invariant
            left@.len() <= given.len(),
            traffic_views(left@) == given.take(left@.len() as int),
            one_entry_per_client(given),
            in_order_of_rank(given, rank),
            is_sorted_part(given, left@.len() as int, traffic_views(sorted@)),
            ties_in_order_of_rank(traffic_views(sorted@), rank),
        decreases left@.len(),
    {
        let ghost before = traffic_views(sorted@);
        let ghost from = left@.len() as int;
        let entry = left.pop().unwrap();
        proof {
            assert(traffic_views(left@) =~= given.take(from - 1));
            assert(given.take(from)[from - 1] == entry@);
        }
        let at = place_for(&sorted, combined_bytes(&entry));
        sorted.insert(at, entry);
        proof {
            assert(traffic_views(sorted@) =~= before.insert(at as int, given[from - 1]));
            lemma_insert_entry(given, from, before, at as int, rank);
        }
    }
    proof {
        let listed = traffic_views(sorted@);
        assert forall|i: int| 0 <= i < listed.len() implies given.contains(
            #[trigger] listed[i],
        ) by {
            assert(listed_from(given, 0, listed[i]));
        }
    }
    sorted
}

} // verus!
