//! What holds of the totals, the clients and the report of a window.

use vstd::prelude::*;
use crate::store::{counts_only_when_closed, is_closed_row, ConnectionRowView};
use crate::traffic::{
    combined, counts_for, first_row, in_window, is_client_of, is_entry_of, is_grouping,
    is_report, lists_client, total_from_to, total_to_from, ClientTrafficView,
};

verus! {

/// `first_row` is the least place of a row of the client in the window.
pub proof fn lemma_first_row(
    rows: Seq<ConnectionRowView>,
    client: Option<Seq<char>>,
    start: i64,
    end: i64,
)
    ensures
        0 <= first_row(rows, client, start, end) <= rows.len(),
        first_row(rows, client, start, end) < rows.len() <==> is_client_of(
            rows,
            client,
            start,
            end,
        ),
        first_row(rows, client, start, end) < rows.len() ==> counts_for(
            rows[first_row(rows, client, start, end)],
            client,
            start,
            end,
        ),
        forall|k: int|
            0 <= k < first_row(rows, client, start, end) ==> !counts_for(
                #[trigger] rows[k],
                client,
                start,
                end,
            ),
    decreases rows.len(),
{
    if rows.len() > 0 {
        let init = rows.drop_last();
        let at = first_row(rows, client, start, end);
        lemma_first_row(init, client, start, end);
        assert forall|k: int| 0 <= k < at implies !counts_for(
            #[trigger] rows[k],
            client,
            start,
            end,
        ) by {
            if k < init.len() {
                assert(rows[k] == init[k]);
            }
        }
        if at < rows.len() {
            if at < init.len() {
                assert(rows[at] == init[at]);
            }
            assert(counts_for(rows[at], client, start, end));
        }
        if is_client_of(rows, client, start, end) && at >= rows.len() {
            let k = choose|k: int|
                0 <= k < rows.len() && counts_for(#[trigger] rows[k], client, start, end);
            assert(false);
        }
    } else {
        assert(!is_client_of(rows, client, start, end));
    }
}

/// A client without a row in the window has no bytes there.
pub proof fn lemma_no_row_no_bytes(
    rows: Seq<ConnectionRowView>,
    client: Option<Seq<char>>,
    start: i64,
    end: i64,
)
    requires
        !is_client_of(rows, client, start, end),
    ensures
        total_from_to(rows, client, start, end) == 0,
        total_to_from(rows, client, start, end) == 0,
    decreases rows.len(),
{
    if rows.len() > 0 {
        let init = rows.drop_last();
        assert(!counts_for(rows[rows.len() - 1], client, start, end));
        assert(!is_client_of(init, client, start, end)) by {
            if is_client_of(init, client, start, end) {
                let k = choose|k: int|
                    0 <= k < init.len() && counts_for(#[trigger] init[k], client, start, end);
                assert(rows[k] == init[k]);
            }
        }
        lemma_no_row_no_bytes(init, client, start, end);
    }
}

/// The totals over the first `n` rows never exceed the totals over all.
pub proof fn lemma_totals_grow(
    rows: Seq<ConnectionRowView>,
    n: int,
    client: Option<Seq<char>>,
    start: i64,
    end: i64,
)
    requires
        0 <= n <= rows.len(),
    ensures
        total_from_to(rows.take(n), client, start, end) <= total_from_to(rows, client, start, end),
        total_to_from(rows.take(n), client, start, end) <= total_to_from(rows, client, start, end),
    decreases rows.len() - n,
{
    if n == rows.len() {
        assert(rows.take(n) =~= rows);
    } else {
        lemma_totals_grow(rows, n + 1, client, start, end);
        assert(rows.take(n + 1).drop_last() =~= rows.take(n));
    }
}

/// The bytes read from `client` over the close rows of the window.
pub open spec fn closed_total_from_to(
    rows: Seq<ConnectionRowView>,
    client: Option<Seq<char>>,
    start: i64,
    end: i64,
) -> nat
    decreases rows.len(),
{
    if rows.len() == 0 {
        0
    } else {
        closed_total_from_to(rows.drop_last(), client, start, end) + if counts_for(
            rows.last(),
            client,
            start,
            end,
        ) && is_closed_row(rows.last()) {
            rows.last().bytes_from_to
        } else {
            0
        }
    }
}

/// The bytes read for `client` from the remote targets over the close rows
/// of the window.
pub open spec fn closed_total_to_from(
    rows: Seq<ConnectionRowView>,
    client: Option<Seq<char>>,
    start: i64,
    end: i64,
) -> nat
    decreases rows.len(),
{
    if rows.len() == 0 {
        0
    } else {
        closed_total_to_from(rows.drop_last(), client, start, end) + if counts_for(
            rows.last(),
            client,
            start,
            end,
        ) && is_closed_row(rows.last()) {
            rows.last().bytes_to_from
        } else {
            0
        }
    }
}

/// Where only close rows carry byte counts, as in every row made from an
/// event, the totals of a client are the sums over its close rows in the
/// window.
pub proof fn law_totals_are_sums_of_closed_rows(
    rows: Seq<ConnectionRowView>,
    client: Option<Seq<char>>,
    start: i64,
    end: i64,
)
    requires
        forall|k: int| 0 <= k < rows.len() ==> counts_only_when_closed(#[trigger] rows[k]),
    ensures
        total_from_to(rows, client, start, end) == closed_total_from_to(rows, client, start, end),
        total_to_from(rows, client, start, end) == closed_total_to_from(rows, client, start, end),
    decreases rows.len(),
{
    if rows.len() > 0 {
        let init = rows.drop_last();
        assert forall|k: int| 0 <= k < init.len() implies counts_only_when_closed(
            #[trigger] init[k],
        ) by {
            assert(init[k] == rows[k]);
        }
        law_totals_are_sums_of_closed_rows(init, client, start, end);
        assert(counts_only_when_closed(rows[rows.len() - 1]));
    }
}

/// A row outside the window changes neither the totals nor the clients of
/// the window, wherever it stands among the rows.
pub proof fn law_rows_outside_the_window_do_not_count(
    rows: Seq<ConnectionRowView>,
    at: int,
    client: Option<Seq<char>>,
    start: i64,
    end: i64,
)
    requires
        0 <= at < rows.len(),
        !in_window(rows[at], start, end),
    ensures
        total_from_to(rows.remove(at), client, start, end) == total_from_to(
            rows,
            client,
            start,
            end,
        ),
        total_to_from(rows.remove(at), client, start, end) == total_to_from(
            rows,
            client,
            start,
            end,
        ),
        is_client_of(rows.remove(at), client, start, end) == is_client_of(rows, client, start, end),
    decreases rows.len(),
{
    let fewer = rows.remove(at);
    if at == rows.len() - 1 {
        assert(fewer =~= rows.drop_last());
    } else {
        let init = rows.drop_last();
        law_rows_outside_the_window_do_not_count(init, at, client, start, end);
        assert(fewer.drop_last() =~= init.remove(at));
        assert(fewer.last() == rows.last());
    }
    if is_client_of(rows, client, start, end) {
        let k = choose|k: int|
            0 <= k < rows.len() && counts_for(#[trigger] rows[k], client, start, end);
        if k < at {
            assert(fewer[k] == rows[k]);
        } else {
            assert(fewer[k - 1] == rows[k]);
        }
    }
    if is_client_of(fewer, client, start, end) {
        let k = choose|k: int|
            0 <= k < fewer.len() && counts_for(#[trigger] fewer[k], client, start, end);
        if k < at {
            assert(rows[k] == fewer[k]);
        } else {
            assert(rows[k + 1] == fewer[k]);
        }
    }
}

/// The report is a function of the rows and the window alone: there is at
/// most one report for them.
pub proof fn law_report_is_determined(
    a: Seq<ClientTrafficView>,
    b: Seq<ClientTrafficView>,
    rows: Seq<ConnectionRowView>,
    start: i64,
    end: i64,
)
    requires
        is_report(a, rows, start, end),
        is_report(b, rows, start, end),
    ensures
        a == b,
{
    lemma_reports_agree_so_far(a, b, rows, start, end, a.len() as int);
    lemma_reports_agree_so_far(b, a, rows, start, end, b.len() as int);
    assert(a =~= b);
}

/// Two reports for the same rows and window agree in their first `n` places.
proof fn lemma_reports_agree_so_far(
    a: Seq<ClientTrafficView>,
    b: Seq<ClientTrafficView>,
    rows: Seq<ConnectionRowView>,
    start: i64,
    end: i64,
    n: int,
)
    requires
        is_report(a, rows, start, end),
        is_report(b, rows, start, end),
        0 <= n <= a.len(),
    ensures
        n <= b.len(),
        forall|i: int| 0 <= i < n ==> #[trigger] a[i] == b[i],
    decreases n,
{
    if n > 0 {
        let i = n - 1;
        lemma_reports_agree_so_far(a, b, rows, start, end, i);
        lemma_groupings_agree(a, b, rows, start, end);
        lemma_groupings_agree(b, a, rows, start, end);
        assert(b.contains(a[i]));
        let j = choose|j: int| 0 <= j < b.len() && b[j] == a[i];
        if j < i {
            assert(a[j] == b[j]);
            assert(a[j].client_addr != a[i].client_addr);
        } else if j > i {
            assert(a.contains(b[i]));
            let k = choose|k: int| 0 <= k < a.len() && a[k] == b[i];
            if k < i {
                assert(a[k] == b[k]);
                assert(b[k].client_addr != b[i].client_addr);
            } else if k == i {
                assert(b[i].client_addr != b[j].client_addr);
            } else {
                // `a` lists `a[i]` before `a[k]`, and `b` lists them the other
                // way round.
                assert(combined(a[i]) >= combined(a[k]));
                assert(combined(b[i]) >= combined(b[j]));
            }
        }
    }
}

proof fn lemma_groupings_agree(
    a: Seq<ClientTrafficView>,
    b: Seq<ClientTrafficView>,
    rows: Seq<ConnectionRowView>,
    start: i64,
    end: i64,
)
    requires
        is_grouping(a, rows, start, end),
        is_grouping(b, rows, start, end),
    ensures
        forall|i: int| 0 <= i < a.len() ==> b.contains(#[trigger] a[i]),
{
    assert forall|i: int| 0 <= i < a.len() implies b.contains(#[trigger] a[i]) by {
        assert(is_entry_of(a[i], rows, start, end));
        let k = choose|k: int|
            0 <= k < rows.len() && counts_for(#[trigger] rows[k], a[i].client_addr, start, end);
        assert(lists_client(b, rows[k].client_addr));
        let j = choose|j: int|
            0 <= j < b.len() && (#[trigger] b[j]).client_addr == rows[k].client_addr;
        assert(is_entry_of(b[j], rows, start, end));
        assert(b[j] == a[i]);
    }
}

} // verus!
