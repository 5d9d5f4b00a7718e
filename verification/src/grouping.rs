//! Grouping the rows of a window by client.

use vstd::prelude::*;
use crate::events::{copy_opt_text, opt_text};
use crate::store::{row_views, ConnectionRow, ConnectionRowView};
use crate::traffic::{
    counts_for, first_row, in_order_of_arrival, in_window, is_client_of, is_entry_of,
    is_grouping, lists_client, some_total_too_large, total_from_to, total_to_from,
    traffic_views, ClientTraffic, ClientTrafficView, QueryError,
};
use crate::traffic_laws::{lemma_first_row, lemma_no_row_no_bytes, lemma_totals_grow};

verus! {

/// Whether two optional strings hold the same text.
fn same_client(a: &Option<String>, b: &Option<String>) -> (same: bool)
    ensures
        same == (opt_text(*a) == opt_text(*b)),
{
    match a {
        Some(x) => match b {
            Some(y) => *x == *y,
            None => false,
        },
        None => match b {
            Some(_) => false,
            None => true,
        },
    }
}

/// The place of `client` in a report.
fn find_client(report: &Vec<ClientTraffic>, client: &Option<String>) -> (found: Option<usize>)
    ensures
        match found {
            Some(i) => i < report@.len() && report@[i as int]@.client_addr == opt_text(*client),
            None => !lists_client(traffic_views(report@), opt_text(*client)),
        },
{
    let mut i: usize = 0;
    while i < report.len()
        invariant
            i <= report@.len(),
            forall|k: int| 0 <= k < i ==> report@[k]@.client_addr != opt_text(*client),
        decreases report@.len() - i,
    {
        if same_client(&report[i].client_addr, client) {
            return Some(i);
        }
        i += 1;
    }
    assert(!lists_client(traffic_views(report@), opt_text(*client))) by {
        if lists_client(traffic_views(report@), opt_text(*client)) {
            let k = choose|k: int|
                0 <= k < traffic_views(report@).len() && (#[trigger] traffic_views(
                    report@,
                )[k]).client_addr == opt_text(*client);
            assert(traffic_views(report@)[k] == report@[k]@);
        }
    }
    None
}

/// What one more row adds to the totals and to the clients of a window.
proof fn lemma_one_more_row(
    rows: Seq<ConnectionRowView>,
    r: ConnectionRowView,
    client: Option<Seq<char>>,
    start: i64,
    end: i64,
)
    ensures
        total_from_to(rows.push(r), client, start, end) == total_from_to(rows, client, start, end)
            + if counts_for(r, client, start, end) {
            r.bytes_from_to
        } else {
            0
        },
        total_to_from(rows.push(r), client, start, end) == total_to_from(rows, client, start, end)
            + if counts_for(r, client, start, end) {
            r.bytes_to_from
        } else {
            0
        },
        is_client_of(rows.push(r), client, start, end) <==> is_client_of(rows, client, start, end)
            || counts_for(r, client, start, end),
        first_row(rows.push(r), client, start, end) == if is_client_of(rows, client, start, end)
            || counts_for(r, client, start, end) {
            first_row(rows, client, start, end)
        } else {
            rows.len() as int + 1
        },
{
    let more = rows.push(r);
    assert(more.drop_last() =~= rows);
    lemma_first_row(rows, client, start, end);
    if is_client_of(rows, client, start, end) {
        let k = choose|k: int|
            0 <= k < rows.len() && counts_for(#[trigger] rows[k], client, start, end);
        assert(more[k] == rows[k]);
    }
    if counts_for(r, client, start, end) {
        assert(more[rows.len() as int] == r);
    }
    if is_client_of(more, client, start, end) {
        let k = choose|k: int|
            0 <= k < more.len() && counts_for(#[trigger] more[k], client, start, end);
        if k < rows.len() {
            assert(rows[k] == more[k]);
        }
    }
}

/// A row outside the window leaves a grouping as it is.
proof fn lemma_row_outside(
    report: Seq<ClientTrafficView>,
    rows: Seq<ConnectionRowView>,
    r: ConnectionRowView,
    start: i64,
    end: i64,
)
    requires
        is_grouping(report, rows, start, end),
        !in_window(r, start, end),
    ensures
        is_grouping(report, rows.push(r), start, end),
{
    let more = rows.push(r);
    assert forall|i: int| 0 <= i < report.len() implies is_entry_of(
        #[trigger] report[i],
        more,
        start,
        end,
    ) by {
        lemma_one_more_row(rows, r, report[i].client_addr, start, end);
    }
    assert forall|k: int|
        0 <= k < more.len() && in_window(#[trigger] more[k], start, end) implies lists_client(
        report,
        more[k].client_addr,
    ) by {
        assert(more[k] == rows[k]);
    }
}

/// A row of a client that has an entry adds its bytes to that entry.
proof fn lemma_row_of_listed_client(
    report: Seq<ClientTrafficView>,
    rows: Seq<ConnectionRowView>,
    r: ConnectionRowView,
    at: int,
    start: i64,
    end: i64,
)
    requires
        is_grouping(report, rows, start, end),
        in_window(r, start, end),
        0 <= at < report.len(),
        report[at].client_addr == r.client_addr,
    ensures
        is_grouping(
            report.update(
                at,
                ClientTrafficView {
                    client_addr: report[at].client_addr,
                    bytes_from_to: report[at].bytes_from_to + r.bytes_from_to,
                    bytes_to_from: report[at].bytes_to_from + r.bytes_to_from,
                },
            ),
            rows.push(r),
            start,
            end,
        ),
{
    let more = rows.push(r);
    let entry = ClientTrafficView {
        client_addr: report[at].client_addr,
        bytes_from_to: report[at].bytes_from_to + r.bytes_from_to,
        bytes_to_from: report[at].bytes_to_from + r.bytes_to_from,
    };
    let next = report.update(at, entry);
    assert forall|i: int| 0 <= i < next.len() implies is_entry_of(
        #[trigger] next[i],
        more,
        start,
        end,
    ) by {
        lemma_one_more_row(rows, r, report[i].client_addr, start, end);
        assert(is_entry_of(report[i], rows, start, end));
        if i != at {
            assert(report[i].client_addr != report[at].client_addr) by {
                if i < at {
                    assert(report[i].client_addr != report[at].client_addr);
                } else {
                    assert(report[at].client_addr != report[i].client_addr);
                }
            }
        }
    }
    assert forall|k: int|
        0 <= k < more.len() && in_window(#[trigger] more[k], start, end) implies lists_client(
        next,
        more[k].client_addr,
    ) by {
        if k < rows.len() {
            assert(more[k] == rows[k]);
            let i = choose|i: int|
                0 <= i < report.len() && (#[trigger] report[i]).client_addr == rows[k].client_addr;
            assert(next[i].client_addr == report[i].client_addr);
        } else {
            assert(next[at].client_addr == r.client_addr);
        }
    }
    assert forall|i: int, j: int| 0 <= i < j < next.len() implies (#[trigger] next[i]).client_addr
        != (#[trigger] next[j]).client_addr by {
        assert(next[i].client_addr == report[i].client_addr);
        assert(next[j].client_addr == report[j].client_addr);
    }
}

/// A row of a client that has no entry yet starts one with its bytes.
proof fn lemma_row_of_new_client(
    report: Seq<ClientTrafficView>,
    rows: Seq<ConnectionRowView>,
    r: ConnectionRowView,
    start: i64,
    end: i64,
)
    requires
        is_grouping(report, rows, start, end),
        in_window(r, start, end),
        !lists_client(report, r.client_addr),
    ensures
        is_grouping(
            report.push(
                ClientTrafficView {
                    client_addr: r.client_addr,
                    bytes_from_to: r.bytes_from_to,
                    bytes_to_from: r.bytes_to_from,
                },
            ),
            rows.push(r),
            start,
            end,
        ),
{
    let more = rows.push(r);
    let entry = ClientTrafficView {
        client_addr: r.client_addr,
        bytes_from_to: r.bytes_from_to,
        bytes_to_from: r.bytes_to_from,
    };
    let next = report.push(entry);
    assert(!is_client_of(rows, r.client_addr, start, end)) by {
        if is_client_of(rows, r.client_addr, start, end) {
            let k = choose|k: int|
                0 <= k < rows.len() && counts_for(#[trigger] rows[k], r.client_addr, start, end);
            assert(lists_client(report, rows[k].client_addr));
        }
    }
    lemma_no_row_no_bytes(rows, r.client_addr, start, end);
    assert forall|i: int| 0 <= i < next.len() implies is_entry_of(
        #[trigger] next[i],
        more,
        start,
        end,
    ) by {
        lemma_one_more_row(rows, r, next[i].client_addr, start, end);
        if i < report.len() {
            assert(next[i] == report[i]);
            assert(is_entry_of(report[i], rows, start, end));
            assert(report[i].client_addr != r.client_addr);
        }
    }
    assert forall|k: int|
        0 <= k < more.len() && in_window(#[trigger] more[k], start, end) implies lists_client(
        next,
        more[k].client_addr,
    ) by {
        if k < rows.len() {
            assert(more[k] == rows[k]);
            let i = choose|i: int|
                0 <= i < report.len() && (#[trigger] report[i]).client_addr == rows[k].client_addr;
            assert(next[i] == report[i]);
        } else {
            assert(next[report.len() as int] == entry);
        }
    }
    assert forall|i: int, j: int| 0 <= i < j < next.len() implies (#[trigger] next[i]).client_addr
        != (#[trigger] next[j]).client_addr by {
        assert(next[i] == report[i]);
        if j < report.len() {
            assert(next[j] == report[j]);
        }
    }
}

/// One more row keeps the entries in the order of arrival, whether it
/// leaves the clients as they are or adds its own client at the end.
proof fn lemma_arrival_order_kept(
    report: Seq<ClientTrafficView>,
    next: Seq<ClientTrafficView>,
    rows: Seq<ConnectionRowView>,
    r: ConnectionRowView,
    start: i64,
    end: i64,
)
    requires
        is_grouping(report, rows, start, end),
        in_order_of_arrival(report, rows, start, end),
        report.len() <= next.len() <= report.len() + 1,
        forall|i: int|
            0 <= i < report.len() ==> (#[trigger] next[i]).client_addr == report[i].client_addr,
        next.len() > report.len() ==> next.last().client_addr == r.client_addr && in_window(
            r,
            start,
            end,
        ) && !lists_client(report, r.client_addr),
    ensures
        in_order_of_arrival(next, rows.push(r), start, end),
{
    let more = rows.push(r);
    assert forall|i: int, j: int| 0 <= i < j < next.len() implies first_row(
        more,
        (#[trigger] next[i]).client_addr,
        start,
        end,
    ) < first_row(more, (#[trigger] next[j]).client_addr, start, end) by {
        lemma_one_more_row(rows, r, next[i].client_addr, start, end);
        lemma_one_more_row(rows, r, next[j].client_addr, start, end);
        lemma_first_row(rows, next[i].client_addr, start, end);
        lemma_first_row(rows, next[j].client_addr, start, end);
        assert(is_entry_of(report[i], rows, start, end));
        if j < report.len() {
            assert(is_entry_of(report[j], rows, start, end));
            assert(first_row(rows, report[i].client_addr, start, end) < first_row(
                rows,
                report[j].client_addr,
                start,
                end,
            ));
        } else {
            assert(!is_client_of(rows, r.client_addr, start, end)) by {
                if is_client_of(rows, r.client_addr, start, end) {
                    let k = choose|k: int|
                        0 <= k < rows.len() && counts_for(
                            #[trigger] rows[k],
                            r.client_addr,
                            start,
                            end,
                        );
                    assert(lists_client(report, rows[k].client_addr));
                }
            }
        }
    }
}

/// Groups the rows of the window by client, in the order in which the
/// clients first appear.
pub(crate) fn group_by_client(rows: &[ConnectionRow], start: i64, end: i64) -> (result: Result<
    Vec<ClientTraffic>,
    QueryError,
>)
    ensures
        match result {
            Ok(groups) => is_grouping(traffic_views(groups@), row_views(rows@), start, end)
                && in_order_of_arrival(traffic_views(groups@), row_views(rows@), start, end),
            Err(e) => e == QueryError::TotalTooLarge && some_total_too_large(
                row_views(rows@),
                start,
                end,
            ),
        },
{
    let ghost all = row_views(rows@);
    let mut groups: Vec<ClientTraffic> = Vec::new();
    let mut n: usize = 0;
    assert(all.take(0) =~= Seq::<ConnectionRowView>::empty());
    while n < rows.len()
        invariant
            n <= rows@.len(),
            all == row_views(rows@),
            is_grouping(traffic_views(groups@), all.take(n as int), start, end),
            in_order_of_arrival(traffic_views(groups@), all.take(n as int), start, end),
        decreases rows@.len() - n,
    {
        let row = &rows[n];
        let ghost seen = all.take(n as int);
        let ghost report = traffic_views(groups@);
        proof {
            assert(all[n as int] == row@);
            assert(all.take(n + 1) =~= seen.push(row@));
        }
        if start <= row.ts && row.ts < end {
            match find_client(&groups, &row.client_addr) {
                Some(at) => {
                    let from_to = groups[at].bytes_from_to.checked_add(row.bytes_from_to);
                    let to_from = groups[at].bytes_to_from.checked_add(row.bytes_to_from);
                    proof {
                        assert(report[at as int] == groups@[at as int]@);
                        assert(is_entry_of(report[at as int], seen, start, end));
                        lemma_one_more_row(seen, row@, row@.client_addr, start, end);
                        lemma_totals_grow(all, n + 1, row@.client_addr, start, end);
                    }
                    match (from_to, to_from) {
                        (Some(a), Some(b)) => {
                            groups[at].bytes_from_to = a;
                            groups[at].bytes_to_from = b;
                            proof {
                                lemma_row_of_listed_client(
                                    report,
                                    seen,
                                    row@,
                                    at as int,
                                    start,
                                    end,
                                );
                                assert(traffic_views(groups@) =~= report.update(
                                    at as int,
                                    ClientTrafficView {
                                        client_addr: report[at as int].client_addr,
                                        bytes_from_to: report[at as int].bytes_from_to
                                            + row@.bytes_from_to,
                                        bytes_to_from: report[at as int].bytes_to_from
                                            + row@.bytes_to_from,
                                    },
                                ));
                                lemma_arrival_order_kept(
                                    report,
                                    traffic_views(groups@),
                                    seen,
                                    row@,
                                    start,
                                    end,
                                );
                            }
                        },
                        _ => {
                            assert(in_window(all[n as int], start, end));
                            return Err(QueryError::TotalTooLarge);
                        },
                    }
                },
                None => {
                    groups.push(
                        ClientTraffic {
                            client_addr: copy_opt_text(&row.client_addr),
                            bytes_from_to: row.bytes_from_to,
                            bytes_to_from: row.bytes_to_from,
                        },
                    );
                    proof {
                        lemma_row_of_new_client(report, seen, row@, start, end);
                        assert(traffic_views(groups@) =~= report.push(
                            ClientTrafficView {
                                client_addr: row@.client_addr,
                                bytes_from_to: row@.bytes_from_to,
                                bytes_to_from: row@.bytes_to_from,
                            },
                        ));
                        lemma_arrival_order_kept(
                            report,
                            traffic_views(groups@),
                            seen,
                            row@,
                            start,
                            end,
                        );
                    }
                },
            }
        } else {
            proof {
                lemma_row_outside(report, seen, row@, start, end);
                lemma_arrival_order_kept(report, report, seen, row@, start, end);
            }
        }
        n += 1;
    }
    assert(all.take(n as int) =~= all);
    Ok(groups)
}

} // verus!
