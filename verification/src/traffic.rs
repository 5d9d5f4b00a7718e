//! Traffic per client over a window of time.
//!
//! The report groups the stored rows of a half-open window `[start, end)` by
//! client address and adds up, for each client, the bytes of each direction.
//! Rows without a client address form a group of their own. The clients are
//! listed by their combined bytes, largest first, and clients with the same
//! combined bytes in the order of their first rows.

use vstd::prelude::*;
use crate::events::opt_text;
use crate::grouping::group_by_client;
use crate::sorting::sort_largest_first;
use crate::store::{row_views, ConnectionRow, ConnectionRowView};

verus! {

/// The bytes that one client sent and received within a window.
#[derive(Clone, Debug)]
pub struct ClientTraffic {
    pub client_addr: Option<String>,
    /// Bytes read from the client.
    pub bytes_from_to: u64,
    /// Bytes read from the remote targets for the client.
    pub bytes_to_from: u64,
}

/// A `ClientTraffic` with its address read as a sequence of characters and
/// its totals as natural numbers.
pub struct ClientTrafficView {
    pub client_addr: Option<Seq<char>>,
    pub bytes_from_to: nat,
    pub bytes_to_from: nat,
}

impl View for ClientTraffic {
    type V = ClientTrafficView;

    open spec fn view(&self) -> ClientTrafficView {
        ClientTrafficView {
            client_addr: opt_text(self.client_addr),
            bytes_from_to: self.bytes_from_to as nat,
            bytes_to_from: self.bytes_to_from as nat,
        }
    }
}

/// The views of a report, in order.
pub open spec fn traffic_views(report: Seq<ClientTraffic>) -> Seq<ClientTrafficView> {
    report.map_values(|t: ClientTraffic| t@)
}

/// Why a report could not be made.
#[derive(Clone, Copy, Debug, PartialEq, Eq, Structural)]
pub enum QueryError {
    /// The bytes of some client in one direction add up to more than
    /// `u64::MAX`.
    TotalTooLarge,
}

/// The text of the one failure of a report.
pub open spec fn total_too_large_text() -> Seq<char> {
    "integer overflow"@
}

impl QueryError {
    /// The failure in words.
    pub fn message(&self) -> (text: String)
        ensures
            text@ == total_too_large_text(),
    {
        match self {
            QueryError::TotalTooLarge => "integer overflow".to_owned(),
        }
    }
}

/// Whether a row lies in the window `[start, end)`.
pub open spec fn in_window(r: ConnectionRowView, start: i64, end: i64) -> bool {
    start <= r.ts < end
}

/// Whether a row lies in the window and belongs to `client`.
pub open spec fn counts_for(
    r: ConnectionRowView,
    client: Option<Seq<char>>,
    start: i64,
    end: i64,
) -> bool {
    in_window(r, start, end) && r.client_addr == client
}

/// The bytes read from `client` over all rows of the window.
pub open spec fn total_from_to(
    rows: Seq<ConnectionRowView>,
    client: Option<Seq<char>>,
    start: i64,
    end: i64,
) -> nat
    decreases rows.len(),
{
    if rows.len() == 0 {
        0
    } else {
        total_from_to(rows.drop_last(), client, start, end) + if counts_for(
            rows.last(),
            client,
            start,
            end,
        ) {
            rows.last().bytes_from_to
        } else {
            0
        }
    }
}

/// The bytes read for `client` from the remote targets over all rows of the
/// window.
pub open spec fn total_to_from(
    rows: Seq<ConnectionRowView>,
    client: Option<Seq<char>>,
    start: i64,
    end: i64,
) -> nat
    decreases rows.len(),
{
    if rows.len() == 0 {
        0
    } else {
        total_to_from(rows.drop_last(), client, start, end) + if counts_for(
            rows.last(),
            client,
            start,
            end,
        ) {
            rows.last().bytes_to_from
        } else {
            0
        }
    }
}

/// Whether some row of the window belongs to `client`.
pub open spec fn is_client_of(
    rows: Seq<ConnectionRowView>,
    client: Option<Seq<char>>,
    start: i64,
    end: i64,
) -> bool {
    exists|k: int| 0 <= k < rows.len() && counts_for(#[trigger] rows[k], client, start, end)
}

/// Whether a report has an entry for `client`.
pub open spec fn lists_client(report: Seq<ClientTrafficView>, client: Option<Seq<char>>) -> bool {
    exists|i: int| 0 <= i < report.len() && (#[trigger] report[i]).client_addr == client
}

/// Whether an entry carries the totals of its client over the window, and
/// the client has a row there.
pub open spec fn is_entry_of(
    entry: ClientTrafficView,
    rows: Seq<ConnectionRowView>,
    start: i64,
    end: i64,
) -> bool {
    &&& is_client_of(rows, entry.client_addr, start, end)
    &&& entry.bytes_from_to == total_from_to(rows, entry.client_addr, start, end)
    &&& entry.bytes_to_from == total_to_from(rows, entry.client_addr, start, end)
}

/// Whether no two entries of a report name the same client.
pub open spec fn one_entry_per_client(report: Seq<ClientTrafficView>) -> bool {
    forall|i: int, j: int|
        0 <= i < j < report.len() ==> (#[trigger] report[i]).client_addr != (
        #[trigger] report[j]).client_addr
}

/// Whether `report` groups the rows of the window by client: each entry is
/// the entry of a client of the window, each client of the window has an
/// entry, and no client has two.
pub open spec fn is_grouping(
    report: Seq<ClientTrafficView>,
    rows: Seq<ConnectionRowView>,
    start: i64,
    end: i64,
) -> bool {
    &&& forall|i: int| 0 <= i < report.len() ==> is_entry_of(#[trigger] report[i], rows, start, end)
    &&& forall|k: int|
        0 <= k < rows.len() && in_window(#[trigger] rows[k], start, end) ==> lists_client(
            report,
            rows[k].client_addr,
        )
    &&& one_entry_per_client(report)
}

/// The place of the first row of the window that belongs to `client`, or
/// the number of rows where there is none.
pub open spec fn first_row(
    rows: Seq<ConnectionRowView>,
    client: Option<Seq<char>>,
    start: i64,
    end: i64,
) -> int
    decreases rows.len(),
{
    if rows.len() == 0 {
        0
    } else {
        let before = first_row(rows.drop_last(), client, start, end);
        if before < rows.len() - 1 || counts_for(rows.last(), client, start, end) {
            before
        } else {
            before + 1
        }
    }
}

/// The bytes of an entry in both directions together.
pub open spec fn combined(entry: ClientTrafficView) -> nat {
    entry.bytes_from_to + entry.bytes_to_from
}

/// Whether the entries are listed by their combined bytes, largest first.
pub open spec fn largest_first(report: Seq<ClientTrafficView>) -> bool {
    forall|i: int, j: int|
        0 <= i < j < report.len() ==> combined(#[trigger] report[i]) >= combined(
            #[trigger] report[j],
        )
}

/// Whether entries with the same combined bytes are listed in the order in
/// which their clients first appear among the rows of the window.
pub open spec fn ties_in_order_of_arrival(
    report: Seq<ClientTrafficView>,
    rows: Seq<ConnectionRowView>,
    start: i64,
    end: i64,
) -> bool {
    forall|i: int, j: int|
        0 <= i < j < report.len() && combined(#[trigger] report[i]) == combined(
            #[trigger] report[j],
        ) ==> first_row(rows, report[i].client_addr, start, end) < first_row(
            rows,
            report[j].client_addr,
            start,
            end,
        )
}

/// Whether the entries are listed in the order in which their clients first
/// appear among the rows of the window.
pub open spec fn in_order_of_arrival(
    report: Seq<ClientTrafficView>,
    rows: Seq<ConnectionRowView>,
    start: i64,
    end: i64,
) -> bool {
    forall|i: int, j: int|
        0 <= i < j < report.len() ==> first_row(
            rows,
            (#[trigger] report[i]).client_addr,
            start,
            end,
        ) < first_row(rows, (#[trigger] report[j]).client_addr, start, end)
}

/// Whether a report is what the query answers for the rows and the window:
/// it groups the rows of the window by client, lists the clients by their
/// combined bytes, largest first, and clients with the same combined bytes
/// in the order of their first rows.
pub open spec fn is_report(
    report: Seq<ClientTrafficView>,
    rows: Seq<ConnectionRowView>,
    start: i64,
    end: i64,
) -> bool {
    &&& is_grouping(report, rows, start, end)
    &&& largest_first(report)
    &&& ties_in_order_of_arrival(report, rows, start, end)
}

/// Whether the bytes of some client of the window, in one direction, add up
/// to more than a `u64` holds.
pub open spec fn some_total_too_large(rows: Seq<ConnectionRowView>, start: i64, end: i64) -> bool {
    exists|k: int|
        0 <= k < rows.len() && in_window(#[trigger] rows[k], start, end) && (total_from_to(
            rows,
            rows[k].client_addr,
            start,
            end,
        ) > u64::MAX || total_to_from(rows, rows[k].client_addr, start, end) > u64::MAX)
}

/// Whether `b` holds the entries of `a`, each once, in some order.
pub open spec fn same_entries(a: Seq<ClientTrafficView>, b: Seq<ClientTrafficView>) -> bool {
    &&& forall|i: int| 0 <= i < b.len() ==> a.contains(#[trigger] b[i])
    &&& forall|i: int| 0 <= i < a.len() ==> b.contains(#[trigger] a[i])
    &&& one_entry_per_client(b)
}

/// A grouping stays one when its entries are put in another order.
proof fn lemma_grouping_in_any_order(
    a: Seq<ClientTrafficView>,
    b: Seq<ClientTrafficView>,
    rows: Seq<ConnectionRowView>,
    start: i64,
    end: i64,
)
    requires
        is_grouping(a, rows, start, end),
        same_entries(a, b),
    ensures
        is_grouping(b, rows, start, end),
{
    assert forall|i: int| 0 <= i < b.len() implies is_entry_of(
        #[trigger] b[i],
        rows,
        start,
        end,
    ) by {
        assert(a.contains(b[i]));
        let x = choose|x: int| 0 <= x < a.len() && a[x] == b[i];
        assert(is_entry_of(a[x], rows, start, end));
    }
    assert forall|k: int|
        0 <= k < rows.len() && in_window(#[trigger] rows[k], start, end) implies lists_client(
        b,
        rows[k].client_addr,
    ) by {
        let x = choose|x: int|
            0 <= x < a.len() && (#[trigger] a[x]).client_addr == rows[k].client_addr;
        assert(b.contains(a[x]));
        let i = choose|i: int| 0 <= i < b.len() && b[i] == a[x];
        assert(b[i].client_addr == rows[k].client_addr);
    }
}

/// Where a report of `u64` totals groups the rows, no total is too large.
proof fn lemma_grouping_has_no_large_total(
    report: Seq<ClientTrafficView>,
    rows: Seq<ConnectionRowView>,
    start: i64,
    end: i64,
)
    requires
        is_grouping(report, rows, start, end),
        forall|i: int|
            0 <= i < report.len() ==> (#[trigger] report[i]).bytes_from_to <= u64::MAX
                && report[i].bytes_to_from <= u64::MAX,
    ensures
        !some_total_too_large(rows, start, end),
{
    if some_total_too_large(rows, start, end) {
        let k = choose|k: int|
            0 <= k < rows.len() && in_window(#[trigger] rows[k], start, end) && (total_from_to(
                rows,
                rows[k].client_addr,
                start,
                end,
            ) > u64::MAX || total_to_from(rows, rows[k].client_addr, start, end) > u64::MAX);
        assert(lists_client(report, rows[k].client_addr));
        let i = choose|i: int|
            0 <= i < report.len() && (#[trigger] report[i]).client_addr == rows[k].client_addr;
        assert(is_entry_of(report[i], rows, start, end));
    }
}

/// The traffic of each client over the rows of the window `[start, end)`.
///
/// The report has one entry for each client address that occurs in a row
/// with `start <= ts < end`, the rows without an address counting as one
/// client. An entry carries the sums of the two byte counters over the rows
/// of its client in the window. The entries are listed by the sum of their
/// two totals, largest first, and entries with the same sum in the order in
/// which their clients first occur among the rows. With no row in the window
/// the report is empty.
///
/// The report fails where a total does not fit in a `u64`, and only there.
pub fn query_traffic_by_client(rows: &[ConnectionRow], start: i64, end: i64) -> (result: Result<
    Vec<ClientTraffic>,
    QueryError,
>)
    ensures
        result is Err <==> some_total_too_large(row_views(rows@), start, end),
        match result {
            Ok(report) => {
                &&& is_report(traffic_views(report@), row_views(rows@), start, end)
                &&& start >= end ==> report@.len() == 0
            },
            Err(e) => e == QueryError::TotalTooLarge,
        },
{
    match group_by_client(rows, start, end) {
        Ok(groups) => {
            let ghost grouped = traffic_views(groups@);
            let ghost all = row_views(rows@);
            let ghost rank = |client: Option<Seq<char>>| first_row(all, client, start, end);
            let report = sort_largest_first(groups, Ghost(rank));
            proof {
                let listed = traffic_views(report@);
                lemma_grouping_in_any_order(grouped, listed, all, start, end);
                lemma_grouping_has_no_large_total(listed, all, start, end);
                if start >= end && listed.len() > 0 {
                    assert(is_entry_of(listed[0], all, start, end));
                }
            }
            Ok(report)
        },
        Err(e) => Err(e),
    }
}

} // verus!
