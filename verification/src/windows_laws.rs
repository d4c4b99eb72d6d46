//! What holds of the replies of Windows and of what is made of them.

use vstd::prelude::*;

use crate::ipv4::{
    address_text, law_address_round_trip, law_network_round_trip, parsed_address, parsed_network,
    Ipv4Net,
};
use crate::lists::{lemma_filter_all, lemma_filter_members, lemma_filter_no};
use crate::text::{
    decimal, lemma_decimal, lemma_split_push, lemma_split_whole, lemma_text_irreflexive, split_on,
    text_less, trimmed,
};
use crate::windows::{
    adapter_before, adapters_in_order, addresses_named, discovered_adapters, discovered_gateway,
    failure_of, in_table, insert_adapter, law_adapters_are_sorted, ordered_adapters, resolution,
    routes_applied, routes_in_table, row_is_route, rules_applied, AdapterView, ApplyResponse,
    DnsApplyResponse, DnsResolutionResponse, GatewayView, OutputView, RouteRow, RouteView,
};

verus! {

/// A destination reads as one text only: what stands before the slash is its address,
/// what stands behind it its prefix length.
proof fn lemma_destination_text(address: u32, length: u8)
    ensures
        split_on(address_text(address) + "/"@ + decimal(length as nat), '/') == seq![
            address_text(address),
            decimal(length as nat),
        ],
        (Ipv4Net { addr: address, prefix_len: length }).text() == address_text(address) + "/"@
            + decimal(length as nat),
{
    reveal_strlit("/");
    law_address_round_trip(address);
    lemma_decimal(length as nat);
    assert("/"@ =~= seq!['/']);
    assert(!decimal(length as nat).contains('/')) by {
        if decimal(length as nat).contains('/') {
            let i = choose|i: int|
                0 <= i < decimal(length as nat).len() && decimal(length as nat)[i] == '/';
            assert(crate::text::is_digit(decimal(length as nat)[i]));
        }
    }
    lemma_split_whole(address_text(address), '/');
    lemma_split_push(address_text(address), decimal(length as nat), '/');
    assert(seq![address_text(address)].push(decimal(length as nat)) =~= seq![
        address_text(address),
        decimal(length as nat),
    ]);
}

/// A row of the routing table is taken for a route only where it leads where the route
/// leads: to the network that the route's prefix denotes, over the address that its next
/// hop denotes, through the same interface and with the same metric.
pub proof fn law_row_leads_where_its_route_leads(row: RouteRow, route: RouteView)
    requires
        row_is_route(row, route),
    ensures
        row.next_hop is Some,
        parsed_address(route.next_hop) == row.next_hop,
        row.destination is Some,
        row.prefix_length <= 32 ==> parsed_network(route.prefix) == Some(
            (Ipv4Net { addr: row.destination->0, prefix_len: row.prefix_length }),
        ),
        row.interface_index == route.interface_index,
        row.metric == route.route_metric,
{
    law_address_round_trip(row.next_hop->0);
    lemma_destination_text(row.destination->0, row.prefix_length);
    if row.prefix_length <= 32 {
        law_network_round_trip(
            Ipv4Net { addr: row.destination->0, prefix_len: row.prefix_length },
        );
    }
}

/// Two rows that are both taken for one route are alike, so a row that differs from the
/// route's own in any column is never taken for it.
pub proof fn law_route_has_one_row(one: RouteRow, other: RouteRow, route: RouteView)
    requires
        row_is_route(one, route),
        row_is_route(other, route),
    ensures
        one == other,
{
    law_row_leads_where_its_route_leads(one, route);
    law_row_leads_where_its_route_leads(other, route);
    lemma_destination_text(one.destination->0, one.prefix_length);
    lemma_destination_text(other.destination->0, other.prefix_length);
    let left = split_on(route.prefix, '/');
    assert(left[0] == address_text(one.destination->0));
    assert(left[0] == address_text(other.destination->0));
    assert(left[1] == decimal(one.prefix_length as nat));
    assert(left[1] == decimal(other.prefix_length as nat));
    law_address_round_trip(one.destination->0);
    law_address_round_trip(other.destination->0);
    lemma_decimal(one.prefix_length as nat);
    lemma_decimal(other.prefix_length as nat);
}

/// The row of a route that stands in the table as it was written is taken for it.
pub proof fn law_written_route_is_found(row: RouteRow, route: RouteView)
    requires
        row.destination is Some && row.next_hop is Some,
        route.prefix == (Ipv4Net {
            addr: row.destination->0,
            prefix_len: row.prefix_length,
        }).text(),
        route.next_hop == address_text(row.next_hop->0),
        route.interface_index == row.interface_index,
        route.route_metric == row.metric,
    ensures
        row_is_route(row, route),
{
    lemma_destination_text(row.destination->0, row.prefix_length);
}

/// The routes that are found are those of which the table has a row; where it has a row of
/// each, they are all found, in their order.
pub proof fn law_found_routes_have_rows(routes: Seq<RouteView>, rows: Seq<RouteRow>)
    ensures
        forall|route: RouteView| #[trigger]
            routes_in_table(routes, rows).contains(route) <==> routes.contains(route) && exists|
                k: int,
            |
                0 <= k < rows.len() && row_is_route(#[trigger] rows[k], route),
        routes.len() == rows.len() && (forall|i: int|
            0 <= i < routes.len() ==> row_is_route(rows[i], #[trigger] routes[i]))
            ==> routes_in_table(routes, rows) == routes,
{
    let present = |route: RouteView| in_table(rows, route);
    lemma_filter_members(routes, present);
    if routes.len() == rows.len() && (forall|i: int|
        0 <= i < routes.len() ==> row_is_route(rows[i], #[trigger] routes[i])) {
        assert forall|i: int| 0 <= i < routes.len() implies present(#[trigger] routes[i]) by {
            assert(row_is_route(rows[i], routes[i]));
        }
        lemma_filter_all(routes, present);
        assert(routes_in_table(routes, rows) == routes.filter(present));
    }
}

/// Texts that are all addresses give these addresses, one for each text and in their
/// order; a single text that is none makes the whole list fail.
proof fn lemma_addresses_named(texts: Seq<Seq<char>>)
    ensures
        addresses_named(texts) is Ok <==> forall|i: int|
            0 <= i < texts.len() ==> parsed_address(#[trigger] texts[i]) is Some,
        addresses_named(texts) matches Ok(addresses) ==> addresses.len() == texts.len() && forall|
            i: int,
        |
            0 <= i < texts.len() ==> parsed_address(#[trigger] texts[i]) == Some(addresses[i]),
    decreases texts.len(),
{
    if texts.len() > 0 {
        let front = texts.drop_last();
        lemma_addresses_named(front);
        assert forall|i: int| 0 <= i < front.len() implies front[i] == #[trigger] texts[i] by {}
        assert(texts[texts.len() - 1] == texts.last());
        if addresses_named(front) is Ok && parsed_address(texts.last()) is Some {
            let addresses = addresses_named(texts)->Ok_0;
            assert forall|i: int| 0 <= i < texts.len() implies parsed_address(#[trigger] texts[i])
                == Some(addresses[i]) by {
                if i < front.len() {
                    assert(front[i] == texts[i]);
                }
            }
        } else if addresses_named(front) is Err {
            let i = choose|i: int|
                0 <= i < front.len() && parsed_address(#[trigger] front[i]) is None;
            assert(parsed_address(texts[i]) is None);
        }
    }
}

/// No address that the name servers answered is lost: where the script succeeded and its
/// reply is in order, there are as many addresses as the reply has texts, and each is the
/// one that its text denotes. One text that denotes none, or a failed script, gives no
/// address at all.
pub proof fn law_every_answered_address_is_kept(
    output: OutputView,
    response: Option<DnsResolutionResponse>,
)
    ensures
        resolution(output, response) is Ok <==> {
            &&& output.success
            &&& response matches Some(reply)
            &&& reply.ok
            &&& forall|i: int|
                0 <= i < reply.addresses@.len() ==> parsed_address(
                    (#[trigger] reply.addresses@[i])@,
                ) is Some
        },
        resolution(output, response) matches Ok(addresses) ==> {
            let texts = response->0.addresses@;
            &&& addresses.len() == texts.len()
            &&& forall|i: int|
                0 <= i < texts.len() ==> Some(#[trigger] addresses[i]) == parsed_address(texts[i]@)
        },
        response matches Some(reply) && (!reply.ok || !output.success) ==> resolution(
            output,
            response,
        ) == Err::<Seq<u32>, Seq<char>>(response->0.message@),
{
    if let Some(reply) = response {
        let texts = reply.addresses.deep_view();
        lemma_addresses_named(texts);
        assert forall|i: int| 0 <= i < texts.len() implies texts[i]
            == (#[trigger] reply.addresses@[i])@ by {}
        if reply.ok && output.success {
            if forall|i: int|
                0 <= i < reply.addresses@.len() ==> parsed_address(
                    (#[trigger] reply.addresses@[i])@,
                ) is Some {
                assert forall|i: int| 0 <= i < texts.len() implies parsed_address(
                    #[trigger] texts[i],
                ) is Some by {
                    assert(parsed_address(reply.addresses@[i]@) is Some);
                }
            }
            if resolution(output, response) is Ok {
                assert forall|i: int| 0 <= i < reply.addresses@.len() implies parsed_address(
                    (#[trigger] reply.addresses@[i])@,
                ) is Some by {
                    assert(parsed_address(texts[i]) is Some);
                }
            }
        }
    }
}

/// The interface has this description and is connected or not.
pub open spec fn ranks_as(up: bool, description: Seq<char>) -> spec_fn(AdapterView) -> bool {
    |adapter: AdapterView| adapter.is_up() == up && adapter.description == description
}

/// An interface goes behind all others of its rank.
proof fn lemma_insert_keeps_order(
    list: Seq<AdapterView>,
    adapter: AdapterView,
    up: bool,
    description: Seq<char>,
)
    requires
        adapters_in_order(list),
    ensures
        insert_adapter(list, adapter).filter(ranks_as(up, description)) == (if ranks_as(
            up,
            description,
        )(adapter) {
            list.filter(ranks_as(up, description)).push(adapter)
        } else {
            list.filter(ranks_as(up, description))
        }),
    decreases list.len(),
{
    let property = ranks_as(up, description);
    reveal(Seq::filter);
    let one = seq![adapter];
    if property(adapter) {
        lemma_filter_all(one, property);
    } else {
        lemma_filter_no(one, property);
    }
    if list.len() == 0 {
        assert(list.filter(property) =~= Seq::<AdapterView>::empty());
    } else if adapter_before(adapter, list[0]) {
        Seq::filter_distributes_over_add(one, list, property);
        if property(adapter) {
            assert forall|i: int| 0 <= i < list.len() implies !property(#[trigger] list[i]) by {
                if property(list[i]) {
                    if i == 0 {
                        lemma_text_irreflexive(adapter.description);
                    } else {
                        assert(!adapter_before(list[i], list[0]));
                    }
                }
            }
            lemma_filter_no(list, property);
            assert(one + list.filter(property) =~= list.filter(property).push(adapter));
        } else {
            assert(Seq::<AdapterView>::empty() + list.filter(property) =~= list.filter(property));
        }
    } else {
        let head = seq![list[0]];
        let rest = list.skip(1);
        assert(adapters_in_order(rest)) by {
            assert forall|i: int, j: int| 0 <= i < j < rest.len() implies !adapter_before(
                #[trigger] rest[j],
                #[trigger] rest[i],
            ) by {
                assert(rest[i] == list[i + 1] && rest[j] == list[j + 1]);
            }
        }
        lemma_insert_keeps_order(rest, adapter, up, description);
        assert(list =~= head + rest);
        Seq::filter_distributes_over_add(head, rest, property);
        Seq::filter_distributes_over_add(head, insert_adapter(rest, adapter), property);
        if property(adapter) {
            assert(head.filter(property) + rest.filter(property).push(adapter) =~= (head.filter(
                property,
            ) + rest.filter(property)).push(adapter));
        }
    }
}

/// Interfaces of one rank stay in the order in which they came.
proof fn lemma_order_is_stable(adapters: Seq<AdapterView>, up: bool, description: Seq<char>)
    ensures
        ordered_adapters(adapters).filter(ranks_as(up, description)) == adapters.filter(
            ranks_as(up, description),
        ),
    decreases adapters.len(),
{
    reveal(Seq::filter);
    if adapters.len() > 0 {
        let front = adapters.drop_last();
        lemma_order_is_stable(front, up, description);
        law_adapters_are_sorted(front);
        lemma_insert_keeps_order(ordered_adapters(front), adapters.last(), up, description);
    } else {
        assert(adapters.filter(ranks_as(up, description)) =~= Seq::<AdapterView>::empty());
    }
}

/// What a search for interfaces gives is every interface that was found: the connected ones
/// first, those of either kind in the order of their descriptions, and those with the same
/// description in the order in which they came. A script that failed, or that printed no
/// data, gives none.
pub proof fn law_connected_interfaces_come_first(
    output: OutputView,
    parsed: Result<Seq<AdapterView>, Seq<char>>,
    up: bool,
    description: Seq<char>,
)
    ensures
        ({
            let found = discovered_adapters(output, parsed);
            &&& found is Ok <==> output.success && parsed is Ok
            &&& found matches Ok(all) ==> {
                &&& all.to_multiset() == parsed->Ok_0.to_multiset()
                &&& forall|i: int, j: int|
                    0 <= i < j < all.len() && (#[trigger] all[j]).is_up() ==> (
                    #[trigger] all[i]).is_up()
                &&& forall|i: int, j: int|
                    0 <= i < j < all.len() && (#[trigger] all[i]).is_up() == (
                    #[trigger] all[j]).is_up() ==> !text_less(
                        all[j].description,
                        all[i].description,
                    )
                &&& all.filter(ranks_as(up, description)) == parsed->Ok_0.filter(
                    ranks_as(up, description),
                )
            }
        }),
{
    if output.success && parsed is Ok {
        let all = ordered_adapters(parsed->Ok_0);
        law_adapters_are_sorted(parsed->Ok_0);
        lemma_order_is_stable(parsed->Ok_0, up, description);
        assert forall|i: int, j: int|
            0 <= i < j < all.len() && (#[trigger] all[j]).is_up() implies (
        #[trigger] all[i]).is_up() by {
            assert(!adapter_before(all[j], all[i]));
        }
        assert forall|i: int, j: int|
            0 <= i < j < all.len() && (#[trigger] all[i]).is_up() == (
            #[trigger] all[j]).is_up() implies !text_less(
            all[j].description,
            all[i].description,
        ) by {
            assert(!adapter_before(all[j], all[i]));
        }
    }
}

/// The ordinary network is what the script found, if it ended well and printed data.
pub proof fn law_ordinary_network_is_what_was_found(
    output: OutputView,
    parsed: Result<Option<GatewayView>, Seq<char>>,
)
    ensures
        discovered_gateway(output, parsed) is Ok <==> output.success && parsed is Ok,
        discovered_gateway(output, parsed) is Ok ==> discovered_gateway(output, parsed) == parsed,
{
}

/// A change counts as made only where the script ended well and its reply says so, and then
/// the reply is what is told. In every other case it counts as failed, for the reason that
/// the reply gives, or for what the script printed where there is no reply.
pub proof fn law_change_needs_script_and_reply(
    output: OutputView,
    routes: Option<ApplyResponse>,
    rules: Option<DnsApplyResponse>,
)
    ensures
        routes_applied(output, routes) is Ok <==> output.success && routes is Some
            && routes->0.ok,
        routes is Some && routes_applied(output, routes) is Ok ==> routes_applied(output, routes)
            == Ok::<Seq<char>, Seq<char>>(routes->0.message@),
        routes is Some && routes_applied(output, routes) is Err ==> routes_applied(output, routes)
            == Err::<Seq<char>, Seq<char>>(routes->0.message@),
        rules_applied(output, rules) is Ok <==> output.success && rules is Some && rules->0.ok,
        rules_applied(output, rules) is Ok ==> rules_applied(output, rules)->Ok_0.changed
            == rules->0.changed,
        rules is Some && rules_applied(output, rules) is Err ==> rules_applied(output, rules)->Err_0
            == rules->0.message@,
        routes is None ==> routes_applied(output, routes)->Err_0 == failure_of(output),
        rules is None ==> rules_applied(output, rules)->Err_0 == failure_of(output),
{
}

/// The reason of a failure ends with what the script printed as an error, without the
/// white space round it; where that is nothing, with what it printed at all.
pub proof fn law_failure_tells_what_was_printed(output: OutputView)
    ensures
        ({
            let printed = if trimmed(output.stderr).len() > 0 {
                trimmed(output.stderr)
            } else {
                trimmed(output.stdout)
            };
            &&& failure_of(output).len() >= printed.len()
            &&& failure_of(output).skip(failure_of(output).len() - printed.len()) == printed
        }),
{
    let printed = if trimmed(output.stderr).len() > 0 {
        trimmed(output.stderr)
    } else {
        trimmed(output.stdout)
    };
    let whole = failure_of(output);
    assert(whole.skip(whole.len() - printed.len()) =~= printed);
}

} // verus!
