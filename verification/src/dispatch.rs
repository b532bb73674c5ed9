//! Dispatch: every packet goes to every route, except those of this host.
use vstd::prelude::*;

use crate::config::{self, has_reflect_output, Config};
use crate::error::Error;
use crate::receiver::{self, local_addresses, Interface, IpAddr, PacketEvent};
use crate::route::{self, Processed, Route};

verus! {

/// Whether an address is among some addresses.
fn is_among(addresses: &[IpAddr], address: IpAddr) -> (r: bool)
    ensures
        r == addresses@.contains(address),
{
    let mut i: usize = 0;
    while i < addresses.len()
        invariant
            i <= addresses@.len(),
            forall|j: int| 0 <= j < i ==> addresses@[j] != address,
        decreases addresses@.len() - i,
    {
        if addresses[i] == address {
            return true;
        }
        i += 1;
    }
    false
}

/// The addresses whose packets are not dispatched: all of this host where some
/// route reflects, and none otherwise.
pub fn guarded_addresses(cfg: &Config, ifaces: &[Interface]) -> (r: Vec<IpAddr>)
    ensures
        r@ == if config::reflects(*cfg) {
            receiver::addresses_of(ifaces@)
        } else {
            Seq::empty()
        },
        forall|i: int, j: int, k: int, m: int|
            0 <= i < cfg.route@.len() && 0 <= j < cfg.route@[i].output@.len()
                && #[trigger] cfg.route@[i].output@[j] is Reflect && 0 <= k < ifaces@.len() && 0
                <= m < ifaces@[k].addresses@.len() ==> r@.contains(
                #[trigger] ifaces@[k].addresses@[m],
            ),
{
    if has_reflect_output(cfg) {
        proof {
            assert forall|k: int, m: int|
                0 <= k < ifaces@.len() && 0 <= m < ifaces@[k].addresses@.len() implies
                receiver::addresses_of(ifaces@).contains(#[trigger] ifaces@[k].addresses@[m]) by {
                own_packets_are_guarded(ifaces@, k, m);
            }
        }
        local_addresses(ifaces)
    } else {
        Vec::new()
    }
}

/// Dispatch a single packet event to all routes, with loop prevention: what
/// becomes of it in each route, in order, as far as no jq program has to be
/// asked. Packets from our own addresses go to no route.
pub fn dispatch_event(event: &PacketEvent, routes: &[Route], local_addrs: &[IpAddr]) -> (r: Vec<
    Result<Processed, Error>,
>)
    ensures
        local_addrs@.contains(event.source.ip) ==> r@.len() == 0,
        !local_addrs@.contains(event.source.ip) ==> {
            &&& r@.len() == routes@.len()
            &&& forall|i: int|
                0 <= i < routes@.len() ==> route::result_view(#[trigger] r@[i]) == route::became(
                    routes@[i]@,
                    event@,
                    Seq::empty(),
                )
            &&& forall|i: int|
                0 <= i < routes@.len() ==> route::all_carry(routes@[i]@, event@, #[trigger] r@[i])
        },
{
    let mut results: Vec<Result<Processed, Error>> = Vec::new();
    if is_among(local_addrs, event.source.ip) {
        return results;
    }
    let mut i: usize = 0;
    while i < routes.len()
        invariant
            i <= routes@.len(),
            results@.len() == i,
            forall|j: int|
                0 <= j < i ==> route::result_view(#[trigger] results@[j]) == route::became(
                    routes@[j]@,
                    event@,
                    Seq::empty(),
                ),
            forall|j: int|
                0 <= j < i ==> route::all_carry(routes@[j]@, event@, #[trigger] results@[j]),
        decreases routes@.len() - i,
    {
        results.push(routes[i].process(event));
        i += 1;
    }
    results
}

/// Where some route reflects, packets from any address of any interface of
/// this host are guarded.
pub proof fn own_packets_are_guarded(ifaces: Seq<Interface>, i: int, j: int)
    requires
        0 <= i < ifaces.len(),
        0 <= j < ifaces[i].addresses@.len(),
    ensures
        receiver::addresses_of(ifaces).contains(ifaces[i].addresses@[j]),
    decreases ifaces.len(),
{
    let all = receiver::addresses_of(ifaces);
    let init = receiver::addresses_of(ifaces.drop_last());
    if i == ifaces.len() - 1 {
        assert(all[init.len() + j] == ifaces[i].addresses@[j]);
    } else {
        own_packets_are_guarded(ifaces.drop_last(), i, j);
        let k = choose|k: int| 0 <= k < init.len() && init[k] == ifaces[i].addresses@[j];
        assert(all[k] == ifaces[i].addresses@[j]);
    }
}

/// Only addresses of this host are guarded.
pub proof fn foreign_packets_are_not_guarded(ifaces: Seq<Interface>, address: IpAddr)
    requires
        receiver::addresses_of(ifaces).contains(address),
    ensures
        exists|i: int, j: int|
            0 <= i < ifaces.len() && 0 <= j < ifaces[i].addresses@.len()
                && #[trigger] ifaces[i].addresses@[j] == address,
    decreases ifaces.len(),
{
    if ifaces.len() > 0 {
        let all = receiver::addresses_of(ifaces);
        let init = receiver::addresses_of(ifaces.drop_last());
        let k = choose|k: int| 0 <= k < all.len() && all[k] == address;
        if k < init.len() {
            assert(init[k] == address);
            foreign_packets_are_not_guarded(ifaces.drop_last(), address);
            let (i, j) = choose|i: int, j: int|
                0 <= i < ifaces.drop_last().len() && 0 <= j
                    < ifaces.drop_last()[i].addresses@.len()
                    && #[trigger] ifaces.drop_last()[i].addresses@[j] == address;
            assert(ifaces[i].addresses@[j] == address);
        } else {
            assert(ifaces[ifaces.len() - 1].addresses@[k - init.len()] == address);
        }
    }
}

} // verus!
