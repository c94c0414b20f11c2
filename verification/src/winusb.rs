//! Finding the console's two bulk endpoints among the endpoints that a USB
//! device describes.

use vstd::prelude::*;

verus! {

/// The number of the vendor-specific interface that carries the stream.
pub const STREAM_INTERFACE: u8 = 1;

/// Which way an endpoint transfers.
#[derive(Debug, Clone, Copy, PartialEq, Eq, Structural)]
pub enum Direction {
    /// Device to host.
    In,
    /// Host to device.
    Out,
}

/// How an endpoint transfers.
#[derive(Debug, Clone, Copy, PartialEq, Eq, Structural)]
pub enum TransferType {
    Control,
    Isochronous,
    Bulk,
    Interrupt,
}

/// One endpoint as a device's first configuration describes it.
#[derive(Debug, Clone, Copy, PartialEq, Eq, Structural)]
pub struct EndpointInfo {
    /// The number of the interface that the endpoint belongs to.
    pub interface_number: u8,
    pub transfer_type: TransferType,
    pub direction: Direction,
    pub address: u8,
}

/// The addresses of the bulk endpoints that the stream uses.
#[derive(Debug, Clone, Copy, PartialEq, Eq, Structural)]
pub struct Endpoints {
    pub in_address: u8,
    pub out_address: u8,
}

impl EndpointInfo {
    /// Whether this is a bulk endpoint of the stream's interface that
    /// transfers in the direction `direction`.
    pub open spec fn serves(self, direction: Direction) -> bool {
        self.interface_number == STREAM_INTERFACE && self.transfer_type == TransferType::Bulk
            && self.direction == direction
    }
}

/// The address of the last endpoint in the list that serves `direction`.
pub open spec fn last_serving(list: Seq<EndpointInfo>, direction: Direction) -> Option<u8>
    decreases list.len(),
{
    if list.len() == 0 {
        None
    } else if list.last().serves(direction) {
        Some(list.last().address)
    } else {
        last_serving(list.drop_last(), direction)
    }
}

/// The endpoints that a device with these endpoint descriptions offers for
/// the stream, if it offers both.
pub open spec fn endpoints_of(list: Seq<EndpointInfo>) -> Option<Endpoints> {
    match (last_serving(list, Direction::In), last_serving(list, Direction::Out)) {
        (Some(in_address), Some(out_address)) => Some(Endpoints { in_address, out_address }),
        _ => None,
    }
}

/// Picks the stream's endpoints from the endpoint descriptions of a
/// device's first configuration, listed in the order in which the device
/// gives them: the bulk endpoints of the stream's interface, one for each
/// direction, the later one where a direction has several.
pub fn find_endpoints(list: &Vec<EndpointInfo>) -> (found: Option<Endpoints>)
    ensures
        found == endpoints_of(list@),
{
    let mut in_address: Option<u8> = None;
    let mut out_address: Option<u8> = None;
    let mut i: usize = 0;
    assert(list@.take(0) =~= Seq::<EndpointInfo>::empty());
    while i < list.len()
        invariant
            i <= list.len(),
            in_address == last_serving(list@.take(i as int), Direction::In),
            out_address == last_serving(list@.take(i as int), Direction::Out),
        decreases list.len() - i,
    {
        let endpoint = list[i];
        proof {
            assert(list@.take(i as int + 1).drop_last() =~= list@.take(i as int));
            assert(list@.take(i as int + 1).last() == endpoint);
        }
        if endpoint.interface_number == STREAM_INTERFACE {
            match endpoint.transfer_type {
                TransferType::Bulk => {
                    match endpoint.direction {
                        Direction::In => {
                            in_address = Some(endpoint.address);
                        },
                        Direction::Out => {
                            out_address = Some(endpoint.address);
                        },
                    }
                },
                _ => {},
            }
        }
        i = i + 1;
    }
    assert(list@.take(i as int) =~= list@);
    match (in_address, out_address) {
        (Some(in_address), Some(out_address)) => Some(Endpoints { in_address, out_address }),
        _ => None,
    }
}

} // verus!
