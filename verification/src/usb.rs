//! Finding the device among serial ports and USB interfaces.

use vstd::prelude::*;

verus! {

pub const DEVICE_VID: u16 = 0x2FE3;
pub const DEVICE_PID: u16 = 0x0101;

/// Class of the interface that carries a virtual serial port's data.
pub const CLASS_CDC_DATA: u8 = 0x0A;

/// Whether these are the device's vendor and product id.
pub open spec fn device_ids(vid: u16, pid: u16) -> bool {
    vid == DEVICE_VID && pid == DEVICE_PID
}

pub fn is_device(vid: u16, pid: u16) -> (r: bool)
    ensures
        r == device_ids(vid, pid),
{
    vid == DEVICE_VID && pid == DEVICE_PID
}

/// A serial port of this machine.
#[derive(Debug)]
pub struct PortInfo {
    pub port_name: String,
    /// Vendor and product id, if it is a USB port.
    pub usb: Option<(u16, u16)>,
}

impl PortInfo {
    /// The port leads to the device.
    pub open spec fn leads_to_device(self) -> bool {
        self.usb matches Some((vid, pid)) && device_ids(vid, pid)
    }

    pub fn is_device_port(&self) -> (r: bool)
        ensures
            r == self.leads_to_device(),
    {
        match self.usb {
            Some((vid, pid)) => is_device(vid, pid),
            None => false,
        }
    }

    /// What a listing says after the port's name.
    pub fn tag(&self) -> (tag: &'static str)
        ensures
            tag@ == (if self.leads_to_device() {
                " \u{2190} SP-1 Stem Player"@
            } else {
                ""@
            }),
    {
        if self.is_device_port() {
            " \u{2190} SP-1 Stem Player"
        } else {
            ""
        }
    }
}

/// The name of the first port that leads to the device.
pub fn find_device_port(ports: &[PortInfo]) -> (name: Option<&str>)
    ensures
        match name {
            Some(name) => exists|i: int|
                0 <= i < ports@.len() && (#[trigger] ports@[i]).leads_to_device()
                    && ports@[i].port_name@ == name@ && forall|j: int|
                    0 <= j < i ==> !(#[trigger] ports@[j]).leads_to_device(),
            None => forall|i: int|
                0 <= i < ports@.len() ==> !(#[trigger] ports@[i]).leads_to_device(),
        },
{
    let mut i: usize = 0;
    while i < ports.len()
        invariant
            i <= ports@.len(),
            forall|j: int| 0 <= j < i ==> !(#[trigger] ports@[j]).leads_to_device(),
        decreases ports@.len() - i,
    {
        if ports[i].is_device_port() {
            return Some(ports[i].port_name.as_str());
        }
        i = i + 1;
    }
    None
}

/// An endpoint of an interface.
#[derive(Clone, Copy, Debug, PartialEq, Eq, Structural)]
pub struct Endpoint {
    /// It is for bulk transfers.
    pub bulk: bool,
    /// It goes to the host.
    pub input: bool,
    pub address: u8,
}

/// One setting of an interface.
#[derive(Debug)]
pub struct Interface {
    pub number: u8,
    pub class_code: u8,
    pub endpoints: Vec<Endpoint>,
}

/// An interface to claim, with its bulk endpoints.
#[derive(Clone, Copy, Debug, PartialEq, Eq, Structural)]
pub struct BulkInterface {
    pub number: u8,
    pub ep_in: u8,
    pub ep_out: u8,
}

/// Address of the last bulk endpoint in a direction, 0 where there is none.
pub open spec fn bulk_address(endpoints: Seq<Endpoint>, input: bool) -> u8
    decreases endpoints.len(),
{
    if endpoints.len() == 0 {
        0
    } else if endpoints.last().bulk && endpoints.last().input == input {
        endpoints.last().address
    } else {
        bulk_address(endpoints.drop_last(), input)
    }
}

impl Interface {
    /// The interface carries data and has bulk endpoints in both directions.
    pub open spec fn usable(self) -> bool {
        &&& self.class_code == CLASS_CDC_DATA
        &&& bulk_address(self.endpoints@, true) != 0
        &&& bulk_address(self.endpoints@, false) != 0
    }

    pub open spec fn claimed_as(self, claim: BulkInterface) -> bool {
        &&& claim.number == self.number
        &&& claim.ep_in == bulk_address(self.endpoints@, true)
        &&& claim.ep_out == bulk_address(self.endpoints@, false)
    }

    fn bulk(&self) -> (r: Option<BulkInterface>)
        ensures
            match r {
                Some(claim) => self.usable() && self.claimed_as(claim),
                None => !self.usable(),
            },
    {
        if self.class_code != CLASS_CDC_DATA {
            return None;
        }
        let mut ep_in: u8 = 0;
        let mut ep_out: u8 = 0;
        let mut i: usize = 0;
        while i < self.endpoints.len()
            invariant
                i <= self.endpoints@.len(),
                ep_in == bulk_address(self.endpoints@.take(i as int), true),
                ep_out == bulk_address(self.endpoints@.take(i as int), false),
            decreases self.endpoints@.len() - i,
        {
            let ep: Endpoint = self.endpoints[i];
            if ep.bulk {
                if ep.input {
                    ep_in = ep.address;
                } else {
                    ep_out = ep.address;
                }
            }
            assert(self.endpoints@.take(i + 1).drop_last() =~= self.endpoints@.take(i as int));
            i = i + 1;
        }
        assert(self.endpoints@.take(self.endpoints@.len() as int) =~= self.endpoints@);
        if ep_in != 0 && ep_out != 0 {
            Some(BulkInterface { number: self.number, ep_in, ep_out })
        } else {
            None
        }
    }
}

/// Picks the last usable interface.
pub fn find_bulk_interface(interfaces: &[Interface]) -> (r: Option<BulkInterface>)
    ensures
        match r {
            Some(claim) => exists|i: int|
                0 <= i < interfaces@.len() && (#[trigger] interfaces@[i]).usable()
                    && interfaces@[i].claimed_as(claim) && forall|j: int|
                    i < j < interfaces@.len() ==> !(#[trigger] interfaces@[j]).usable(),
            None => forall|i: int|
                0 <= i < interfaces@.len() ==> !(#[trigger] interfaces@[i]).usable(),
        },
{
    let mut i: usize = interfaces.len();
    while i > 0
        invariant
            i <= interfaces@.len(),
            forall|j: int| i <= j < interfaces@.len() ==> !(#[trigger] interfaces@[j]).usable(),
        decreases i,
    {
        i = i - 1;
        if let Some(claim) = interfaces[i].bulk() {
            return Some(claim);
        }
    }
    None
}

/// A found bulk address is that of a bulk endpoint in the direction asked for.
pub proof fn law_bulk_address_is_an_endpoint(endpoints: Seq<Endpoint>, input: bool)
    requires
        bulk_address(endpoints, input) != 0,
    ensures
        exists|i: int|
            0 <= i < endpoints.len() && (#[trigger] endpoints[i]).bulk && endpoints[i].input
                == input && endpoints[i].address == bulk_address(endpoints, input),
    decreases endpoints.len(),
{
    let n = endpoints.len() - 1;
    if endpoints.last().bulk && endpoints.last().input == input {
        assert(endpoints[n].bulk);
    } else {
        law_bulk_address_is_an_endpoint(endpoints.drop_last(), input);
        let i = choose|i: int|
            0 <= i < endpoints.drop_last().len() && (#[trigger] endpoints.drop_last()[i]).bulk
                && endpoints.drop_last()[i].input == input && endpoints.drop_last()[i].address
                == bulk_address(endpoints.drop_last(), input);
        assert(endpoints[i].bulk);
    }
}

/// The device is told by its two ids, and a port leads to it only by USB.
pub proof fn law_device_ids(vid: u16, pid: u16, port: PortInfo)
    ensures
        device_ids(vid, pid) <==> vid == 0x2FE3 && pid == 0x0101,
        port.leads_to_device() <==> port.usb == Some((0x2FE3u16, 0x0101u16)),
{
}

/// The bulk address in a direction is that of the last bulk endpoint there: where
/// endpoint `i` is one and no later one is, it is the address of `i`.
pub proof fn law_last_bulk_endpoint_counts(endpoints: Seq<Endpoint>, input: bool, i: int)
    requires
        0 <= i < endpoints.len(),
        endpoints[i].bulk && endpoints[i].input == input,
        forall|j: int|
            i < j < endpoints.len() ==> !((#[trigger] endpoints[j]).bulk && endpoints[j].input
                == input),
    ensures
        bulk_address(endpoints, input) == endpoints[i].address,
    decreases endpoints.len(),
{
    if i < endpoints.len() - 1 {
        let n = endpoints.len() - 1;
        assert(!(endpoints[n].bulk && endpoints[n].input == input));
        let rest = endpoints.drop_last();
        assert forall|j: int| i < j < rest.len() implies !((#[trigger] rest[j]).bulk
            && rest[j].input == input) by {
            assert(rest[j] == endpoints[j]);
        }
        law_last_bulk_endpoint_counts(rest, input, i);
    }
}

/// Where no bulk endpoint goes in a direction, there is no address.
pub proof fn law_no_bulk_endpoint(endpoints: Seq<Endpoint>, input: bool)
    requires
        forall|j: int|
            0 <= j < endpoints.len() ==> !((#[trigger] endpoints[j]).bulk && endpoints[j].input
                == input),
    ensures
        bulk_address(endpoints, input) == 0,
    decreases endpoints.len(),
{
    if endpoints.len() > 0 {
        let rest = endpoints.drop_last();
        assert(!(endpoints[endpoints.len() - 1].bulk && endpoints[endpoints.len() - 1].input
            == input));
        assert forall|j: int| 0 <= j < rest.len() implies !((#[trigger] rest[j]).bulk
            && rest[j].input == input) by {
            assert(rest[j] == endpoints[j]);
        }
        law_no_bulk_endpoint(rest, input);
    }
}

/// An interface is usable where it is of the data class and has addresses in both
/// directions; it is claimed by its number with these addresses.
pub proof fn law_usable_interfaces(interface: Interface, claim: BulkInterface)
    ensures
        interface.usable() <==> interface.class_code == 0x0A && bulk_address(
            interface.endpoints@,
            true,
        ) != 0 && bulk_address(interface.endpoints@, false) != 0,
        interface.claimed_as(claim) <==> claim.number == interface.number && claim.ep_in
            == bulk_address(interface.endpoints@, true) && claim.ep_out == bulk_address(
            interface.endpoints@,
            false,
        ),
{
}

} // verus!
