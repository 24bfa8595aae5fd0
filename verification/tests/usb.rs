use rome::usb::{
    find_bulk_interface, find_device_port, is_device, BulkInterface, Endpoint, Interface, PortInfo,
};

fn port(name: &str, usb: Option<(u16, u16)>) -> PortInfo {
    PortInfo { port_name: name.to_string(), usb }
}

fn bulk(input: bool, address: u8) -> Endpoint {
    Endpoint { bulk: true, input, address }
}

#[test]
fn device_ids() {
    assert!(is_device(0x2FE3, 0x0101));
    assert!(!is_device(0x2FE3, 0x0100));
    assert!(!is_device(0x2FE4, 0x0101));
}

#[test]
fn first_device_port_is_found() {
    let ports = [
        port("a", None),
        port("b", Some((1, 2))),
        port("c", Some((0x2FE3, 0x0101))),
        port("d", Some((0x2FE3, 0x0101))),
    ];
    assert_eq!(find_device_port(&ports), Some("c"));
    assert_eq!(find_device_port(&ports[..2]), None);
}

#[test]
fn device_ports_are_tagged() {
    assert_eq!(port("c", Some((0x2FE3, 0x0101))).tag(), " ← SP-1 Stem Player");
    assert_eq!(port("a", None).tag(), "");
}

#[test]
fn last_usable_interface_is_claimed() {
    let interfaces = [
        Interface { number: 0, class_code: 0x02, endpoints: vec![bulk(true, 0x81), bulk(false, 1)] },
        Interface { number: 1, class_code: 0x0A, endpoints: vec![bulk(true, 0x82), bulk(false, 2)] },
        Interface {
            number: 2,
            class_code: 0x0A,
            endpoints: vec![
                bulk(true, 0x83),
                bulk(false, 3),
                Endpoint { bulk: false, input: true, address: 0x89 },
                bulk(true, 0x84),
            ],
        },
        Interface { number: 3, class_code: 0x0A, endpoints: vec![bulk(true, 0x85)] },
    ];
    assert_eq!(
        find_bulk_interface(&interfaces),
        Some(BulkInterface { number: 2, ep_in: 0x84, ep_out: 3 })
    );
    assert_eq!(
        find_bulk_interface(&interfaces[..2]),
        Some(BulkInterface { number: 1, ep_in: 0x82, ep_out: 2 })
    );
    assert_eq!(find_bulk_interface(&interfaces[..1]), None);
    assert_eq!(find_bulk_interface(&interfaces[3..]), None);
}
