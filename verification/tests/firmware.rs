use learn_os::firmware::{
    boot_interrupted, browse_action, grown, timer_ticks, BrowseAction, BOOT_DELAY_SECONDS,
    INFO_GROWTH,
};
use learn_os::pci::{PciConfigurationAddress, PciHeader, PciLocation};

fn header(vendor_id: u16, header_type: u8) -> PciHeader {
    PciHeader { vendor_id, device_id: 0x7000, command: 0, header_type }
}

#[test]
fn the_boot_delay_is_twenty_million_ticks() {
    assert_eq!(timer_ticks(BOOT_DELAY_SECONDS), 20_000_000);
    assert_eq!(timer_ticks(0), 0);
    assert_eq!(timer_ticks(1_844_674_407_370), 18_446_744_073_700_000_000);
}

#[test]
fn a_buffer_grows_only_when_it_was_too_small() {
    assert_eq!(grown(80, INFO_GROWTH, true), Some(180));
    assert_eq!(grown(80, INFO_GROWTH, false), None);
    assert_eq!(grown(0, 48, true), Some(48));
    assert_eq!(grown(usize::MAX - 99, 100, true), None);
    assert_eq!(grown(usize::MAX - 100, 100, true), Some(usize::MAX));
}

#[test]
fn the_first_event_is_the_key() {
    assert_eq!(boot_interrupted(0), Some(true));
    assert_eq!(boot_interrupted(1), Some(false));
    assert_eq!(boot_interrupted(2), None);
    assert_eq!(boot_interrupted(usize::MAX), None);
}

#[test]
fn three_keys_steer_the_browsing() {
    assert_eq!(browse_action(Some('y')), BrowseAction::Show);
    assert_eq!(browse_action(Some('n')), BrowseAction::Skip);
    assert_eq!(browse_action(Some('q')), BrowseAction::Quit);
    assert_eq!(browse_action(Some('Y')), BrowseAction::Ask);
    assert_eq!(browse_action(Some(' ')), BrowseAction::Ask);
    assert_eq!(browse_action(None), BrowseAction::Ask);
}

#[test]
fn a_search_looks_at_further_functions_of_a_device_with_several() {
    let start = PciLocation::first();
    assert_eq!(start, PciLocation { bus: 0, device: 0, function: 0 });
    assert_eq!(
        start.next(&header(0x8086, 0x00)),
        Some(PciLocation { bus: 0, device: 1, function: 0 })
    );
    assert_eq!(
        start.next(&header(0x8086, 0x80)),
        Some(PciLocation { bus: 0, device: 0, function: 1 })
    );
    assert_eq!(
        start.next(&header(0xffff, 0xff)),
        Some(PciLocation { bus: 0, device: 1, function: 0 })
    );
    let second = PciLocation { bus: 0, device: 1, function: 1 };
    assert_eq!(
        second.next(&header(0xffff, 0x00)),
        Some(PciLocation { bus: 0, device: 1, function: 2 })
    );
    let last = PciLocation { bus: 0, device: 1, function: 7 };
    assert_eq!(
        last.next(&header(0x8086, 0x80)),
        Some(PciLocation { bus: 0, device: 2, function: 0 })
    );
}

#[test]
fn a_search_goes_from_bus_to_bus_and_ends() {
    let location = PciLocation { bus: 4, device: 31, function: 0 };
    assert_eq!(
        location.next(&header(0xffff, 0)),
        Some(PciLocation { bus: 5, device: 0, function: 0 })
    );
    let location = PciLocation { bus: 255, device: 31, function: 0 };
    assert_eq!(location.next(&header(0xffff, 0)), None);
    assert_eq!(
        location.next(&header(0x1234, 0x80)),
        Some(PciLocation { bus: 255, device: 31, function: 1 })
    );
    let location = PciLocation { bus: 255, device: 31, function: 7 };
    assert_eq!(location.next(&header(0x1234, 0x80)), None);
}

#[test]
fn a_search_of_empty_buses_reads_each_device_once() {
    let mut location = PciLocation::first();
    let mut reads = 1;
    while let Some(following) = location.next(&header(0xffff, 0)) {
        location = following;
        reads += 1;
    }
    assert_eq!(reads, 256 * 32);
}

#[test]
fn a_location_names_its_registers() {
    let location = PciLocation::serial_controller();
    assert_eq!(location, PciLocation { bus: 0, device: 3, function: 0 });
    assert_eq!(
        location.register(0x10),
        PciConfigurationAddress { bus: 0, device: 3, function: 0, register: 0x10 }
    );
    assert_eq!(location.register(0x10).to_u64(), 0x0003_0010);
}
