use learn_os::io::IoPort;
use learn_os::pci::{
    read_descriptor, read_descriptors, serial_controller_port, Descriptor,
    DescriptorResourceType, PciConfigurationAddress, PciError, PciHeader,
};
use learn_os::serial::PC16500D;

fn descriptor_bytes(kind: u8, general: u8, specific: u8, numbers: [u64; 5]) -> Vec<u8> {
    let mut bytes = vec![0x8a, 0x2b, 0x00, kind, general, specific];
    for number in numbers {
        bytes.extend_from_slice(&number.to_le_bytes());
    }
    bytes
}

#[test]
fn a_configuration_address_packs_four_bytes() {
    let address = PciConfigurationAddress { bus: 0x12, device: 0x34, function: 0x56, register: 0x78 };
    assert_eq!(address.to_u64(), 0x1234_5678);
    let address = PciConfigurationAddress { bus: 0, device: 3, function: 0, register: 0x10 };
    assert_eq!(address.to_u64(), 0x0003_0010);
    let address = PciConfigurationAddress { bus: 255, device: 255, function: 255, register: 255 };
    assert_eq!(address.to_u64(), 0xffff_ffff);
}

#[test]
fn a_header_splits_the_ids() {
    let header = PciHeader::decode(0x1237_8086, 0x0000_0007, 0x00);
    assert_eq!(
        header,
        PciHeader { vendor_id: 0x8086, device_id: 0x1237, command: 7, header_type: 0 }
    );
    assert!(header.is_host_bridge());
    assert!(!header.is_serial_controller());
    assert!(header.is_device());
    assert!(!header.multi_function());
    let header = PciHeader::decode(0x0002_1b36, 0, 0x80);
    assert!(header.is_serial_controller());
    assert!(header.multi_function());
    assert!(!PciHeader::decode(0xffff_ffff, 0, 0).is_device());
}

#[test]
fn the_serial_port_is_the_base_address_without_its_low_bits() {
    assert_eq!(serial_controller_port(0xc051), Ok(0xc050));
    assert_eq!(serial_controller_port(0x3f9), Ok(0x3f0));
    assert_eq!(serial_controller_port(0xffff), Ok(0xfff0));
    assert_eq!(serial_controller_port(0x1_0001), Err(PciError::BarWidth));
    assert_eq!(serial_controller_port(0xc050), Err(PciError::BarSpace));
}

#[test]
fn an_address_space_descriptor_is_read_field_by_field() {
    let bytes = descriptor_bytes(1, 0x0c, 0x03, [1, 0x1000, 0xffff, 0x8000_0000_0000_0000, 0xf000]);
    assert_eq!(bytes.len(), 46);
    assert_eq!(
        read_descriptor(&bytes, 0),
        Ok(Some(Descriptor {
            resource_type: DescriptorResourceType::IORange,
            general_flags: 0x0c,
            type_specific_flags: 0x03,
            address_space_granularity: 1,
            address_range_minimum: 0x1000,
            address_range_maximum: 0xffff,
            address_translation_offset: 0x8000_0000_0000_0000,
            address_length: 0xf000,
        }))
    );
}

#[test]
fn descriptors_are_read_up_to_the_end_tag() {
    let mut bytes = descriptor_bytes(0, 0, 0, [0, 0x8000_0000, 0xfebf_ffff, 0, 0x7ec0_0000]);
    bytes.extend(descriptor_bytes(2, 0, 0, [0, 0, 0xff, 0, 0x100]));
    bytes.extend_from_slice(&[0x79, 0x00]);
    let descriptors = read_descriptors(&bytes).unwrap();
    assert_eq!(descriptors.len(), 2);
    assert_eq!(descriptors[0].resource_type, DescriptorResourceType::MemoryRange);
    assert_eq!(descriptors[0].address_range_minimum, 0x8000_0000);
    assert_eq!(descriptors[1].resource_type, DescriptorResourceType::BusNumberRange);
    assert_eq!(descriptors[1].address_length, 0x100);
    assert_eq!(read_descriptor(&bytes, 92), Ok(None));
    assert_eq!(read_descriptors(&[0x79, 0x00]), Ok(vec![]));
}

#[test]
fn malformed_descriptors_are_refused() {
    assert_eq!(read_descriptor(&[], 0), Err(PciError::Truncated));
    assert_eq!(read_descriptor(&[0x79], 0), Err(PciError::Truncated));
    assert_eq!(read_descriptor(&[0x79, 0x01], 0), Err(PciError::Length));
    assert_eq!(read_descriptor(&[0x47, 0x00], 0), Err(PciError::Tag));
    assert_eq!(read_descriptor(&[0x8a, 0x2a], 0), Err(PciError::Length));
    assert_eq!(read_descriptor(&[0x8a, 0x2b, 0x00], 0), Err(PciError::Truncated));
    let mut bytes = descriptor_bytes(0, 0, 0, [0; 5]);
    bytes[2] = 1;
    assert_eq!(read_descriptor(&bytes, 0), Err(PciError::Length));
    let bytes = descriptor_bytes(3, 0, 0, [0; 5]);
    assert_eq!(read_descriptor(&bytes, 0), Err(PciError::ResourceType));
    let mut bytes = descriptor_bytes(0, 0, 0, [0; 5]);
    bytes.extend(descriptor_bytes(7, 0, 0, [0; 5]));
    assert_eq!(read_descriptors(&bytes), Err(PciError::ResourceType));
    let bytes = descriptor_bytes(0, 0, 0, [0; 5]);
    assert_eq!(read_descriptors(&bytes), Err(PciError::Truncated));
}

#[test]
fn a_port_is_found_from_a_base() {
    assert_eq!(IoPort(0x3f8).add(5), IoPort(0x3fd));
    assert_eq!(IoPort(0xfffe).add(1), IoPort(0xffff));
    assert_eq!(IoPort(7).add(0), IoPort(7));
}

#[test]
fn the_serial_device_has_its_registers_after_its_base() {
    let device = PC16500D::new(IoPort(0x3f8));
    assert_eq!(device.data_port(), IoPort(0x3f8));
    assert_eq!(device.modem_control_port(), IoPort(0x3fc));
    assert_eq!(device.line_status_port(), IoPort(0x3fd));
}

#[test]
fn the_line_status_says_when_to_send_and_receive() {
    assert!(PC16500D::can_transmit(0x20));
    assert!(PC16500D::can_transmit(0x61));
    assert!(!PC16500D::can_transmit(0xdf));
    assert!(PC16500D::can_receive(0x01));
    assert!(!PC16500D::can_receive(0xfe));
}

#[test]
fn loopback_is_bit_4_of_the_modem_control() {
    assert_eq!(PC16500D::loopback(0x03, true), 0x13);
    assert_eq!(PC16500D::loopback(0x13, true), 0x13);
    assert_eq!(PC16500D::loopback(0x1f, false), 0x0f);
    assert_eq!(PC16500D::loopback(0x0f, false), 0x0f);
}

#[test]
fn an_item_is_as_long_as_its_tag_says() {
    assert_eq!(learn_os::pci::item_size(0x8a, 0x2b), Ok(46));
    assert_eq!(learn_os::pci::item_size(0x79, 0x00), Ok(2));
    assert_eq!(learn_os::pci::item_size(0x8a, 0x2c), Err(PciError::Length));
    assert_eq!(learn_os::pci::item_size(0x79, 0x01), Err(PciError::Length));
    assert_eq!(learn_os::pci::item_size(0x00, 0x00), Err(PciError::Tag));
}
