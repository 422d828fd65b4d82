//! What the PCI configuration space of a device says.
//!
//! Reading the configuration space is left to the caller; this module
//! names the registers and decodes what was read.

use crate::bytes::{read_u64, u64_at};
use vstd::prelude::*;

verus! {

/// The place of a configuration register.
#[derive(Clone, Copy, Debug, PartialEq, Eq, Structural)]
pub struct PciConfigurationAddress {
    pub bus: u8,
    pub device: u8,
    pub function: u8,
    pub register: u8,
}

impl PciConfigurationAddress {
    /// The address as the root bridge takes it: the register in bits 0 to
    /// 7, the function in bits 8 to 15, the device in bits 16 to 23 and the
    /// bus in bits 24 to 31.
    pub open spec fn encoded(self) -> int {
        self.register + 0x100 * self.function + 0x1_0000 * self.device + 0x100_0000 * self.bus
    }

    /// The address as the root bridge takes it.
    pub fn to_u64(&self) -> (value: u64)
        ensures
            value == self.encoded(),
    {
        let register: u64 = self.register as u64;
        let function: u64 = self.function as u64;
        let device: u64 = self.device as u64;
        let bus: u64 = self.bus as u64;
        register + 0x100 * function + 0x1_0000 * device + 0x100_0000 * bus
    }
}

/// The configuration register that holds the vendor and device numbers.
pub const REGISTER_IDS: u8 = 0x0;

/// The configuration register that holds the command.
pub const REGISTER_COMMAND: u8 = 0x4;

/// The configuration register that holds the header type.
pub const REGISTER_HEADER_TYPE: u8 = 0xe;

/// The configuration register that holds the first base address.
pub const REGISTER_BAR0: u8 = 0x10;

/// The start of a device's configuration space.
#[derive(Clone, Copy, Debug, PartialEq, Eq, Structural)]
pub struct PciHeader {
    pub vendor_id: u16,
    pub device_id: u16,
    pub command: u32,
    pub header_type: u8,
}

impl PciHeader {
    /// The header from what the three registers hold: the vendor number
    /// is the low half of the first, the device number its high half.
    pub fn decode(vendor_and_device_ids: u32, command: u32, header_type: u8) -> (header: Self)
        ensures
            header.vendor_id == vendor_and_device_ids % 0x1_0000,
            header.device_id == vendor_and_device_ids / 0x1_0000,
            header.command == command,
            header.header_type == header_type,
    {
        PciHeader {
            vendor_id: (vendor_and_device_ids % 0x1_0000) as u16,
            device_id: (vendor_and_device_ids / 0x1_0000) as u16,
            command,
            header_type,
        }
    }

    /// Whether a device answers at the place that was read: where none
    /// does, the vendor number reads as `0xffff`.
    pub fn is_device(&self) -> (found: bool)
        ensures
            found == (self.vendor_id != 0xffff),
    {
        self.vendor_id != 0xffff
    }

    /// Whether the device has more than one function: header types from
    /// `0x80` on.
    pub fn multi_function(&self) -> (multi: bool)
        ensures
            multi == (self.header_type >= 0x80),
    {
        self.header_type >= 0x80
    }

    /// Whether this is the 82441FX host bridge.
    pub fn is_host_bridge(&self) -> (is: bool)
        ensures
            is == (self.vendor_id == 0x8086 && self.device_id == 0x1237),
    {
        self.vendor_id == 0x8086 && self.device_id == 0x1237
    }

    /// Whether this is the PCI serial controller.
    pub fn is_serial_controller(&self) -> (is: bool)
        ensures
            is == (self.vendor_id == 0x1b36 && self.device_id == 0x0002),
    {
        self.vendor_id == 0x1b36 && self.device_id == 0x0002
    }
}

/// A function of a device on a bus.
#[derive(Clone, Copy, Debug, PartialEq, Eq, Structural)]
pub struct PciLocation {
    pub bus: u8,
    pub device: u8,
    pub function: u8,
}

/// The number of devices on a bus.
pub const DEVICES: u8 = 32;

/// The number of functions of a device.
pub const FUNCTIONS: u8 = 8;

impl PciLocation {
    /// A bus has 32 devices, a device 8 functions.
    pub open spec fn wf(self) -> bool {
        self.device < 32 && self.function < 8
    }

    /// The place of the location in the order in which a bridge is
    /// searched: bus by bus, device by device, function by function.
    pub open spec fn rank(self) -> int {
        (self.bus * 32 + self.device) * 8 + self.function
    }

    /// The first function of the device after this one, if there is one:
    /// the next device of the bus, or the first device of the next bus.
    pub open spec fn next_device(self) -> Option<PciLocation> {
        if self.device < 31 {
            Some(PciLocation { bus: self.bus, device: (self.device + 1) as u8, function: 0 })
        } else if self.bus < 255 {
            Some(PciLocation { bus: (self.bus + 1) as u8, device: 0, function: 0 })
        } else {
            None
        }
    }

    /// Where a search goes on after this location, at which `header` was
    /// read.
    ///
    /// The other functions of a device are looked at only if its first
    /// function answers and says that the device has several; then all
    /// seven are, whether they answer or not.
    pub open spec fn successor(self, header: PciHeader) -> Option<PciLocation> {
        if self.function == 0 && header.vendor_id != 0xffff && header.header_type >= 0x80 {
            Some(PciLocation { bus: self.bus, device: self.device, function: 1 })
        } else if 0 < self.function < 7 {
            Some(
                PciLocation {
                    bus: self.bus,
                    device: self.device,
                    function: (self.function + 1) as u8,
                },
            )
        } else {
            self.next_device()
        }
    }

    /// Where a search of the root bridge starts.
    pub fn first() -> (location: Self)
        ensures
            location == (PciLocation { bus: 0, device: 0, function: 0 }),
            location.wf(),
            location.rank() == 0,
    {
        PciLocation { bus: 0, device: 0, function: 0 }
    }

    /// Where the serial controller is looked for: device 3 of bus 0.
    pub fn serial_controller() -> (location: Self)
        ensures
            location == (PciLocation { bus: 0, device: 3, function: 0 }),
            location.wf(),
    {
        PciLocation { bus: 0, device: 3, function: 0 }
    }

    /// The place of one of the location's registers.
    pub fn register(&self, register: u8) -> (address: PciConfigurationAddress)
        ensures
            address == (PciConfigurationAddress {
                bus: self.bus,
                device: self.device,
                function: self.function,
                register,
            }),
    {
        PciConfigurationAddress {
            bus: self.bus,
            device: self.device,
            function: self.function,
            register,
        }
    }

    /// Where the search goes on after this location, or `None` at its
    /// end. Each step leads to a later location, so the search ends.
    pub fn next(&self, header: &PciHeader) -> (following: Option<Self>)
        requires
            self.wf(),
        ensures
            following == self.successor(*header),
            following matches Some(location) ==> location.wf() && location.rank() > self.rank(),
            following.is_none() ==> self.bus == 255 && self.device == 31,
    {
        if self.function == 0 && header.is_device() && header.multi_function() {
            return Some(PciLocation { bus: self.bus, device: self.device, function: 1 });
        }
        if 0 < self.function && self.function < FUNCTIONS - 1 {
            return Some(
                PciLocation { bus: self.bus, device: self.device, function: self.function + 1 },
            );
        }
        if self.device < DEVICES - 1 {
            Some(PciLocation { bus: self.bus, device: self.device + 1, function: 0 })
        } else if self.bus < u8::MAX {
            Some(PciLocation { bus: self.bus + 1, device: 0, function: 0 })
        } else {
            None
        }
    }
}

/// Why the configuration space could not be made sense of.
#[derive(Clone, Copy, Debug, PartialEq, Eq, Structural)]
pub enum PciError {
    /// The first base address of the serial controller does not fit in 16 bits.
    BarWidth,
    /// The first base address of the serial controller is not in I/O space.
    BarSpace,
    /// The descriptors end before a descriptor or the end tag was read in full.
    Truncated,
    /// A descriptor starts with a tag that is neither an address space
    /// descriptor nor the end tag.
    Tag,
    /// An address space descriptor has a length other than `0x2b`.
    Length,
    /// An address space descriptor names a resource type other than 0, 1 and 2.
    ResourceType,
}

/// The I/O port that the first base address register of the serial
/// controller names: the register without its low four bits.
///
/// Fails if the register does not fit in 16 bits, and else if its bit 0
/// does not say that the address is in I/O space.
pub fn serial_controller_port(bar0: u32) -> (result: Result<u16, PciError>)
    ensures
        match result {
            Ok(port) => bar0 <= 0xffff && bar0 % 2 == 1 && port == bar0 - bar0 % 16,
            Err(PciError::BarWidth) => bar0 > 0xffff,
            Err(PciError::BarSpace) => bar0 <= 0xffff && bar0 % 2 == 0,
            Err(_) => false,
        },
{
    if bar0 > 0xffff {
        return Err(PciError::BarWidth);
    }
    if bar0 % 2 != 1 {
        return Err(PciError::BarSpace);
    }
    Ok((bar0 - bar0 % 16) as u16)
}

/// What an address space descriptor is about.
#[derive(Clone, Copy, Debug, PartialEq, Eq, Structural)]
pub enum DescriptorResourceType {
    MemoryRange,
    IORange,
    BusNumberRange,
}

/// An address space descriptor of a root bridge's configuration.
#[derive(Clone, Copy, Debug, PartialEq, Eq, Structural)]
pub struct Descriptor {
    pub resource_type: DescriptorResourceType,
    pub general_flags: u8,
    pub type_specific_flags: u8,
    pub address_space_granularity: u64,
    pub address_range_minimum: u64,
    pub address_range_maximum: u64,
    pub address_translation_offset: u64,
    pub address_length: u64,
}

/// The tag of an address space descriptor.
pub const TAG_ADDRESS_SPACE: u8 = 0x8a;

/// The tag that ends the descriptors.
pub const TAG_END: u8 = 0x79;

/// The size of an address space descriptor: 3 bytes of tag and length,
/// and `0x2b` bytes after them.
pub const DESCRIPTOR_SIZE: usize = 46;

/// How many bytes the item takes that starts with the bytes `tag` and
/// `length`: 46 for an address space descriptor, 2 for the end tag.
///
/// Fails with `Tag` where the tag is neither of the two, and with
/// `Length` where the second byte is not the one that belongs to the tag.
pub fn item_size(tag: u8, length: u8) -> (result: Result<usize, PciError>)
    ensures
        match result {
            Ok(size) => {
                ||| tag == TAG_END && length == 0 && size == 2
                ||| tag == TAG_ADDRESS_SPACE && length == 0x2b && size == 46
            },
            Err(PciError::Tag) => tag != TAG_END && tag != TAG_ADDRESS_SPACE,
            Err(PciError::Length) => {
                ||| tag == TAG_END && length != 0
                ||| tag == TAG_ADDRESS_SPACE && length != 0x2b
            },
            Err(_) => false,
        },
{
    if tag == TAG_END {
        if length == 0 {
            Ok(2)
        } else {
            Err(PciError::Length)
        }
    } else if tag == TAG_ADDRESS_SPACE {
        if length == 0x2b {
            Ok(DESCRIPTOR_SIZE)
        } else {
            Err(PciError::Length)
        }
    } else {
        Err(PciError::Tag)
    }
}

/// The resource type that a byte names, if it names one.
pub open spec fn resource_type_of(byte: u8) -> Option<DescriptorResourceType> {
    if byte == 0 {
        Some(DescriptorResourceType::MemoryRange)
    } else if byte == 1 {
        Some(DescriptorResourceType::IORange)
    } else if byte == 2 {
        Some(DescriptorResourceType::BusNumberRange)
    } else {
        None
    }
}

/// The address space descriptor that the 46 bytes at `offset` spell, given
/// that its resource type is `resource_type`.
pub open spec fn descriptor_at(bytes: Seq<u8>, offset: int, resource_type: DescriptorResourceType)
    -> Descriptor {
    Descriptor {
        resource_type,
        general_flags: bytes[offset + 4],
        type_specific_flags: bytes[offset + 5],
        address_space_granularity: u64_at(bytes, offset + 0x6) as u64,
        address_range_minimum: u64_at(bytes, offset + 0xe) as u64,
        address_range_maximum: u64_at(bytes, offset + 0x16) as u64,
        address_translation_offset: u64_at(bytes, offset + 0x1e) as u64,
        address_length: u64_at(bytes, offset + 0x26) as u64,
    }
}

/// What stands at `offset` of the descriptors: an address space
/// descriptor, or nothing where the end tag stands, or the reason why
/// neither can be read.
#[verifier::opaque]
pub open spec fn descriptor_spec(bytes: Seq<u8>, offset: int) -> Result<Option<Descriptor>, PciError> {
    if offset + 2 > bytes.len() {
        Err(PciError::Truncated)
    } else if bytes[offset] == TAG_END {
        if bytes[offset + 1] == 0 {
            Ok(None)
        } else {
            Err(PciError::Length)
        }
    } else if bytes[offset] != TAG_ADDRESS_SPACE {
        Err(PciError::Tag)
    } else if bytes[offset + 1] != 0x2b {
        Err(PciError::Length)
    } else if offset + 46 > bytes.len() {
        Err(PciError::Truncated)
    } else if bytes[offset + 2] != 0 {
        Err(PciError::Length)
    } else {
        match resource_type_of(bytes[offset + 3]) {
            Some(resource_type) => Ok(Some(descriptor_at(bytes, offset, resource_type))),
            None => Err(PciError::ResourceType),
        }
    }
}

/// Reads what stands at `offset` of the descriptors. The descriptor after
/// an address space descriptor stands 46 bytes further on.
///
/// An address space descriptor starts with the tag `0x8a` and its length
/// `0x2b` as two bytes, low byte first; then come the resource type, the
/// general and the type-specific flags as one byte each, and the
/// granularity, the minimum, the maximum, the translation offset and the
/// length of the address range as 8 bytes each, least significant first.
/// The end tag is `0x79`, followed by a zero byte.
pub fn read_descriptor(bytes: &[u8], offset: usize) -> (result: Result<Option<Descriptor>, PciError>)
    requires
        offset <= bytes@.len(),
    ensures
        result == descriptor_spec(bytes@, offset as int),
        result matches Ok(Some(_)) ==> offset + 46 <= bytes@.len(),
{
    reveal(descriptor_spec);
    let length: usize = bytes.len();
    if length - offset < 2 {
        return Err(PciError::Truncated);
    }
    let tag: u8 = bytes[offset];
    let size: u8 = bytes[offset + 1];
    if tag == TAG_END {
        if size == 0 {
            return Ok(None);
        }
        return Err(PciError::Length);
    }
    if tag != TAG_ADDRESS_SPACE {
        return Err(PciError::Tag);
    }
    if size != 0x2b {
        return Err(PciError::Length);
    }
    if length - offset < DESCRIPTOR_SIZE {
        return Err(PciError::Truncated);
    }
    if bytes[offset + 2] != 0 {
        return Err(PciError::Length);
    }
    let kind: u8 = bytes[offset + 3];
    let resource_type = if kind == 0 {
        DescriptorResourceType::MemoryRange
    } else if kind == 1 {
        DescriptorResourceType::IORange
    } else if kind == 2 {
        DescriptorResourceType::BusNumberRange
    } else {
        return Err(PciError::ResourceType);
    };
    Ok(
        Some(
            Descriptor {
                resource_type,
                general_flags: bytes[offset + 4],
                type_specific_flags: bytes[offset + 5],
                address_space_granularity: read_u64(bytes, offset + 0x6),
                address_range_minimum: read_u64(bytes, offset + 0xe),
                address_range_maximum: read_u64(bytes, offset + 0x16),
                address_translation_offset: read_u64(bytes, offset + 0x1e),
                address_length: read_u64(bytes, offset + 0x26),
            },
        ),
    )
}

/// The address space descriptors from the start of `bytes` up to the end
/// tag, in order.
pub fn read_descriptors(bytes: &[u8]) -> (result: Result<Vec<Descriptor>, PciError>)
    ensures
        match result {
            Ok(descriptors) => {
                &&& forall|n: int|
                    0 <= n < descriptors@.len() ==> descriptor_spec(bytes@, n * 46) == Ok::<
                        Option<Descriptor>,
                        PciError,
                    >(Some(#[trigger] descriptors@[n]))
                &&& descriptor_spec(bytes@, (descriptors@.len() * 46) as int) == Ok::<
                    Option<Descriptor>,
                    PciError,
                >(None)
            },
            Err(error) => exists|n: int|
                {
                    &&& 0 <= n
                    &&& #[trigger] descriptor_spec(bytes@, n * 46) == Err::<
                        Option<Descriptor>,
                        PciError,
                    >(error)
                    &&& forall|m: int|
                        0 <= m < n ==> (#[trigger] descriptor_spec(bytes@, m * 46)) matches Ok(
                            Some(_),
                        )
                },
        },
{
    let mut descriptors: Vec<Descriptor> = Vec::new();
    let mut offset: usize = 0;
    let length: usize = bytes.len();
    loop
        invariant
            length == bytes@.len(),
            offset == descriptors@.len() * 46,
            offset <= bytes@.len(),
            forall|n: int|
                0 <= n < descriptors@.len() ==> descriptor_spec(bytes@, n * 46) == Ok::<
                    Option<Descriptor>,
                    PciError,
                >(Some(#[trigger] descriptors@[n])),
        decreases bytes@.len() - offset,
    {
        match read_descriptor(bytes, offset) {
            Ok(Some(descriptor)) => {
                descriptors.push(descriptor);
                offset += DESCRIPTOR_SIZE;
            },
            Ok(None) => {
                return Ok(descriptors);
            },
            Err(error) => {
                proof {
                    let n = descriptors@.len() as int;
                    assert(descriptor_spec(bytes@, n * 46) == Err::<Option<Descriptor>, PciError>(
                        error,
                    ));
                    assert forall|m: int| 0 <= m < n implies (#[trigger] descriptor_spec(
                        bytes@,
                        m * 46,
                    )) matches Ok(Some(_)) by {
                        let found = descriptors@[m];
                    }
                }
                return Err(error);
            },
        }
    }
}

} // verus!
