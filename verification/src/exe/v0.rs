//! Version 0 of the executable image format.
//!
//! An image starts with a header of 82 bytes: the 8 magic bytes, the
//! version as 2 bytes, and three segment descriptors of 24 bytes each, for
//! code, read-only data and read-write data, in this order. A descriptor
//! holds where the segment starts in the image, its size in bytes, and the
//! virtual address to load it at, each as 8 bytes. All numbers are
//! little-endian.

use crate::bytes::{read_u16, read_u64, u16_at, u64_at};
use vstd::prelude::*;

verus! {

/// The version that this module reads.
pub const VERSION: u16 = 0;

/// Size of the header in an image.
pub const HEADER_SIZE: usize = 82;

/// Size of one segment descriptor in an image.
pub const SEGMENT_INFO_SIZE: usize = 24;

/// Where the version stands in an image.
pub const VERSION_OFFSET: usize = 8;

/// Where the descriptor of the code segment stands in an image.
pub const CODE_INFO_OFFSET: usize = 10;

/// Where the descriptor of the read-only data segment stands in an image.
pub const RODATA_INFO_OFFSET: usize = 34;

/// Where the descriptor of the read-write data segment stands in an image.
pub const RWDATA_INFO_OFFSET: usize = 58;

/// The magic bytes: the ASCII encoding of the letters `learn-os`.
pub open spec fn magic() -> Seq<u8> {
    seq![0x6cu8, 0x65u8, 0x61u8, 0x72u8, 0x6eu8, 0x2du8, 0x6fu8, 0x73u8]
}

/// The magic bytes: the ASCII encoding of the letters `learn-os`.
pub fn magic_bytes() -> (bytes: [u8; 8])
    ensures
        bytes@ == magic(),
{
    let bytes: [u8; 8] = [0x6c, 0x65, 0x61, 0x72, 0x6e, 0x2d, 0x6f, 0x73];
    assert(bytes@ =~= magic());
    bytes
}

/// Where a segment lies in the image and where it is to be loaded.
#[derive(Clone, Copy, Debug, PartialEq, Eq, Structural)]
pub struct SegmentInfo {
    /// Byte at which the segment begins, relative to the start of the image.
    pub start: u64,
    /// Segment size, in bytes.
    pub size: u64,
    /// Virtual address at which the segment is to be loaded.
    pub load_address: u64,
}

/// The descriptor that the 24 bytes at `offset` spell.
pub open spec fn segment_info_at(bytes: Seq<u8>, offset: int) -> SegmentInfo {
    SegmentInfo {
        start: u64_at(bytes, offset) as u64,
        size: u64_at(bytes, offset + 8) as u64,
        load_address: u64_at(bytes, offset + 16) as u64,
    }
}

/// Whether the bytes that a descriptor names lie within an image of `length` bytes.
pub open spec fn in_bounds(info: SegmentInfo, length: int) -> bool {
    info.start + info.size <= length
}

/// Why a buffer is no image, or why a segment cannot be had from it.
#[derive(Clone, Copy, Debug, PartialEq, Eq)]
#[allow(inconsistent_fields)]
pub enum Error {
    /// The buffer is smaller than a header.
    Length { minimum_length: usize, actual_length: usize },
    /// The first 8 bytes are not the magic bytes.
    MagicBytes { expected: [u8; 8], actual: [u8; 8] },
    /// The version is not the one that this module reads.
    Version { expected: u16, actual: u16 },
    /// A descriptor names bytes that the buffer does not hold.
    SegmentBounds { start: u64, size: u64, actual_length: usize },
}

/// The header of an image, field by field.
#[derive(Clone, Copy, Debug, PartialEq, Eq)]
pub struct Header {
    /// The magic bytes.
    pub magic_bytes: [u8; 8],
    /// The version.
    pub version: u16,
    /// Code segment info. Its load address is the program's entry point.
    pub code_info: SegmentInfo,
    /// Read-only data segment info.
    pub rodata_info: SegmentInfo,
    /// Read-write data segment info.
    pub rwdata_info: SegmentInfo,
}

/// Whether `error` says that the bytes which `info` names do not lie
/// within an image of `length` bytes: it holds the descriptor's range and
/// the image's length.
pub open spec fn bounds_error(info: SegmentInfo, length: int, error: Error) -> bool {
    match error {
        Error::SegmentBounds { start, size, actual_length } => {
            &&& !in_bounds(info, length)
            &&& start == info.start
            &&& size == info.size
            &&& actual_length == length
        },
        _ => false,
    }
}

/// Whether `result` is what asking an image for a segment gives: the
/// bytes that the descriptor names where they lie within the image, else
/// the error that holds the descriptor's range and the image's length.
pub open spec fn segment_outcome(image: Seq<u8>, info: SegmentInfo, result: Result<&[u8], Error>)
    -> bool {
    match result {
        Ok(bytes) => in_bounds(info, image.len() as int) && bytes@ == image.subrange(
            info.start as int,
            info.start + info.size,
        ),
        Err(error) => bounds_error(info, image.len() as int, error),
    }
}

/// Whether `bytes` is an image: long enough for a header, with the magic
/// bytes first and the version after them.
pub open spec fn valid_image(bytes: Seq<u8>) -> bool {
    &&& bytes.len() >= 82
    &&& bytes.subrange(0, 8) == magic()
    &&& u16_at(bytes, 8) == 0
}

/// Whether `error` says why `bytes` is no image. The length is looked at
/// first, then the magic bytes, then the version: the error names the
/// first of them that is not as it should be, with what was expected and
/// what was found.
pub open spec fn header_error(bytes: Seq<u8>, error: Error) -> bool {
    match error {
        Error::Length { minimum_length, actual_length } => {
            &&& bytes.len() < 82
            &&& minimum_length == 82
            &&& actual_length == bytes.len()
        },
        Error::MagicBytes { expected, actual } => {
            &&& bytes.len() >= 82
            &&& bytes.subrange(0, 8) != magic()
            &&& expected@ == magic()
            &&& actual@ == bytes.subrange(0, 8)
        },
        Error::Version { expected, actual } => {
            &&& bytes.len() >= 82
            &&& bytes.subrange(0, 8) == magic()
            &&& u16_at(bytes, 8) != 0
            &&& expected == 0
            &&& actual == u16_at(bytes, 8)
        },
        Error::SegmentBounds { .. } => false,
    }
}

/// Whether `bytes` is an image whose three segments lie within it.
pub open spec fn complete_image(bytes: Seq<u8>) -> bool {
    &&& valid_image(bytes)
    &&& in_bounds(segment_info_at(bytes, 10), bytes.len() as int)
    &&& in_bounds(segment_info_at(bytes, 34), bytes.len() as int)
    &&& in_bounds(segment_info_at(bytes, 58), bytes.len() as int)
}

/// Whether `error` says why `bytes` is no image whose segments lie within
/// it: the fault of its header, or else the first segment, in the order
/// code, read-only data, read-write data, that does not lie within it.
pub open spec fn image_error(bytes: Seq<u8>, error: Error) -> bool {
    if !valid_image(bytes) {
        header_error(bytes, error)
    } else if !in_bounds(segment_info_at(bytes, 10), bytes.len() as int) {
        bounds_error(segment_info_at(bytes, 10), bytes.len() as int, error)
    } else if !in_bounds(segment_info_at(bytes, 34), bytes.len() as int) {
        bounds_error(segment_info_at(bytes, 34), bytes.len() as int, error)
    } else {
        bounds_error(segment_info_at(bytes, 58), bytes.len() as int, error)
    }
}

/// Reads the descriptor that stands at `offset`.
fn read_segment_info(buffer: &[u8], offset: usize) -> (info: SegmentInfo)
    requires
        offset + 24 <= buffer@.len(),
    ensures
        info == segment_info_at(buffer@, offset as int),
{
    let length: usize = buffer.len();
    assert(offset + 24 <= length);
    SegmentInfo {
        start: read_u64(buffer, offset),
        size: read_u64(buffer, offset + 8),
        load_address: read_u64(buffer, offset + 16),
    }
}

impl From<[u8; 24]> for SegmentInfo {
    /// The descriptor that 24 bytes spell.
    fn from(value: [u8; 24]) -> (info: Self) {
        read_segment_info(value.as_slice(), 0)
    }
}

impl vstd::std_specs::convert::FromSpecImpl<[u8; 24]> for SegmentInfo {
    open spec fn obeys_from_spec() -> bool {
        true
    }

    /// The descriptor that 24 bytes spell.
    open spec fn from_spec(value: [u8; 24]) -> SegmentInfo {
        segment_info_at(value@, 0)
    }
}

/// A view of a buffer that holds an image.
pub struct Exe<'a> {
    buffer: &'a [u8],
}

impl<'a> Exe<'a> {
    /// The bytes of the image.
    pub closed spec fn view(&self) -> Seq<u8> {
        self.buffer@
    }

    /// Whether the view is of an image. `parse` establishes this.
    pub open spec fn wf(&self) -> bool {
        valid_image(self@)
    }

    /// Creates a view on a buffer, if the buffer holds an image.
    ///
    /// The checks are made in this order: the buffer is at least as long as
    /// a header; its first 8 bytes are the magic bytes; its version is 0.
    /// Whether the segments lie within the buffer is not checked here.
    pub fn parse(buffer: &'a [u8]) -> (result: Result<Exe<'a>, Error>)
        ensures
            match result {
                Ok(exe) => valid_image(buffer@) && exe@ == buffer@,
                Err(error) => !valid_image(buffer@) && header_error(buffer@, error),
            },
    {
        if buffer.len() < HEADER_SIZE {
            return Err(Error::Length { minimum_length: HEADER_SIZE, actual_length: buffer.len() });
        }
        let actual: [u8; 8] = [
            buffer[0],
            buffer[1],
            buffer[2],
            buffer[3],
            buffer[4],
            buffer[5],
            buffer[6],
            buffer[7],
        ];
        assert(actual@ =~= buffer@.subrange(0, 8));
        let expected = magic_bytes();
        let mut same: bool = true;
        let mut n: usize = 0;
        assert(actual@.subrange(0, 0) =~= expected@.subrange(0, 0));
        while n < 8
            invariant
                n <= 8,
                same == (actual@.subrange(0, n as int) == expected@.subrange(0, n as int)),
            decreases 8 - n,
        {
            if actual[n] != expected[n] {
                same = false;
                assert(actual@.subrange(0, n + 1)[n as int] != expected@.subrange(
                    0,
                    n + 1,
                )[n as int]);
            } else if same {
                assert(actual@.subrange(0, n + 1) =~= actual@.subrange(0, n as int).push(
                    actual@[n as int],
                ));
                assert(expected@.subrange(0, n + 1) =~= expected@.subrange(0, n as int).push(
                    expected@[n as int],
                ));
            } else {
                assert(actual@.subrange(0, n as int) =~= actual@.subrange(0, n + 1).subrange(
                    0,
                    n as int,
                ));
                assert(expected@.subrange(0, n as int) =~= expected@.subrange(0, n + 1).subrange(
                    0,
                    n as int,
                ));
            }
            n += 1;
        }
        assert(actual@.subrange(0, 8) =~= actual@);
        assert(expected@.subrange(0, 8) =~= expected@);
        if !same {
            return Err(Error::MagicBytes { expected, actual });
        }
        let version: u16 = read_u16(buffer, VERSION_OFFSET);
        if version != VERSION {
            return Err(Error::Version { expected: VERSION, actual: version });
        }
        Ok(Exe { buffer })
    }

    /// Reads the entire header.
    pub fn header(&self) -> (header: Header)
        requires
            self.wf(),
        ensures
            header.magic_bytes@ == magic(),
            header.version == 0,
            header.code_info == segment_info_at(self@, 10),
            header.rodata_info == segment_info_at(self@, 34),
            header.rwdata_info == segment_info_at(self@, 58),
    {
        Header {
            magic_bytes: self.magic_bytes(),
            version: self.version(),
            code_info: self.code_info(),
            rodata_info: self.rodata_info(),
            rwdata_info: self.rwdata_info(),
        }
    }

    /// Reads the magic bytes from the header.
    pub fn magic_bytes(&self) -> (bytes: [u8; 8])
        requires
            self.wf(),
        ensures
            bytes@ == self@.subrange(0, 8),
            bytes@ == magic(),
    {
        let bytes: [u8; 8] = [
            self.buffer[0],
            self.buffer[1],
            self.buffer[2],
            self.buffer[3],
            self.buffer[4],
            self.buffer[5],
            self.buffer[6],
            self.buffer[7],
        ];
        assert(bytes@ =~= self@.subrange(0, 8));
        bytes
    }

    /// Reads the version from the header.
    pub fn version(&self) -> (version: u16)
        requires
            self.wf(),
        ensures
            version == u16_at(self@, 8),
            version == 0,
    {
        read_u16(self.buffer, VERSION_OFFSET)
    }

    /// Reads the code segment info from the header.
    pub fn code_info(&self) -> (info: SegmentInfo)
        requires
            self.wf(),
        ensures
            info == segment_info_at(self@, 10),
    {
        read_segment_info(self.buffer, CODE_INFO_OFFSET)
    }

    /// Reads the rodata segment info from the header.
    pub fn rodata_info(&self) -> (info: SegmentInfo)
        requires
            self.wf(),
        ensures
            info == segment_info_at(self@, 34),
    {
        read_segment_info(self.buffer, RODATA_INFO_OFFSET)
    }

    /// Reads the rwdata segment info from the header.
    pub fn rwdata_info(&self) -> (info: SegmentInfo)
        requires
            self.wf(),
        ensures
            info == segment_info_at(self@, 58),
    {
        read_segment_info(self.buffer, RWDATA_INFO_OFFSET)
    }

    /// The bytes that a descriptor names, if they lie within the image.
    pub fn segment(&self, info: SegmentInfo) -> (result: Result<&'a [u8], Error>)
        ensures
            segment_outcome(self@, info, result),
    {
        let length: usize = self.buffer.len();
        if info.start > length as u64 || info.size > length as u64 - info.start {
            return Err(
                Error::SegmentBounds { start: info.start, size: info.size, actual_length: length },
            );
        }
        let start: usize = info.start as usize;
        let size: usize = info.size as usize;
        Ok(vstd::slice::slice_subrange(self.buffer, start, start + size))
    }

    /// The code segment: the bytes that the first descriptor names.
    pub fn code(&self) -> (result: Result<&'a [u8], Error>)
        requires
            self.wf(),
        ensures
            segment_outcome(self@, segment_info_at(self@, 10), result),
    {
        let info = self.code_info();
        self.segment(info)
    }

    /// The rodata segment: the bytes that the second descriptor names.
    pub fn rodata(&self) -> (result: Result<&'a [u8], Error>)
        requires
            self.wf(),
        ensures
            segment_outcome(self@, segment_info_at(self@, 34), result),
    {
        let info = self.rodata_info();
        self.segment(info)
    }

    /// The rwdata segment: the bytes that the third descriptor names.
    pub fn rwdata(&self) -> (result: Result<&'a [u8], Error>)
        requires
            self.wf(),
        ensures
            segment_outcome(self@, segment_info_at(self@, 58), result),
    {
        let info = self.rwdata_info();
        self.segment(info)
    }

    /// Checks that the three segments lie within the image. Fails with the
    /// first, in the order code, read-only data, read-write data, that
    /// does not.
    pub fn check_segments(&self) -> (result: Result<(), Error>)
        requires
            self.wf(),
        ensures
            match result {
                Ok(()) => complete_image(self@),
                Err(error) => !complete_image(self@) && image_error(self@, error),
            },
    {
        match self.code() {
            Ok(_) => {},
            Err(error) => {
                return Err(error);
            },
        }
        match self.rodata() {
            Ok(_) => {},
            Err(error) => {
                return Err(error);
            },
        }
        match self.rwdata() {
            Ok(_) => Ok(()),
            Err(error) => Err(error),
        }
    }
}

} // verus!
