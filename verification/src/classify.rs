//! Recognises Windows executables by their bytes alone.
//!
//! A file is a portable executable when it starts with the DOS signature,
//! the little-endian offset stored at byte `0x3C` leads to the `PE\0\0`
//! signature, and the header that follows is complete. It is a library
//! rather than a program when bit `0x2000` of the header's characteristics
//! is set.

use vstd::prelude::*;

verus! {

/// Length of the DOS header that is read first.
pub const DOS_HEADER_LEN: usize = 64;

/// Length of the part of the portable-executable header that is read.
pub const PE_HEADER_LEN: usize = 24;

/// The little-endian 32-bit number stored in `b` at `at`.
pub open spec fn le_u32_at(b: Seq<u8>, at: int) -> int {
    b[at] + 256 * b[at + 1] + 65536 * b[at + 2] + 16777216 * b[at + 3]
}

/// `b` is a DOS header: 64 bytes or more that begin with `MZ`.
pub open spec fn has_dos_signature(b: Seq<u8>) -> bool {
    b.len() >= 64 && b[0] == 0x4D && b[1] == 0x5A
}

/// The offset of the portable-executable header that a DOS header names.
pub open spec fn pe_offset(b: Seq<u8>) -> int {
    le_u32_at(b, 0x3C)
}

/// `h` is a complete header that begins with `PE\0\0`.
pub open spec fn has_pe_signature(h: Seq<u8>) -> bool {
    h.len() >= 24 && h[0] == 0x50 && h[1] == 0x45 && h[2] == 0 && h[3] == 0
}

/// The little-endian characteristics field at offset 22 of a header.
pub open spec fn characteristics(h: Seq<u8>) -> u16 {
    (h[22] as u16) | ((h[23] as u16) << 8)
}

/// The header describes a dynamic library.
pub open spec fn is_dll_header(h: Seq<u8>) -> bool {
    characteristics(h) & 0x2000 != 0
}

/// The header is that of a program: signed and no library.
pub open spec fn is_program_header(h: Seq<u8>) -> bool {
    has_pe_signature(h) && !is_dll_header(h)
}

/// The whole file is a Windows program.
pub open spec fn is_program_image(content: Seq<u8>) -> bool {
    &&& has_dos_signature(content)
    &&& pe_offset(content) + 24 <= content.len()
    &&& is_program_header(content.subrange(pe_offset(content), pe_offset(content) + 24))
}

/// Where the portable-executable header starts, read from the first 64
/// bytes of a file; `None` when these are no DOS header.
pub fn pe_header_offset(dos_header: &[u8]) -> (r: Option<u64>)
    ensures
        has_dos_signature(dos_header@) ==> r == Some(pe_offset(dos_header@) as u64),
        !has_dos_signature(dos_header@) ==> r is None,
{
    if dos_header.len() < DOS_HEADER_LEN || dos_header[0] != 0x4D || dos_header[1] != 0x5A {
        return None;
    }
    let b0: u64 = dos_header[0x3C] as u64;
    let b1: u64 = dos_header[0x3D] as u64;
    let b2: u64 = dos_header[0x3E] as u64;
    let b3: u64 = dos_header[0x3F] as u64;
    Some(b0 + 256 * b1 + 65536 * b2 + 16777216 * b3)
}

/// Whether the 24 bytes read at the header offset are the header of a
/// program; a short or unsigned header is none.
pub fn is_executable_header(pe_header: &[u8]) -> (r: bool)
    ensures
        r == is_program_header(pe_header@),
{
    if pe_header.len() < PE_HEADER_LEN {
        return false;
    }
    if pe_header[0] != 0x50 || pe_header[1] != 0x45 || pe_header[2] != 0 || pe_header[3] != 0 {
        return false;
    }
    let flags: u16 = (pe_header[22] as u16) | ((pe_header[23] as u16) << 8);
    (flags & 0x2000) == 0
}

/// Whether a file with this content is a Windows program and no library.
/// Truncated files and files of another kind are none.
pub fn is_windows_executable(content: &[u8]) -> (r: bool)
    ensures
        r == is_program_image(content@),
{
    match pe_header_offset(content) {
        None => false,
        Some(offset) => {
            if offset > usize::MAX as u64 {
                return false;
            }
            let start: usize = offset as usize;
            if start > content.len() || content.len() - start < PE_HEADER_LEN {
                return false;
            }
            let header = vstd::slice::slice_subrange(content, start, start + PE_HEADER_LEN);
            is_executable_header(header)
        },
    }
}

/// What [`is_windows_executable`] decides is what the two reads decide:
/// a file shorter than a DOS header is no program; of any other, the first
/// 64 bytes give the header offset and the 24 bytes found there the answer.
pub proof fn lemma_image_by_parts(content: Seq<u8>)
    ensures
        content.len() < 64 ==> !is_program_image(content),
        content.len() >= 64 ==> (is_program_image(content) <==> {
            &&& has_dos_signature(content.take(64))
            &&& pe_offset(content.take(64)) + 24 <= content.len()
            &&& is_program_header(
                content.subrange(
                    pe_offset(content.take(64)),
                    pe_offset(content.take(64)) + 24,
                ),
            )
        }),
{
    if content.len() >= 64 {
        assert(content.take(64)[0] == content[0]);
        assert(content.take(64)[1] == content[1]);
        assert(content.take(64)[0x3C] == content[0x3C]);
        assert(content.take(64)[0x3D] == content[0x3D]);
        assert(content.take(64)[0x3E] == content[0x3E]);
        assert(content.take(64)[0x3F] == content[0x3F]);
    }
}

} // verus!
