//! Device-path utilities over raw bytes.
//!
//! A device path is a packed sequence of nodes. Each node starts with a
//! four-byte header: a type byte, a sub-type byte and a little-endian
//! 16-bit total node length of at least four; the rest of the node is
//! type-specific data. A path is terminated by a node whose type is the end
//! type. A malformed path (a header or node running past the buffer, or a
//! length under four) is rejected with a typed error.

use vstd::prelude::*;

use vstd::string::StringSliceAdditionalSpecFns;

use crate::error::EfiError;

verus! {

/// Node type: hardware device path.
pub const TYPE_HARDWARE: u8 = 0x01;

/// Node type: ACPI device path.
pub const TYPE_ACPI: u8 = 0x02;

/// Node type: messaging device path.
pub const TYPE_MESSAGING: u8 = 0x03;

/// Node type: media device path.
pub const TYPE_MEDIA: u8 = 0x04;

/// Node type: BIOS boot-specification device path.
pub const TYPE_BIOS: u8 = 0x05;

/// Node type: end of device path.
pub const TYPE_END: u8 = 0x7f;

/// End-node sub-type closing one path instance.
pub const END_SUBTYPE_INSTANCE: u8 = 0x01;

/// End-node sub-type closing the entire path.
pub const END_SUBTYPE_ENTIRE: u8 = 0xff;

/// Hardware sub-type: PCI.
pub const HW_SUBTYPE_PCI: u8 = 0x01;

/// Hardware sub-type: PC card.
pub const HW_SUBTYPE_PCCARD: u8 = 0x02;

/// Hardware sub-type: memory mapped.
pub const HW_SUBTYPE_MMAP: u8 = 0x03;

/// Hardware sub-type: vendor defined.
pub const HW_SUBTYPE_VENDOR: u8 = 0x04;

/// Hardware sub-type: controller.
pub const HW_SUBTYPE_CONTROLLER: u8 = 0x05;

/// Hardware sub-type: baseboard management controller.
pub const HW_SUBTYPE_BMC: u8 = 0x06;

/// Media sub-type: hard drive.
pub const MEDIA_SUBTYPE_HARDDRIVE: u8 = 0x01;

/// Media sub-type: CD-ROM.
pub const MEDIA_SUBTYPE_CDROM: u8 = 0x02;

/// Media sub-type: vendor defined.
pub const MEDIA_SUBTYPE_VENDOR: u8 = 0x03;

/// Media sub-type: file path.
pub const MEDIA_SUBTYPE_FILE_PATH: u8 = 0x04;

/// Media sub-type: media protocol.
pub const MEDIA_SUBTYPE_MEDIA_PROTOCOL: u8 = 0x05;

/// Media sub-type: firmware file.
pub const MEDIA_SUBTYPE_PIWG_FIRMWARE_FILE: u8 = 0x06;

/// Media sub-type: firmware volume.
pub const MEDIA_SUBTYPE_PIWG_FIRMWARE_VOLUME: u8 = 0x07;

/// Media sub-type: relative offset range.
pub const MEDIA_SUBTYPE_RELATIVE_OFFSET_RANGE: u8 = 0x08;

/// Media sub-type: RAM disk.
pub const MEDIA_SUBTYPE_RAM_DISK: u8 = 0x09;

/// The total length of the node at `off`, read from its header.
pub open spec fn node_len(bytes: Seq<u8>, off: int) -> int {
    bytes[off + 2] + 0x100 * bytes[off + 3]
}

/// The node at `off` has a complete header, a length of at least four, and
/// lies entirely within the buffer.
pub open spec fn node_ok(bytes: Seq<u8>, off: int) -> bool {
    &&& 0 <= off
    &&& off + 4 <= bytes.len()
    &&& node_len(bytes, off) >= 4
    &&& off + node_len(bytes, off) <= bytes.len()
}

/// The bytes at `off` begin an end-of-entire-path node.
pub open spec fn is_end_at(bytes: Seq<u8>, off: int) -> bool {
    &&& 0 <= off
    &&& off + 2 <= bytes.len()
    &&& bytes[off] == TYPE_END
    &&& bytes[off + 1] == END_SUBTYPE_ENTIRE
}

/// The node count and byte size of the path starting at `off`, terminating
/// end node included, or nothing if the path is malformed. The walk stops
/// at the first node with the end type.
pub open spec fn spec_node_count(bytes: Seq<u8>, off: int) -> Option<(int, int)>
    decreases bytes.len() - off,
{
    if !node_ok(bytes, off) {
        None
    } else if bytes[off] == TYPE_END {
        Some((1, node_len(bytes, off)))
    } else {
        match spec_node_count(bytes, off + node_len(bytes, off)) {
            Some((c, s)) => Some((c + 1, s + node_len(bytes, off))),
            None => None,
        }
    }
}

/// A well-formed path spans at least its end node and fits its buffer.
pub proof fn lemma_node_count_bounds(bytes: Seq<u8>, off: int)
    requires
        spec_node_count(bytes, off) is Some,
    ensures
        ({
            let (c, s) = spec_node_count(bytes, off).unwrap();
            1 <= c && 4 <= s && off + s <= bytes.len() && 0 <= off
        }),
    decreases bytes.len() - off,
{
    if node_ok(bytes, off) && bytes[off] != TYPE_END {
        lemma_node_count_bounds(bytes, off + node_len(bytes, off));
    }
}

/// Returns the count of nodes and size in bytes of the device path held in
/// `path`, both including the terminating end node, or an error if the path
/// is malformed.
pub fn device_path_node_count(path: &[u8]) -> (r: Result<(usize, usize), EfiError>)
    ensures
        match spec_node_count(path@, 0) {
            Some((c, s)) => r == Ok::<(usize, usize), EfiError>((c as usize, s as usize)),
            None => r == Err::<(usize, usize), EfiError>(EfiError::InvalidParameter),
        },
{
    let mut off: usize = 0;
    let mut count: usize = 0;
    loop
        invariant
            off <= path@.len(),
            count <= off,
            match spec_node_count(path@, off as int) {
                Some((c, s)) => spec_node_count(path@, 0) == Some((count + c, off + s)),
                None => spec_node_count(path@, 0) is None,
            },
        decreases path@.len() - off,
    {
        if path.len() - off < 4 {
            return Err(EfiError::InvalidParameter);
        }
        let len: usize = (path[off + 2] as usize) + 0x100 * (path[off + 3] as usize);
        if len < 4 || len > path.len() - off {
            return Err(EfiError::InvalidParameter);
        }
        if path[off] == TYPE_END {
            return Ok((count + 1, off + len));
        }
        count = count + 1;
        off = off + len;
    }
}

/// Whether the bytes at `offset` begin an end-of-entire-path node.
pub fn is_device_path_end(path: &[u8], offset: usize) -> (r: bool)
    ensures
        r == is_end_at(path@, offset as int),
{
    if path.len() < 2 || offset > path.len() - 2 {
        false
    } else {
        path[offset] == TYPE_END && path[offset + 1] == END_SUBTYPE_ENTIRE
    }
}

/// Whether `len` bytes of `a` starting at `ao` equal the same span of `b`
/// starting at `bo`.
fn ranges_equal(a: &[u8], ao: usize, b: &[u8], bo: usize, len: usize) -> (r: bool)
    requires
        ao + len <= a@.len(),
        bo + len <= b@.len(),
    ensures
        r == (a@.subrange(ao as int, ao as int + len as int) == b@.subrange(
            bo as int,
            bo as int + len as int,
        )),
{
    let ghost s1 = a@.subrange(ao as int, ao as int + len as int);
    let ghost s2 = b@.subrange(bo as int, bo as int + len as int);
    let an: usize = a.len();
    let bn: usize = b.len();
    let mut q: usize = 0;
    while q < len
        invariant
            q <= len,
            ao + len <= a@.len(),
            bo + len <= b@.len(),
            a@.len() == an,
            b@.len() == bn,
            s1 == a@.subrange(ao as int, ao as int + len as int),
            s2 == b@.subrange(bo as int, bo as int + len as int),
            forall|t: int| 0 <= t < q ==> #[trigger] a@[ao + t] == b@[bo + t],
        decreases len - q,
    {
        if a[ao + q] != b[bo + q] {
            proof {
                assert(s1[q as int] == a@[ao + q]);
                assert(s2[q as int] == b@[bo + q]);
            }
            return false;
        }
        q = q + 1;
    }
    proof {
        assert forall|t: int| 0 <= t < len implies s1[t] == s2[t] by {
            assert(s1[t] == a@[ao + t]);
            assert(s2[t] == b@[bo + t]);
        }
        assert(s1 =~= s2);
    }
    true
}

/// The remaining part of path `b` after removing the prefix `a`, as an
/// offset into `b`, together with the number of nodes the two paths have in
/// common (the terminating end node not counted). Nothing if `a` is not a
/// prefix of `b`; an error if a node of either path is malformed before the
/// answer is settled.
pub open spec fn spec_remaining(a: Seq<u8>, b: Seq<u8>, ao: int, bo: int) -> Option<
    Option<(int, int)>,
>
    decreases a.len() - ao,
{
    if !(0 <= ao && ao + 2 <= a.len()) {
        None
    } else if a[ao] == TYPE_END && a[ao + 1] == END_SUBTYPE_ENTIRE {
        Some(Some((bo, 0)))
    } else if !node_ok(a, ao) || !node_ok(b, bo) {
        None
    } else if node_len(a, ao) != node_len(b, bo) || a.subrange(ao, ao + node_len(a, ao))
        != b.subrange(bo, bo + node_len(b, bo)) {
        Some(None)
    } else {
        match spec_remaining(a, b, ao + node_len(a, ao), bo + node_len(b, bo)) {
            Some(Some((o, n))) => Some(Some((o, n + 1))),
            x => x,
        }
    }
}

/// Computes the remaining device path of `b` after the prefix `a`, and the
/// number of nodes in common.
///
/// If `a` is a prefix of or identical to `b`, the result is the byte offset
/// in `b` of the first node past the prefix, with the count of nodes in
/// common, the terminating end node not counted. If `a` is not a prefix of
/// `b`, the result is `None`. A malformed node met on the way is an error.
pub fn remaining_device_path(a: &[u8], b: &[u8]) -> (r: Result<Option<(usize, usize)>, EfiError>)
    ensures
        match spec_remaining(a@, b@, 0, 0) {
            Some(Some((o, n))) => r == Ok::<Option<(usize, usize)>, EfiError>(
                Some((o as usize, n as usize)),
            ),
            Some(None) => r == Ok::<Option<(usize, usize)>, EfiError>(None),
            None => r == Err::<Option<(usize, usize)>, EfiError>(EfiError::InvalidParameter),
        },
{
    let mut ao: usize = 0;
    let mut bo: usize = 0;
    let mut n: usize = 0;
    loop
        invariant
            ao <= a@.len(),
            bo <= b@.len(),
            n <= ao,
            match spec_remaining(a@, b@, ao as int, bo as int) {
                Some(Some((o, m))) => spec_remaining(a@, b@, 0, 0) == Some(Some((o, m + n))),
                Some(None) => spec_remaining(a@, b@, 0, 0) == Some(None::<(int, int)>),
                None => spec_remaining(a@, b@, 0, 0) is None,
            },
        decreases a@.len() - ao,
    {
        if a.len() - ao < 2 {
            return Err(EfiError::InvalidParameter);
        }
        if a[ao] == TYPE_END && a[ao + 1] == END_SUBTYPE_ENTIRE {
            return Ok(Some((bo, n)));
        }
        if a.len() - ao < 4 {
            return Err(EfiError::InvalidParameter);
        }
        let alen: usize = (a[ao + 2] as usize) + 0x100 * (a[ao + 3] as usize);
        if alen < 4 || alen > a.len() - ao {
            return Err(EfiError::InvalidParameter);
        }
        if b.len() - bo < 4 {
            return Err(EfiError::InvalidParameter);
        }
        let blen: usize = (b[bo + 2] as usize) + 0x100 * (b[bo + 3] as usize);
        if blen < 4 || blen > b.len() - bo {
            return Err(EfiError::InvalidParameter);
        }
        if alen != blen {
            return Ok(None);
        }
        if !ranges_equal(a, ao, b, bo, alen) {
            return Ok(None);
        }
        n = n + 1;
        ao = ao + alen;
        bo = bo + blen;
    }
}

/// Copies the device path held in `path` into an owned byte vector, or
/// reports a malformed path.
pub fn copy_device_path_to_vec(path: &[u8]) -> (r: Result<Vec<u8>, EfiError>)
    ensures
        match spec_node_count(path@, 0) {
            Some((c, s)) => r matches Ok(v) && v@ == path@.subrange(0, s),
            None => r == Err::<Vec<u8>, EfiError>(EfiError::InvalidParameter),
        },
{
    let size = match device_path_node_count(path) {
        Ok(cs) => cs.1,
        Err(e) => {
            return Err(e);
        },
    };
    let n: usize = path.len();
    proof {
        lemma_node_count_bounds(path@, 0);
        assert(size as int == spec_node_count(path@, 0).unwrap().1);
    }
    let mut out: Vec<u8> = Vec::new();
    let mut i: usize = 0;
    while i < size
        invariant
            i <= size,
            size <= path@.len(),
            path@.len() == n,
            out@ == path@.subrange(0, i as int),
        decreases size - i,
    {
        out.push(path[i]);
        proof {
            assert(out@ =~= path@.subrange(0, i + 1));
        }
        i = i + 1;
    }
    Ok(out)
}

/// Produces the concatenation of the two device paths: all of `a` but its
/// terminating end node, followed by all of `b`. Either path malformed is
/// an error.
pub fn concat_device_path_to_vec(a: &[u8], b: &[u8]) -> (r: Result<Vec<u8>, EfiError>)
    ensures
        match (spec_node_count(a@, 0), spec_node_count(b@, 0)) {
            (Some((ac, asz)), Some((bc, bsz))) => r matches Ok(v) && v@ == a@.subrange(0, asz - 4)
                + b@.subrange(0, bsz),
            _ => r == Err::<Vec<u8>, EfiError>(EfiError::InvalidParameter),
        },
{
    let a_size = match device_path_node_count(a) {
        Ok(cs) => cs.1,
        Err(e) => {
            return Err(e);
        },
    };
    let b_size = match device_path_node_count(b) {
        Ok(cs) => cs.1,
        Err(e) => {
            return Err(e);
        },
    };
    let na: usize = a.len();
    let nb: usize = b.len();
    proof {
        lemma_node_count_bounds(a@, 0);
        lemma_node_count_bounds(b@, 0);
        assert(a_size as int == spec_node_count(a@, 0).unwrap().1);
        assert(b_size as int == spec_node_count(b@, 0).unwrap().1);
    }
    let mut out: Vec<u8> = Vec::new();
    let mut i: usize = 0;
    while i < a_size - 4
        invariant
            a_size >= 4,
            a_size <= a@.len(),
            a@.len() == na,
            i <= a_size - 4,
            out@ == a@.subrange(0, i as int),
        decreases a_size - i,
    {
        out.push(a[i]);
        proof {
            assert(out@ =~= a@.subrange(0, i + 1));
        }
        i = i + 1;
    }
    let mut j: usize = 0;
    while j < b_size
        invariant
            a_size >= 4,
            a_size <= a@.len(),
            b_size <= b@.len(),
            b@.len() == nb,
            j <= b_size,
            out@ == a@.subrange(0, a_size - 4) + b@.subrange(0, j as int),
        decreases b_size - j,
    {
        out.push(b[j]);
        proof {
            assert(out@ =~= a@.subrange(0, a_size - 4) + b@.subrange(0, j + 1));
        }
        j = j + 1;
    }
    Ok(out)
}

/// One device-path node, copied out of a path buffer: its header fields and
/// its type-specific data.
#[derive(Clone, Debug, PartialEq, Eq)]
pub struct DevicePathNode {
    /// The node's type byte.
    pub node_type: u8,
    /// The node's sub-type byte.
    pub sub_type: u8,
    /// The node's total length in bytes, data and header included.
    pub length: u16,
    /// The node's type-specific data.
    pub data: Vec<u8>,
}

impl DevicePathNode {
    /// Copies the node starting at `offset` out of `path`, or nothing if no
    /// well-formed node starts there.
    pub fn new(path: &[u8], offset: usize) -> (r: Option<DevicePathNode>)
        ensures
            match r {
                Some(n) => {
                    &&& node_ok(path@, offset as int)
                    &&& n.node_type == path@[offset as int]
                    &&& n.sub_type == path@[offset as int + 1]
                    &&& n.length == node_len(path@, offset as int)
                    &&& n.data@ == path@.subrange(
                        offset as int + 4,
                        offset as int + node_len(path@, offset as int),
                    )
                },
                None => !node_ok(path@, offset as int),
            },
    {
        if path.len() < 4 || offset > path.len() - 4 {
            return None;
        }
        let len: usize = (path[offset + 2] as usize) + 0x100 * (path[offset + 3] as usize);
        if len < 4 || len > path.len() - offset {
            return None;
        }
        let n: usize = path.len();
        let mut data: Vec<u8> = Vec::new();
        let mut i: usize = 4;
        while i < len
            invariant
                4 <= i <= len,
                offset + len <= path@.len(),
                path@.len() == n,
                data@ == path@.subrange(offset as int + 4, offset as int + i as int),
            decreases len - i,
        {
            data.push(path[offset + i]);
            proof {
                assert(data@ =~= path@.subrange(offset as int + 4, offset as int + i + 1));
            }
            i = i + 1;
        }
        Some(
            DevicePathNode {
                node_type: path[offset],
                sub_type: path[offset + 1],
                length: len as u16,
                data,
            },
        )
    }

    /// The node's header: its type and sub-type bytes.
    pub fn header(&self) -> (h: (u8, u8))
        ensures
            h.0 == self.node_type,
            h.1 == self.sub_type,
    {
        (self.node_type, self.sub_type)
    }

    /// The node's type-specific data.
    pub fn data(&self) -> (d: &Vec<u8>)
        ensures
            d@ == self.data@,
    {
        &self.data
    }

    /// The node's total length in bytes.
    pub fn len(&self) -> (l: u16)
        ensures
            l == self.length,
    {
        self.length
    }
}

/// Walks the nodes of a device path, copying each out in turn. The walk
/// yields the terminating end node last; a malformed node stops it without
/// advancing.
pub struct DevicePathWalker {
    /// The offset of the next node to yield, or nothing once the end node
    /// has been yielded.
    pub next_offset: Option<usize>,
}

impl DevicePathWalker {
    /// A walker positioned at the start of a path.
    pub fn new() -> (w: DevicePathWalker)
        ensures
            w.next_offset == Some(0usize),
    {
        DevicePathWalker { next_offset: Some(0) }
    }

    /// The next node of `path`, advancing past it; nothing once the end
    /// node has been yielded or when the next node is malformed.
    pub fn next(&mut self, path: &[u8]) -> (r: Option<DevicePathNode>)
        ensures
            match old(self).next_offset {
                None => r is None && final(self).next_offset is None,
                Some(off) => {
                    if node_ok(path@, off as int) {
                        &&& r matches Some(n)
                        &&& n.node_type == path@[off as int]
                        &&& n.sub_type == path@[off as int + 1]
                        &&& n.length == node_len(path@, off as int)
                        &&& n.data@ == path@.subrange(
                            off as int + 4,
                            off as int + node_len(path@, off as int),
                        )
                        &&& final(self).next_offset == (if is_end_at(path@, off as int) {
                            None::<usize>
                        } else {
                            Some((off + node_len(path@, off as int)) as usize)
                        })
                    } else {
                        r is None && final(self).next_offset == old(self).next_offset
                    }
                },
            },
    {
        let off = match self.next_offset {
            Some(o) => o,
            None => {
                return None;
            },
        };
        let node = match DevicePathNode::new(path, off) {
            Some(n) => n,
            None => {
                return None;
            },
        };
        let len: usize = node.len() as usize;
        let n: usize = path.len();
        proof {
            assert(off + len <= n);
        }
        if is_device_path_end(path, off) {
            self.next_offset = None;
        } else {
            self.next_offset = Some(off + len);
        }
        Some(node)
    }
}

/// A short name for the node's type and sub-type, for diagnostics.
pub open spec fn spec_subtype_str(node_type: u8, sub_type: u8) -> &'static str {
    if node_type == TYPE_HARDWARE {
        if sub_type == HW_SUBTYPE_PCI {
            "Pci"
        } else if sub_type == HW_SUBTYPE_PCCARD {
            "PcCard"
        } else if sub_type == HW_SUBTYPE_MMAP {
            "MemMap"
        } else if sub_type == HW_SUBTYPE_VENDOR {
            "Vendor"
        } else if sub_type == HW_SUBTYPE_CONTROLLER {
            "Controller"
        } else if sub_type == HW_SUBTYPE_BMC {
            "Bmc"
        } else {
            "UnknownHardware"
        }
    } else if node_type == TYPE_ACPI {
        "Acpi"
    } else if node_type == TYPE_MESSAGING {
        "Msg"
    } else if node_type == TYPE_BIOS {
        "Bios"
    } else if node_type == TYPE_MEDIA {
        if sub_type == MEDIA_SUBTYPE_HARDDRIVE {
            "HardDrive"
        } else if sub_type == MEDIA_SUBTYPE_CDROM {
            "CdRom"
        } else if sub_type == MEDIA_SUBTYPE_VENDOR {
            "Vendor"
        } else if sub_type == MEDIA_SUBTYPE_FILE_PATH {
            "FilePath"
        } else if sub_type == MEDIA_SUBTYPE_MEDIA_PROTOCOL {
            "MediaProtocol"
        } else if sub_type == MEDIA_SUBTYPE_PIWG_FIRMWARE_FILE {
            "FirmwareFile"
        } else if sub_type == MEDIA_SUBTYPE_PIWG_FIRMWARE_VOLUME {
            "FirmwareVolume"
        } else if sub_type == MEDIA_SUBTYPE_RELATIVE_OFFSET_RANGE {
            "RelativeOffsetRange"
        } else if sub_type == MEDIA_SUBTYPE_RAM_DISK {
            "RamDisk"
        } else {
            "UnknownMedia"
        }
    } else if node_type == TYPE_END {
        if sub_type == END_SUBTYPE_INSTANCE {
            "EndInstance"
        } else if sub_type == END_SUBTYPE_ENTIRE {
            "EndEntire"
        } else {
            "UnknownEnd"
        }
    } else {
        "UnknownType"
    }
}

/// A short name for a node's type and sub-type, for diagnostics.
pub fn protocol_to_subtype_str(node_type: u8, sub_type: u8) -> (s: &'static str)
    ensures
        s == spec_subtype_str(node_type, sub_type),
{
    if node_type == TYPE_HARDWARE {
        if sub_type == HW_SUBTYPE_PCI {
            "Pci"
        } else if sub_type == HW_SUBTYPE_PCCARD {
            "PcCard"
        } else if sub_type == HW_SUBTYPE_MMAP {
            "MemMap"
        } else if sub_type == HW_SUBTYPE_VENDOR {
            "Vendor"
        } else if sub_type == HW_SUBTYPE_CONTROLLER {
            "Controller"
        } else if sub_type == HW_SUBTYPE_BMC {
            "Bmc"
        } else {
            "UnknownHardware"
        }
    } else if node_type == TYPE_ACPI {
        "Acpi"
    } else if node_type == TYPE_MESSAGING {
        "Msg"
    } else if node_type == TYPE_BIOS {
        "Bios"
    } else if node_type == TYPE_MEDIA {
        if sub_type == MEDIA_SUBTYPE_HARDDRIVE {
            "HardDrive"
        } else if sub_type == MEDIA_SUBTYPE_CDROM {
            "CdRom"
        } else if sub_type == MEDIA_SUBTYPE_VENDOR {
            "Vendor"
        } else if sub_type == MEDIA_SUBTYPE_FILE_PATH {
            "FilePath"
        } else if sub_type == MEDIA_SUBTYPE_MEDIA_PROTOCOL {
            "MediaProtocol"
        } else if sub_type == MEDIA_SUBTYPE_PIWG_FIRMWARE_FILE {
            "FirmwareFile"
        } else if sub_type == MEDIA_SUBTYPE_PIWG_FIRMWARE_VOLUME {
            "FirmwareVolume"
        } else if sub_type == MEDIA_SUBTYPE_RELATIVE_OFFSET_RANGE {
            "RelativeOffsetRange"
        } else if sub_type == MEDIA_SUBTYPE_RAM_DISK {
            "RamDisk"
        } else {
            "UnknownMedia"
        }
    } else if node_type == TYPE_END {
        if sub_type == END_SUBTYPE_INSTANCE {
            "EndInstance"
        } else if sub_type == END_SUBTYPE_ENTIRE {
            "EndEntire"
        } else {
            "UnknownEnd"
        }
    } else {
        "UnknownType"
    }
}

/// The lowercase hexadecimal digit for `n`.
pub open spec fn spec_hex_digit(n: u8) -> u8 {
    if n < 10 {
        (0x30 + n) as u8
    } else {
        (0x57 + n) as u8
    }
}

/// One byte rendered as `0x` followed by two lowercase hexadecimal digits.
pub open spec fn spec_hex_byte(b: u8) -> Seq<u8> {
    seq![0x30u8, 0x78u8, spec_hex_digit(b / 16), spec_hex_digit(b % 16)]
}

/// A node's data bytes from position `i` on, each rendered in hexadecimal,
/// separated by commas.
pub open spec fn spec_render_data(data: Seq<u8>, i: int) -> Seq<u8>
    decreases data.len() - i,
{
    if i < 0 || i >= data.len() {
        Seq::empty()
    } else {
        let sep: Seq<u8> = if i > 0 {
            seq![0x2cu8]
        } else {
            Seq::empty()
        };
        sep + spec_hex_byte(data[i]) + spec_render_data(data, i + 1)
    }
}

/// One node's rendered segment: its kind name, then a colon, its data in
/// hexadecimal and a closing slash when it carries data.
pub open spec fn spec_render_node(t: u8, s: u8, data: Seq<u8>) -> Seq<u8> {
    let name = spec_subtype_str(t, s).spec_bytes();
    if data.len() == 0 {
        name
    } else {
        name + seq![0x3au8, 0x20u8] + spec_render_data(data, 0) + seq![0x2fu8]
    }
}

/// The rendered form of the device path starting at `off`: the segments of
/// its nodes in order, up to but not including the terminating end node.
/// A malformed node ends the rendering.
pub open spec fn spec_render(bytes: Seq<u8>, off: int) -> Seq<u8>
    decreases bytes.len() - off,
{
    if !node_ok(bytes, off) {
        Seq::empty()
    } else if is_end_at(bytes, off) {
        Seq::empty()
    } else {
        spec_render_node(
            bytes[off],
            bytes[off + 1],
            bytes.subrange(off + 4, off + node_len(bytes, off)),
        ) + spec_render(bytes, off + node_len(bytes, off))
    }
}

/// The lowercase hexadecimal digit for `n`.
fn hex_digit(n: u8) -> (d: u8)
    requires
        n < 16,
    ensures
        d == spec_hex_digit(n),
{
    if n < 10 {
        0x30 + n
    } else {
        0x57 + n
    }
}

/// Appends the bytes of `s` to `out`.
fn append_str_bytes(out: &mut Vec<u8>, s: &str)
    ensures
        final(out)@ == old(out)@ + s.spec_bytes(),
{
    let bytes = s.as_bytes();
    let n: usize = bytes.len();
    let mut i: usize = 0;
    while i < n
        invariant
            i <= n,
            bytes@ == s.spec_bytes(),
            bytes@.len() == n,
            out@ == old(out)@ + s.spec_bytes().subrange(0, i as int),
        decreases n - i,
    {
        out.push(bytes[i]);
        proof {
            assert(out@ =~= old(out)@ + s.spec_bytes().subrange(0, i + 1));
        }
        i = i + 1;
    }
    proof {
        assert(s.spec_bytes().subrange(0, n as int) =~= s.spec_bytes());
    }
}

/// Renders a device path as human-readable bytes, one segment per node: the
/// node's kind name and, when it carries data, the data in hexadecimal.
/// Rendering stops at the terminating end node, or at the first malformed
/// node.
pub fn render_device_path(path: &[u8]) -> (out: Vec<u8>)
    ensures
        out@ == spec_render(path@, 0),
{
    let mut out: Vec<u8> = Vec::new();
    let mut off: usize = 0;
    loop
        invariant
            off <= path@.len(),
            out@ + spec_render(path@, off as int) == spec_render(path@, 0),
        decreases path@.len() - off,
    {
        if path.len() - off < 4 {
            return out;
        }
        let len: usize = (path[off + 2] as usize) + 0x100 * (path[off + 3] as usize);
        if len < 4 || len > path.len() - off {
            return out;
        }
        if path[off] == TYPE_END && path[off + 1] == END_SUBTYPE_ENTIRE {
            return out;
        }
        let ghost data = path@.subrange(off as int + 4, off as int + len as int);
        let ghost out_node = out@;
        let name = protocol_to_subtype_str(path[off], path[off + 1]);
        append_str_bytes(&mut out, name);
        if len > 4 {
            out.push(0x3a);
            out.push(0x20);
            proof {
                assert(out@ =~= out_node + name.spec_bytes() + seq![0x3au8, 0x20u8]);
            }
            let ghost out_data = out@;
            let mut q: usize = 4;
            while q < len
                invariant
                    4 <= q <= len,
                    off + len <= path@.len(),
                    len <= path@.len(),
                    path@.len() <= usize::MAX,
                    data == path@.subrange(off as int + 4, off as int + len as int),
                    data.len() == len - 4,
                    out_data + spec_render_data(data, 0) == out@ + spec_render_data(
                        data,
                        q as int - 4,
                    ),
                decreases len - q,
            {
                if q > 4 {
                    out.push(0x2c);
                }
                let b = path[off + q];
                proof {
                    assert(data[q as int - 4] == b);
                }
                out.push(0x30);
                out.push(0x78);
                out.push(hex_digit(b / 16));
                out.push(hex_digit(b % 16));
                proof {
                    let sep: Seq<u8> = if q > 4 {
                        seq![0x2cu8]
                    } else {
                        Seq::empty()
                    };
                    assert(spec_render_data(data, q as int - 4) == sep + spec_hex_byte(
                        data[q as int - 4],
                    ) + spec_render_data(data, q as int - 3));
                    assert(out_data + spec_render_data(data, 0) =~= out@ + spec_render_data(
                        data,
                        q as int - 3,
                    ));
                }
                q = q + 1;
            }
            out.push(0x2f);
            proof {
                assert(spec_render_data(data, len as int - 4) == Seq::<u8>::empty());
                assert(out@ =~= out_node + spec_render_node(
                    path@[off as int],
                    path@[off as int + 1],
                    data,
                ));
            }
        } else {
            proof {
                assert(data.len() == 0);
                assert(out@ =~= out_node + spec_render_node(
                    path@[off as int],
                    path@[off as int + 1],
                    data,
                ));
            }
        }
        proof {
            assert(spec_render(path@, off as int) == spec_render_node(
                path@[off as int],
                path@[off as int + 1],
                data,
            ) + spec_render(path@, off as int + len as int));
            assert(out@ + spec_render(path@, off as int + len as int) =~= spec_render(path@, 0));
        }
        off = off + len;
    }
}

} // verus!
