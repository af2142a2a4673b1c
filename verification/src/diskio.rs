//! The client of the disk I/O service: block writes, reads and flushes.

use vstd::prelude::*;

pub use crate::protocol::DiskId;

verus! {

/// How the service answered.
#[derive(Debug, Clone, Copy, PartialEq, Eq, Structural)]
pub enum DiskIoRetCode {
    Success,
    DiskNotExist,
    ZoneNotExist,
    IoError,
    PartialWrite,
    InvalidAlignment,
    ConnectionError,
}

/// The code that the number `v` stands for; a number that is not known stands
/// for an I/O error.
pub open spec fn code_of(v: i16) -> DiskIoRetCode {
    if v == 0 {
        DiskIoRetCode::Success
    } else if v == 1 {
        DiskIoRetCode::DiskNotExist
    } else if v == 2 {
        DiskIoRetCode::ZoneNotExist
    } else if v == 4 {
        DiskIoRetCode::PartialWrite
    } else if v == 5 {
        DiskIoRetCode::InvalidAlignment
    } else if v == 6 {
        DiskIoRetCode::ConnectionError
    } else {
        DiskIoRetCode::IoError
    }
}

impl From<i16> for DiskIoRetCode {
    fn from(v: i16) -> (c: Self) {
        match v {
            0 => DiskIoRetCode::Success,
            1 => DiskIoRetCode::DiskNotExist,
            2 => DiskIoRetCode::ZoneNotExist,
            4 => DiskIoRetCode::PartialWrite,
            5 => DiskIoRetCode::InvalidAlignment,
            6 => DiskIoRetCode::ConnectionError,
            _ => DiskIoRetCode::IoError,
        }
    }
}

impl vstd::std_specs::convert::FromSpecImpl<i16> for DiskIoRetCode {
    open spec fn obeys_from_spec() -> bool {
        true
    }

    open spec fn from_spec(v: i16) -> Self {
        code_of(v)
    }
}

impl DiskIoRetCode {
    /// The name of the code.
    pub open spec fn name_text(self) -> Seq<char> {
        match self {
            DiskIoRetCode::Success => "Success"@,
            DiskIoRetCode::DiskNotExist => "DiskNotExist"@,
            DiskIoRetCode::ZoneNotExist => "ZoneNotExist"@,
            DiskIoRetCode::IoError => "IoError"@,
            DiskIoRetCode::PartialWrite => "PartialWrite"@,
            DiskIoRetCode::InvalidAlignment => "InvalidAlignment"@,
            DiskIoRetCode::ConnectionError => "ConnectionError"@,
        }
    }

    pub fn name(&self) -> (s: &'static str)
        ensures
            s@ == self.name_text(),
    {
        match self {
            DiskIoRetCode::Success => "Success",
            DiskIoRetCode::DiskNotExist => "DiskNotExist",
            DiskIoRetCode::ZoneNotExist => "ZoneNotExist",
            DiskIoRetCode::IoError => "IoError",
            DiskIoRetCode::PartialWrite => "PartialWrite",
            DiskIoRetCode::InvalidAlignment => "InvalidAlignment",
            DiskIoRetCode::ConnectionError => "ConnectionError",
        }
    }
}

/// Why a disk I/O call failed.
#[derive(Debug, Clone, PartialEq, Eq)]
pub enum DiskioError {
    IoError(DiskIoRetCode),
    Rpc(String),
}

impl DiskioError {
    /// What the error says.
    pub open spec fn text(self) -> Seq<char> {
        match self {
            DiskioError::IoError(c) => "disk I/O error: "@ + c.name_text(),
            DiskioError::Rpc(t) => "RPC error: "@ + t@,
        }
    }

    pub fn message(&self) -> (s: String)
        ensures
            s@ == self.text(),
    {
        match self {
            DiskioError::IoError(c) => {
                let mut s = "disk I/O error: ".to_owned();
                s.append(c.name());
                s
            },
            DiskioError::Rpc(t) => {
                let mut s = "RPC error: ".to_owned();
                s.append(t.as_str());
                s
            },
        }
    }
}

impl DiskId {
    /// The id on the wire: both halves, the high one first, each with its
    /// least significant byte first.
    pub fn to_fb(&self) -> (bytes: Vec<u8>)
        ensures
            bytes@ == vstd::bytes::spec_u64_to_le_bytes(self.high)
                + vstd::bytes::spec_u64_to_le_bytes(self.low),
            bytes@.len() == 16,
            vstd::bytes::spec_u64_from_le_bytes(bytes@.take(8)) == self.high,
            vstd::bytes::spec_u64_from_le_bytes(bytes@.skip(8)) == self.low,
    {
        let mut bytes = vstd::bytes::u64_to_le_bytes(self.high);
        let mut low = vstd::bytes::u64_to_le_bytes(self.low);
        bytes.append(&mut low);
        proof {
            vstd::bytes::lemma_auto_spec_u64_to_from_le_bytes();
            assert(bytes@.take(8) =~= vstd::bytes::spec_u64_to_le_bytes(self.high));
            assert(bytes@.skip(8) =~= vstd::bytes::spec_u64_to_le_bytes(self.low));
        }
        bytes
    }
}

/// Where a write goes.
#[derive(Debug, Clone, Copy, PartialEq, Eq, Structural)]
pub struct WriteTarget {
    pub disk_id: DiskId,
    pub zone_index: u32,
    pub zone_offset: u64,
    pub size: u32,
}

/// The target of a write of `len` bytes. Refuses what does not fit 32 bits.
pub fn write_target(disk_id: DiskId, zone_index: u32, zone_offset: u64, len: usize) -> (r: Result<
    WriteTarget,
    DiskioError,
>)
    ensures
        match r {
            Ok(t) => len <= u32::MAX && t == (WriteTarget {
                disk_id,
                zone_index,
                zone_offset,
                size: len as u32,
            }),
            Err(e) => len > u32::MAX && (e matches DiskioError::Rpc(s) && s@ == "data too large"@),
        },
{
    if len > u32::MAX as usize {
        return Err(DiskioError::Rpc("data too large".to_owned()));
    }
    Ok(WriteTarget { disk_id, zone_index, zone_offset, size: len as u32 })
}

/// What is sent to write, read or flush.
#[derive(Debug, Clone, PartialEq, Eq)]
pub struct FbDiskArgs {
    pub id: u64,
    pub rpc_create_nano: u64,
    pub disk_id: Vec<u8>,
    pub zone_index: u32,
    pub zone_offset: u64,
    pub size: u32,
    pub test_pattern_offset: u64,
}

/// The request for a write.
pub fn write_args(req_id: u64, target: &WriteTarget) -> (a: FbDiskArgs)
    ensures
        a.id == req_id,
        a.rpc_create_nano == 0,
        a.disk_id@ == vstd::bytes::spec_u64_to_le_bytes(target.disk_id.high)
            + vstd::bytes::spec_u64_to_le_bytes(target.disk_id.low),
        a.zone_index == target.zone_index,
        a.zone_offset == target.zone_offset,
        a.size == target.size,
        a.test_pattern_offset == 0,
{
    FbDiskArgs {
        id: req_id,
        rpc_create_nano: 0,
        disk_id: target.disk_id.to_fb(),
        zone_index: target.zone_index,
        zone_offset: target.zone_offset,
        size: target.size,
        test_pattern_offset: 0,
    }
}

/// The request for a read.
pub fn read_args(
    req_id: u64,
    disk_id: DiskId,
    zone_index: u32,
    zone_offset: u64,
    size: u32,
    test_pattern_offset: u64,
) -> (a: FbDiskArgs)
    ensures
        a.id == req_id,
        a.rpc_create_nano == 0,
        a.disk_id@ == vstd::bytes::spec_u64_to_le_bytes(disk_id.high)
            + vstd::bytes::spec_u64_to_le_bytes(disk_id.low),
        a.zone_index == zone_index,
        a.zone_offset == zone_offset,
        a.size == size,
        a.test_pattern_offset == test_pattern_offset,
{
    FbDiskArgs {
        id: req_id,
        rpc_create_nano: 0,
        disk_id: disk_id.to_fb(),
        zone_index,
        zone_offset,
        size,
        test_pattern_offset,
    }
}

/// The request for a flush: the id and the disk alone.
pub fn fsync_args(req_id: u64, disk_id: DiskId) -> (a: FbDiskArgs)
    ensures
        a.id == req_id,
        a.rpc_create_nano == 0,
        a.disk_id@ == vstd::bytes::spec_u64_to_le_bytes(disk_id.high)
            + vstd::bytes::spec_u64_to_le_bytes(disk_id.low),
        a.zone_index == 0,
        a.zone_offset == 0,
        a.size == 0,
        a.test_pattern_offset == 0,
{
    FbDiskArgs {
        id: req_id,
        rpc_create_nano: 0,
        disk_id: disk_id.to_fb(),
        zone_index: 0,
        zone_offset: 0,
        size: 0,
        test_pattern_offset: 0,
    }
}

/// The control part of an answer, read as each of the three kinds of
/// response: the return code that it gives, if it can be read so.
#[derive(Debug, Clone, Copy, PartialEq, Eq)]
pub struct RawReply {
    pub as_write: Option<i16>,
    pub as_read: Option<i16>,
    pub as_fsync: Option<i16>,
}

/// The number of the first kind of response that the reply can be read as.
pub open spec fn raw_code(r: RawReply) -> Option<i16> {
    if r.as_write is Some {
        r.as_write
    } else if r.as_read is Some {
        r.as_read
    } else {
        r.as_fsync
    }
}

/// Success, or why the call failed.
pub fn parse_ret_code(control: &Option<RawReply>) -> (r: Result<DiskIoRetCode, DiskioError>)
    ensures
        match control {
            None => r matches Err(DiskioError::Rpc(t)) && t@
                == "missing control buffer in response"@,
            Some(reply) => match raw_code(*reply) {
                None => r matches Err(DiskioError::Rpc(t)) && t@ == "invalid response flatbuffer"@,
                Some(raw) => if code_of(raw) == DiskIoRetCode::Success {
                    r == Ok::<DiskIoRetCode, DiskioError>(DiskIoRetCode::Success)
                } else {
                    r == Err::<DiskIoRetCode, DiskioError>(DiskioError::IoError(code_of(raw)))
                },
            },
        },
{
    let reply = match control {
        Some(x) => *x,
        None => {
            return Err(DiskioError::Rpc("missing control buffer in response".to_owned()));
        },
    };
    let raw: i16 = if let Some(x) = reply.as_write {
        x
    } else if let Some(x) = reply.as_read {
        x
    } else if let Some(x) = reply.as_fsync {
        x
    } else {
        return Err(DiskioError::Rpc("invalid response flatbuffer".to_owned()));
    };
    let code = DiskIoRetCode::from(raw);
    if code == DiskIoRetCode::Success {
        Ok(code)
    } else {
        Err(DiskioError::IoError(code))
    }
}

/// Each known number stands for its own code, and a number that is not known
/// for an I/O error; zero alone is success.
pub proof fn lemma_codes(v: i16)
    ensures
        code_of(0) == DiskIoRetCode::Success,
        code_of(1) == DiskIoRetCode::DiskNotExist,
        code_of(2) == DiskIoRetCode::ZoneNotExist,
        code_of(3) == DiskIoRetCode::IoError,
        code_of(4) == DiskIoRetCode::PartialWrite,
        code_of(5) == DiskIoRetCode::InvalidAlignment,
        code_of(6) == DiskIoRetCode::ConnectionError,
        !(0 <= v <= 6) ==> code_of(v) == DiskIoRetCode::IoError,
        code_of(v) == DiskIoRetCode::Success <==> v == 0,
{
}

/// Codes and errors are shown by their names.
pub proof fn lemma_code_names(t: String, c: DiskIoRetCode)
    ensures
        DiskIoRetCode::Success.name_text() == "Success"@,
        DiskIoRetCode::DiskNotExist.name_text() == "DiskNotExist"@,
        DiskIoRetCode::ZoneNotExist.name_text() == "ZoneNotExist"@,
        DiskIoRetCode::IoError.name_text() == "IoError"@,
        DiskIoRetCode::PartialWrite.name_text() == "PartialWrite"@,
        DiskIoRetCode::InvalidAlignment.name_text() == "InvalidAlignment"@,
        DiskIoRetCode::ConnectionError.name_text() == "ConnectionError"@,
        DiskioError::IoError(c).text() == "disk I/O error: "@ + c.name_text(),
        DiskioError::Rpc(t).text() == "RPC error: "@ + t@,
{
}

/// A reply is taken for a write's, else for a read's, else for a flush's.
pub proof fn lemma_reply_kinds(r: RawReply)
    ensures
        r.as_write is Some ==> raw_code(r) == r.as_write,
        r.as_write is None && r.as_read is Some ==> raw_code(r) == r.as_read,
        r.as_write is None && r.as_read is None ==> raw_code(r) == r.as_fsync,
{
}

} // verus!
