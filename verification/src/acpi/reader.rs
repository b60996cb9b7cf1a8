//! Finding the table of interrupt controllers: from the root pointer over the
//! root table to the table itself, one mapped region at a time.
use crate::acpi::{
    apic_of, byte_sum, checksum_valid, init, le32, le64, madt_topology, parse_madt, read_u32,
    read_u64, AcpiError, Apic, ApicView,
};
use vstd::prelude::*;

verus! {

/// Number of bytes of the root pointer.
pub const RSDP_LENGTH: usize = 36;

/// The signature `APIC` read as a little-endian number.
pub const MADT_SIGNATURE: u32 = 0x4349_5041;

/// The signature `RSDT` read as a little-endian number.
pub const RSDT_SIGNATURE: u32 = 0x5444_5352;

/// The signature `XSDT` read as a little-endian number.
pub const XSDT_SIGNATURE: u32 = 0x5444_5358;

/// Where the root table lies and how wide its entries are.
#[derive(Clone, Copy, Debug, PartialEq, Eq, Structural)]
pub struct RootPointer {
    /// Physical address of the root table.
    pub address: u64,
    /// Whether the root table holds 64-bit addresses, not 32-bit ones.
    pub wide: bool,
}

/// Whether the bytes start with the eight bytes `RSD PTR `.
pub open spec fn has_rsdp_signature(bytes: Seq<u8>) -> bool {
    &&& bytes[0] == 0x52
    &&& bytes[1] == 0x53
    &&& bytes[2] == 0x44
    &&& bytes[3] == 0x20
    &&& bytes[4] == 0x50
    &&& bytes[5] == 0x54
    &&& bytes[6] == 0x52
    &&& bytes[7] == 0x20
}

/// What a root pointer says, or why it cannot be used. The first 20 bytes
/// must sum to zero; from revision 1 on the pointer is 36 bytes long, all of
/// them must sum to zero, and it names a root table of 64-bit addresses.
pub open spec fn rsdp_root(bytes: Seq<u8>) -> Result<RootPointer, AcpiError> {
    if bytes.len() < 36 {
        Err(AcpiError::TableTooShort)
    } else if !has_rsdp_signature(bytes) {
        Err(AcpiError::BadSignature)
    } else if byte_sum(bytes.take(20)) % 256 != 0 {
        Err(AcpiError::BadChecksum)
    } else if bytes[15] == 0 {
        Ok(RootPointer { address: le32(bytes, 16) as u64, wide: false })
    } else if le32(bytes, 20) != 36 {
        Err(AcpiError::BadLength)
    } else if byte_sum(bytes.take(36)) % 256 != 0 {
        Err(AcpiError::BadChecksum)
    } else {
        Ok(RootPointer { address: le64(bytes, 24) as u64, wide: true })
    }
}

/// Whether the first `count` bytes sum to zero modulo 256.
fn prefix_checksum_valid(bytes: &[u8], count: usize) -> (ok: bool)
    requires
        count <= bytes@.len(),
    ensures
        ok == (byte_sum(bytes@.take(count as int)) % 256 == 0),
{
    let mut sum: u32 = 0;
    let mut i: usize = 0;
    while i < count
        invariant
            i <= count <= bytes@.len(),
            sum < 256,
            sum == byte_sum(bytes@.take(i as int)) % 256,
        decreases count - i,
    {
        proof {
            assert(bytes@.take(i + 1).drop_last() == bytes@.take(i as int));
        }
        sum = (sum + bytes[i] as u32) % 256;
        i += 1;
    }
    sum == 0
}

/// Reads the root pointer.
pub fn parse_rsdp(bytes: &[u8]) -> (r: Result<RootPointer, AcpiError>)
    ensures
        r == rsdp_root(bytes@),
{
    if bytes.len() < 36 {
        return Err(AcpiError::TableTooShort);
    }
    if bytes[0] != 0x52 || bytes[1] != 0x53 || bytes[2] != 0x44 || bytes[3] != 0x20 || bytes[4]
        != 0x50 || bytes[5] != 0x54 || bytes[6] != 0x52 || bytes[7] != 0x20 {
        return Err(AcpiError::BadSignature);
    }
    if !prefix_checksum_valid(bytes, 20) {
        return Err(AcpiError::BadChecksum);
    }
    if bytes[15] == 0 {
        return Ok(RootPointer { address: read_u32(bytes, 16) as u64, wide: false });
    }
    if read_u32(bytes, 20) != 36 {
        return Err(AcpiError::BadLength);
    }
    if !prefix_checksum_valid(bytes, 36) {
        return Err(AcpiError::BadChecksum);
    }
    Ok(RootPointer { address: read_u64(bytes, 24), wide: true })
}

/// What the header of a table says: its signature and its length.
#[derive(Clone, Copy, Debug, PartialEq, Eq, Structural)]
pub struct TableHeader {
    /// The four bytes of the signature, read as a little-endian number.
    pub signature: u32,
    /// Length of the whole table in bytes.
    pub length: u32,
}

/// What the 36 bytes of a header say, or why they cannot be used. A table is
/// never shorter than its header.
pub open spec fn header_of(bytes: Seq<u8>) -> Result<TableHeader, AcpiError> {
    if bytes.len() < 36 {
        Err(AcpiError::TableTooShort)
    } else if le32(bytes, 4) < 36 {
        Err(AcpiError::BadLength)
    } else {
        Ok(TableHeader { signature: le32(bytes, 0) as u32, length: le32(bytes, 4) as u32 })
    }
}

/// Reads the header of a table.
pub fn parse_header(bytes: &[u8]) -> (r: Result<TableHeader, AcpiError>)
    ensures
        r == header_of(bytes@),
{
    if bytes.len() < 36 {
        return Err(AcpiError::TableTooShort);
    }
    let length = read_u32(bytes, 4);
    if length < 36 {
        return Err(AcpiError::BadLength);
    }
    Ok(TableHeader { signature: read_u32(bytes, 0), length })
}

/// Width in bytes of an entry of the root table.
pub open spec fn entry_width(wide: bool) -> int {
    if wide {
        8
    } else {
        4
    }
}

/// Entry `k` of the root table: the physical address of a table.
pub open spec fn root_entry(bytes: Seq<u8>, wide: bool, k: int) -> u64 {
    if wide {
        le64(bytes, 36 + 8 * k) as u64
    } else {
        le32(bytes, 36 + 4 * k) as u64
    }
}

/// The addresses that a root table holds, or why it cannot be used. The
/// table must carry the signature that goes with the width of its entries,
/// be as long as its header says, sum to zero, and hold whole entries only.
pub open spec fn root_tables(bytes: Seq<u8>, wide: bool) -> Result<Seq<u64>, AcpiError> {
    if bytes.len() < 36 {
        Err(AcpiError::TableTooShort)
    } else if le32(bytes, 0) != (if wide {
        XSDT_SIGNATURE
    } else {
        RSDT_SIGNATURE
    }) {
        Err(AcpiError::BadSignature)
    } else if le32(bytes, 4) != bytes.len() || (bytes.len() - 36) % entry_width(wide) != 0 {
        Err(AcpiError::BadLength)
    } else if byte_sum(bytes) % 256 != 0 {
        Err(AcpiError::BadChecksum)
    } else {
        Ok(
            Seq::new(
                ((bytes.len() - 36) / entry_width(wide)) as nat,
                |k: int| root_entry(bytes, wide, k),
            ),
        )
    }
}

/// Reads the root table.
pub fn parse_root_table(bytes: &[u8], wide: bool) -> (r: Result<Vec<u64>, AcpiError>)
    ensures
        match root_tables(bytes@, wide) {
            Ok(tables) => r is Ok && r.unwrap()@ == tables,
            Err(e) => r == Err::<Vec<u64>, AcpiError>(e),
        },
{
    if bytes.len() < 36 {
        return Err(AcpiError::TableTooShort);
    }
    let signature = if wide {
        XSDT_SIGNATURE
    } else {
        RSDT_SIGNATURE
    };
    if read_u32(bytes, 0) != signature {
        return Err(AcpiError::BadSignature);
    }
    let width: usize = if wide {
        8
    } else {
        4
    };
    if read_u32(bytes, 4) as usize != bytes.len() || (bytes.len() - 36) % width != 0 {
        return Err(AcpiError::BadLength);
    }
    if !checksum_valid(bytes) {
        return Err(AcpiError::BadChecksum);
    }
    let count: usize = (bytes.len() - 36) / width;
    let mut tables: Vec<u64> = Vec::new();
    let mut k: usize = 0;
    while k < count
        invariant
            k <= count,
            width == entry_width(wide),
            36 + count * width == bytes.len(),
            tables.len() == k,
            forall|j: int| 0 <= j < k ==> tables[j] == root_entry(bytes@, wide, j),
        decreases count - k,
    {
        let address: u64 = if wide {
            read_u64(bytes, 36 + 8 * k)
        } else {
            read_u32(bytes, 36 + 4 * k) as u64
        };
        tables.push(address);
        k += 1;
    }
    assert(tables@ =~= root_tables(bytes@, wide).unwrap());
    Ok(tables)
}

/// What the reader waits for.
#[derive(Clone, Copy, Debug, PartialEq, Eq, Structural)]
pub enum Stage {
    /// The bytes of the root pointer.
    RootPointer,
    /// The header of the root table.
    RootHeader,
    /// The whole root table.
    RootTable,
    /// The header of table `index` of the root table.
    Header,
    /// The whole table of interrupt controllers.
    Madt,
    /// Nothing: the reader has finished.
    Finished,
}

/// A region of physical memory that the reader asks to see.
#[derive(Clone, Copy, Debug, PartialEq, Eq, Structural)]
pub struct Region {
    /// Physical address of the first byte.
    pub physical: u64,
    /// Number of bytes.
    pub length: usize,
}

/// What the reader has its caller do next.
#[derive(Debug, PartialEq, Eq)]
pub enum Request {
    /// Release the region mapped before, if any, map this one and hand its
    /// bytes to `feed`.
    MapRegion(Region),
    /// Release the region mapped before. The reader has finished with the
    /// topology.
    Done(Apic),
    /// Release the region mapped before. The reader has given up.
    Failed(AcpiError),
}

/// What the reader stands for.
pub struct ReaderView {
    /// What the reader waits for.
    pub stage: Stage,
    /// Where the root table lies.
    pub root: RootPointer,
    /// The addresses that the root table holds.
    pub tables: Seq<u64>,
    /// The table whose header is looked at.
    pub index: nat,
}

/// What a request stands for.
pub enum RequestView {
    /// Map a region.
    MapRegion(Region),
    /// Finished with this topology.
    Done(ApicView),
    /// Given up.
    Failed(AcpiError),
}

impl View for Request {
    type V = RequestView;

    open spec fn view(&self) -> RequestView {
        match *self {
            Request::MapRegion(region) => RequestView::MapRegion(region),
            Request::Done(apic) => RequestView::Done(apic@),
            Request::Failed(e) => RequestView::Failed(e),
        }
    }
}

impl ReaderView {
    /// The reader in its last state: it waits for nothing.
    pub open spec fn finished(self) -> ReaderView {
        ReaderView { stage: Stage::Finished, ..self }
    }

    /// What the reader asks for when it goes on to the header of table
    /// `index`: that header, or nothing more when the root table is used up.
    pub open spec fn seek(self, index: nat) -> (ReaderView, RequestView) {
        if index < self.tables.len() {
            (
                ReaderView { stage: Stage::Header, index, ..self },
                RequestView::MapRegion(Region { physical: self.tables[index as int], length: 36 }),
            )
        } else {
            (self.finished(), RequestView::Failed(AcpiError::TableNotFound))
        }
    }

    /// What the reader makes of the bytes that it asked for: its next state
    /// and its next request.
    pub open spec fn step(self, bytes: Seq<u8>) -> (ReaderView, RequestView) {
        match self.stage {
            Stage::RootPointer => match rsdp_root(bytes) {
                Ok(root) => (
                    ReaderView { stage: Stage::RootHeader, root, ..self },
                    RequestView::MapRegion(Region { physical: root.address, length: 36 }),
                ),
                Err(e) => (self.finished(), RequestView::Failed(e)),
            },
            Stage::RootHeader => match header_of(bytes) {
                Ok(header) => (
                    ReaderView { stage: Stage::RootTable, ..self },
                    RequestView::MapRegion(
                        Region { physical: self.root.address, length: header.length as usize },
                    ),
                ),
                Err(e) => (self.finished(), RequestView::Failed(e)),
            },
            Stage::RootTable => match root_tables(bytes, self.root.wide) {
                Ok(tables) => (ReaderView { tables, ..self }).seek(0),
                Err(e) => (self.finished(), RequestView::Failed(e)),
            },
            Stage::Header => match header_of(bytes) {
                Ok(header) => if header.signature == MADT_SIGNATURE {
                    (
                        ReaderView { stage: Stage::Madt, ..self },
                        RequestView::MapRegion(
                            Region {
                                physical: self.tables[self.index as int],
                                length: header.length as usize,
                            },
                        ),
                    )
                } else {
                    self.seek(self.index + 1)
                },
                Err(e) => (self.finished(), RequestView::Failed(e)),
            },
            Stage::Madt => match madt_topology(bytes) {
                Ok(topology) => match apic_of(topology) {
                    Ok(apic) => (self.finished(), RequestView::Done(apic)),
                    Err(e) => (self.finished(), RequestView::Failed(e)),
                },
                Err(e) => (self.finished(), RequestView::Failed(e)),
            },
            Stage::Finished => (self, RequestView::Failed(AcpiError::Finished)),
        }
    }
}

/// The reader of the firmware's description tables. It sees memory only
/// through the regions that it asks its caller to map.
pub struct TableReader {
    stage: Stage,
    root: RootPointer,
    tables: Vec<u64>,
    index: usize,
}

impl View for TableReader {
    type V = ReaderView;

    closed spec fn view(&self) -> ReaderView {
        ReaderView {
            stage: self.stage,
            root: self.root,
            tables: self.tables@,
            index: self.index as nat,
        }
    }
}

impl TableReader {
    /// The invariant: while a header is looked at, it is that of a table of
    /// the root table.
    pub closed spec fn wf(&self) -> bool {
        (self.stage == Stage::Header || self.stage == Stage::Madt) ==> self.index
            < self.tables.len()
    }

    /// A reader that starts from the root pointer at `rsdp_address`, and its
    /// first request: the bytes of the root pointer.
    pub fn new(rsdp_address: u64) -> (r: (TableReader, Request))
        ensures
            r.0.wf(),
            r.0@ == (ReaderView {
                stage: Stage::RootPointer,
                root: RootPointer { address: 0, wide: false },
                tables: Seq::empty(),
                index: 0,
            }),
            r.1 == Request::MapRegion(Region { physical: rsdp_address, length: 36 }),
    {
        (
            TableReader {
                stage: Stage::RootPointer,
                root: RootPointer { address: 0, wide: false },
                tables: Vec::new(),
                index: 0,
            },
            Request::MapRegion(Region { physical: rsdp_address, length: RSDP_LENGTH }),
        )
    }

    /// Goes on to the header of table `index` of the root table.
    fn seek(&mut self, index: usize) -> (request: Request)
        ensures
            final(self).wf(),
            (final(self)@, request@) == old(self)@.seek(index as nat),
    {
        if index < self.tables.len() {
            self.stage = Stage::Header;
            self.index = index;
            Request::MapRegion(Region { physical: self.tables[index], length: 36 })
        } else {
            self.stage = Stage::Finished;
            Request::Failed(AcpiError::TableNotFound)
        }
    }

    /// Takes the bytes of the region asked for last and says what to do
    /// next. Every table is checked before anything in it is believed.
    pub fn feed(&mut self, bytes: &[u8]) -> (request: Request)
        requires
            old(self).wf(),
        ensures
            final(self).wf(),
            (final(self)@, request@) == old(self)@.step(bytes@),
    {
        match self.stage {
            Stage::RootPointer => match parse_rsdp(bytes) {
                Ok(root) => {
                    self.stage = Stage::RootHeader;
                    self.root = root;
                    Request::MapRegion(Region { physical: root.address, length: 36 })
                },
                Err(e) => {
                    self.stage = Stage::Finished;
                    Request::Failed(e)
                },
            },
            Stage::RootHeader => match parse_header(bytes) {
                Ok(header) => {
                    self.stage = Stage::RootTable;
                    Request::MapRegion(
                        Region { physical: self.root.address, length: header.length as usize },
                    )
                },
                Err(e) => {
                    self.stage = Stage::Finished;
                    Request::Failed(e)
                },
            },
            Stage::RootTable => match parse_root_table(bytes, self.root.wide) {
                Ok(tables) => {
                    self.tables = tables;
                    self.seek(0)
                },
                Err(e) => {
                    self.stage = Stage::Finished;
                    Request::Failed(e)
                },
            },
            Stage::Header => match parse_header(bytes) {
                Ok(header) => {
                    if header.signature == MADT_SIGNATURE {
                        self.stage = Stage::Madt;
                        Request::MapRegion(
                            Region {
                                physical: self.tables[self.index],
                                length: header.length as usize,
                            },
                        )
                    } else {
                        let next: usize = self.index + 1;
                        self.seek(next)
                    }
                },
                Err(e) => {
                    self.stage = Stage::Finished;
                    Request::Failed(e)
                },
            },
            Stage::Madt => {
                self.stage = Stage::Finished;
                match parse_madt(bytes) {
                    Ok(topology) => match init(topology) {
                        Ok(apic) => Request::Done(apic),
                        Err(e) => Request::Failed(e),
                    },
                    Err(e) => Request::Failed(e),
                }
            },
            Stage::Finished => Request::Failed(AcpiError::Finished),
        }
    }
}

} // verus!
