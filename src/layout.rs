//! The on-disk layout of a bank: header, location table, name block and
//! payloads, all numbers little-endian unsigned 64-bit.

use vstd::prelude::*;

use crate::kind::{all_kinds, ascii_bytes, spec_directory, ItemKind};

verus! {

/// The bytes of a number, least significant first.
pub open spec fn le_bytes(x: u64) -> Seq<u8> {
    seq![
        x as u8,
        (x >> 8u64) as u8,
        (x >> 16u64) as u8,
        (x >> 24u64) as u8,
        (x >> 32u64) as u8,
        (x >> 40u64) as u8,
        (x >> 48u64) as u8,
        (x >> 56u64) as u8,
    ]
}

/// The number held by eight bytes, least significant first.
pub open spec fn le_value(b: Seq<u8>) -> u64 {
    (b[0] as u64) | ((b[1] as u64) << 8u64) | ((b[2] as u64) << 16u64) | ((b[3] as u64) << 24u64)
        | ((b[4] as u64) << 32u64) | ((b[5] as u64) << 40u64) | ((b[6] as u64) << 48u64) | ((
    b[7] as u64) << 56u64)
}

/// Reading back the bytes of a number gives the number.
pub proof fn lemma_le_round_trip(x: u64)
    ensures
        le_value(le_bytes(x)) == x,
{
    let b = le_bytes(x);
    let (b0, b1, b2, b3, b4, b5, b6, b7) = (b[0], b[1], b[2], b[3], b[4], b[5], b[6], b[7]);
    assert(b0 == x as u8 && b1 == (x >> 8u64) as u8 && b2 == (x >> 16u64) as u8 && b3 == (x
        >> 24u64) as u8 && b4 == (x >> 32u64) as u8 && b5 == (x >> 40u64) as u8 && b6 == (x
        >> 48u64) as u8 && b7 == (x >> 56u64) as u8);
    assert((b0 as u64) | ((b1 as u64) << 8u64) | ((b2 as u64) << 16u64) | ((b3 as u64) << 24u64)
        | ((b4 as u64) << 32u64) | ((b5 as u64) << 40u64) | ((b6 as u64) << 48u64) | ((
    b7 as u64) << 56u64) == x) by (bit_vector)
        requires
            b0 == x as u8 && b1 == (x >> 8u64) as u8 && b2 == (x >> 16u64) as u8 && b3 == (x
                >> 24u64) as u8 && b4 == (x >> 32u64) as u8 && b5 == (x >> 40u64) as u8 && b6
                == (x >> 48u64) as u8 && b7 == (x >> 56u64) as u8,
    ;
}

/// Appends the eight bytes of a number, least significant first.
pub fn push_u64(out: &mut Vec<u8>, x: u64)
    ensures
        final(out)@ == old(out)@ + le_bytes(x),
{
    out.push(x as u8);
    out.push((x >> 8u64) as u8);
    out.push((x >> 16u64) as u8);
    out.push((x >> 24u64) as u8);
    out.push((x >> 32u64) as u8);
    out.push((x >> 40u64) as u8);
    out.push((x >> 48u64) as u8);
    out.push((x >> 56u64) as u8);
    assert(final(out)@ =~= old(out)@ + le_bytes(x));
}

/// Reads the number held by the eight bytes at `pos`.
pub fn read_u64(data: &[u8], pos: usize) -> (r: u64)
    requires
        pos + 8 <= data@.len(),
    ensures
        r == le_value(data@.subrange(pos as int, pos + 8)),
{
    let ghost b = data@.subrange(pos as int, pos + 8);
    (data[pos] as u64) | ((data[pos + 1] as u64) << 8u64) | ((data[pos + 2] as u64) << 16u64) | ((
    data[pos + 3] as u64) << 24u64) | ((data[pos + 4] as u64) << 32u64) | ((data[pos + 5] as u64)
        << 40u64) | ((data[pos + 6] as u64) << 48u64) | ((data[pos + 7] as u64) << 56u64)
}

/// First bytes that identify a bank.
pub open spec fn file_id() -> Seq<u8> {
    seq![137u8, 107u8, 72u8, 115u8]
}

/// Bytes that detect a conversion of line endings, the same as in the PNG
/// header.
pub open spec fn check_bytes() -> Seq<u8> {
    seq![13u8, 10u8, 26u8, 10u8]
}

/// The format version, "Bank0001" in ASCII.
pub open spec fn format_version() -> Seq<u8> {
    seq![66u8, 97u8, 110u8, 107u8, 48u8, 48u8, 48u8, 49u8]
}

/// Bytes of the header before the location count.
pub open spec fn header_prefix() -> Seq<u8> {
    file_id() + check_bytes() + format_version()
}

/// Number of bytes of one location record.
pub const LOCATION_SIZE: u64 = 24;

/// Number of bytes before the location table: the header and the count.
pub const TABLE_START: u64 = 24;

/// Appends the header bytes before the location count.
pub fn push_header_prefix(out: &mut Vec<u8>)
    ensures
        final(out)@ == old(out)@ + header_prefix(),
{
    out.push(137u8);
    out.push(107u8);
    out.push(72u8);
    out.push(115u8);
    out.push(13u8);
    out.push(10u8);
    out.push(26u8);
    out.push(10u8);
    out.push(66u8);
    out.push(97u8);
    out.push(110u8);
    out.push(107u8);
    out.push(48u8);
    out.push(48u8);
    out.push(48u8);
    out.push(49u8);
    assert(final(out)@ =~= old(out)@ + header_prefix());
}

/// One entry of the location table.
#[derive(Clone, Copy, Debug, PartialEq, Eq, Structural)]
pub struct Location {
    /// From the start of the name block.
    pub file_name_offset: u64,
    /// From the start of the file.
    pub data_offset: u64,
    pub data_size: u64,
}

impl Location {
    /// Where the payload ends, from the start of the file.
    pub fn data_end(&self) -> (r: u64)
        requires
            self.data_offset + self.data_size <= u64::MAX,
        ensures
            r == self.data_offset + self.data_size,
    {
        self.data_offset + self.data_size
    }
}

/// The bytes of a location record.
pub open spec fn location_bytes(l: Location) -> Seq<u8> {
    le_bytes(l.file_name_offset) + le_bytes(l.data_offset) + le_bytes(l.data_size)
}

/// An item waiting to be written: its kind, its path inside the bank and its
/// contents.
pub type PendingView = (ItemKind, Seq<u8>, Seq<u8>);

/// One entry of a bank's catalog: its name, its contents and whether it is a
/// directory.
pub type EntryView = (Seq<u8>, Seq<u8>, bool);

/// The file entries of the items of one kind, in the order they were added.
pub open spec fn files_of_kind(items: Seq<PendingView>, kind: ItemKind) -> Seq<EntryView>
    decreases items.len(),
{
    if items.len() == 0 {
        seq![]
    } else {
        let last = items.last();
        files_of_kind(items.drop_last(), kind) + if last.0 == kind {
            seq![(last.1, last.2, false)]
        } else {
            seq![]
        }
    }
}

/// The entries of one kind: its directory, if it has one, then its files;
/// nothing for a kind without items.
pub open spec fn kind_entries(items: Seq<PendingView>, kind: ItemKind) -> Seq<EntryView> {
    let files = files_of_kind(items, kind);
    if files.len() == 0 {
        seq![]
    } else {
        match spec_directory(kind) {
            Some(d) => seq![(ascii_bytes(d), seq![], true)] + files,
            None => files,
        }
    }
}

/// The catalog of the given kinds, kind by kind.
pub open spec fn catalog_of(kinds: Seq<ItemKind>, items: Seq<PendingView>) -> Seq<EntryView>
    decreases kinds.len(),
{
    if kinds.len() == 0 {
        seq![]
    } else {
        catalog_of(kinds.drop_last(), items) + kind_entries(items, kinds.last())
    }
}

/// The catalog of a bank: grouped by kind in the order of the enumeration,
/// in the order of insertion within a kind.
pub open spec fn catalog(items: Seq<PendingView>) -> Seq<EntryView> {
    catalog_of(all_kinds(), items)
}

/// The name block: each name followed by a zero byte.
pub open spec fn names_block(es: Seq<EntryView>) -> Seq<u8>
    decreases es.len(),
{
    if es.len() == 0 {
        seq![]
    } else {
        names_block(es.drop_last()) + es.last().0 + seq![0u8]
    }
}

/// All contents, one after the other.
pub open spec fn payload_bytes(es: Seq<EntryView>) -> Seq<u8>
    decreases es.len(),
{
    if es.len() == 0 {
        seq![]
    } else {
        payload_bytes(es.drop_last()) + es.last().1
    }
}

/// Where the payloads start: after the header, the table, the name block's
/// length and the name block.
pub open spec fn payload_start(es: Seq<EntryView>) -> int {
    TABLE_START + LOCATION_SIZE * es.len() + 8 + names_block(es).len()
}

/// Whether every offset of the bank fits in 64 bits.
pub open spec fn fits(es: Seq<EntryView>) -> bool {
    payload_start(es) + payload_bytes(es).len() <= u64::MAX
}

/// The location of the entry `i` when payloads start at `base`.
pub open spec fn entry_location(es: Seq<EntryView>, i: int, base: int) -> Location {
    Location {
        file_name_offset: names_block(es.take(i)).len() as u64,
        data_offset: if es[i].2 {
            0
        } else {
            (base + payload_bytes(es.take(i)).len()) as u64
        },
        data_size: es[i].1.len() as u64,
    }
}

/// The location table.
pub open spec fn table_bytes(es: Seq<EntryView>, base: int) -> Seq<u8>
    decreases es.len(),
{
    if es.len() == 0 {
        seq![]
    } else {
        table_bytes(es.drop_last(), base) + location_bytes(entry_location(es, es.len() - 1, base))
    }
}

/// The bytes of a bank with the given catalog.
pub open spec fn bank_bytes(es: Seq<EntryView>) -> Seq<u8> {
    header_prefix() + le_bytes(es.len() as u64) + table_bytes(es, payload_start(es)) + le_bytes(
        names_block(es).len() as u64,
    ) + names_block(es) + payload_bytes(es)
}

/// A longer prefix has a longer name block and a longer payload.
pub proof fn lemma_prefix_lengths(es: Seq<EntryView>, i: int, j: int)
    requires
        0 <= i <= j <= es.len(),
    ensures
        names_block(es.take(i)).len() <= names_block(es.take(j)).len(),
        payload_bytes(es.take(i)).len() <= payload_bytes(es.take(j)).len(),
    decreases j - i,
{
    if i < j {
        lemma_prefix_lengths(es, i, j - 1);
        assert(es.take(j).drop_last() =~= es.take(j - 1));
    }
}

} // verus!
