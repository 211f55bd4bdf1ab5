//! Reading a bank: the catalog is parsed and checked when the bank is
//! opened; payloads are read on demand.

use vstd::prelude::*;
use vstd::slice::slice_subrange;
use vstd::utf8::{decode_utf8, valid_utf8};

use crate::error::BankError;
use crate::kind::{
    ascii_bytes, ascii_eq_ignore_case, background_stem, eq_ignore_case,
    metadata_file_name, name_parts, spec_file_name, spec_file_stem,
};
use crate::layout::{
    check_bytes, file_id, format_version, le_value, read_u64, Location, LOCATION_SIZE, TABLE_START,
};
use crate::metadata::{parsed_as, Metadata};

verus! {

/// The bytes at `[start, start + len)`.
pub open spec fn field(b: Seq<u8>, start: int, len: int) -> Seq<u8> {
    b.subrange(start, start + len)
}

/// The number of locations that the header gives.
pub open spec fn location_count(b: Seq<u8>) -> int {
    le_value(field(b, 16, 8)) as int
}

/// Where the location table ends.
pub open spec fn table_end(b: Seq<u8>) -> int {
    TABLE_START + LOCATION_SIZE * location_count(b)
}

/// Where the name block starts.
pub open spec fn name_base(b: Seq<u8>) -> int {
    table_end(b) + 8
}

/// The length of the name block.
pub open spec fn names_length(b: Seq<u8>) -> int {
    le_value(field(b, table_end(b), 8)) as int
}

/// The location record `i`.
pub open spec fn location_at(b: Seq<u8>, i: int) -> Location {
    let p = TABLE_START + LOCATION_SIZE * i;
    Location {
        file_name_offset: le_value(field(b, p, 8)),
        data_offset: le_value(field(b, p + 8, 8)),
        data_size: le_value(field(b, p + 16, 8)),
    }
}

/// Where the name of the location `i` starts.
pub open spec fn name_start(b: Seq<u8>, i: int) -> int {
    name_base(b) + location_at(b, i).file_name_offset
}

/// Where a name that starts at `p` ends: just past its zero byte, or at the
/// end of the data.
pub open spec fn name_end(b: Seq<u8>, p: int) -> int
    decreases b.len() - p,
{
    if p >= b.len() {
        b.len() as int
    } else if b[p] == 0 {
        p + 1
    } else {
        name_end(b, p + 1)
    }
}

/// Whether the name of the location `i` cannot be read: it starts at or
/// past the end of the data, or reaches past the name block.
pub open spec fn name_fault(b: Seq<u8>, i: int) -> bool {
    name_start(b, i) >= b.len() || name_end(b, name_start(b, i)) > name_base(b) + names_length(b)
}

/// The name of the location `i`, without its zero byte.
pub open spec fn name_at(b: Seq<u8>, i: int) -> Seq<u8> {
    let s = b.subrange(name_start(b, i), name_end(b, name_start(b, i)));
    if s.len() > 0 && s.last() == 0 {
        s.drop_last()
    } else {
        s
    }
}

/// Whether the header is whole and holds the expected bytes, and the table and
/// the name block's length are within the data.
pub open spec fn header_ok(b: Seq<u8>) -> bool {
    &&& b.len() >= 24
    &&& b.take(4) == file_id()
    &&& field(b, 4, 4) == check_bytes()
    &&& field(b, 8, 8) == format_version()
    &&& name_base(b) <= b.len()
}

/// The first location whose name cannot be read is `i`.
pub open spec fn first_name_fault(b: Seq<u8>, i: int) -> bool {
    &&& 0 <= i < location_count(b)
    &&& name_fault(b, i)
    &&& forall|j: int| 0 <= j < i ==> !name_fault(b, j)
}

/// The catalog that the data holds: each location with its name.
pub open spec fn catalog_read(b: Seq<u8>) -> Seq<(Seq<u8>, Location)> {
    Seq::new(location_count(b) as nat, |i: int| (name_at(b, i), location_at(b, i)))
}

/// Whether the payload of the entry `j` starts within the payload of the file
/// entry `i`.
pub open spec fn overlaps(l: Location, m: Location) -> bool {
    &&& l.data_size != 0
    &&& m.data_size != 0
    &&& l.data_offset <= m.data_offset < l.data_offset + l.data_size
}

/// Whether two distinct files of the catalog have overlapping payloads.
pub open spec fn has_overlap(c: Seq<(Seq<u8>, Location)>) -> bool {
    exists|i: int, j: int|
        0 <= i < c.len() && 0 <= j < c.len() && i != j && overlaps(
            #[trigger] c[i].1,
            #[trigger] c[j].1,
        )
}

/// A catalog entry: the raw path bytes and the location of the payload.
#[derive(Clone, Debug)]
pub struct Item {
    /// The name of the file as it appears in the bank. Paths are bytes and
    /// not necessarily UTF-8; directories are separated by `/`.
    pub path_bytes: Vec<u8>,
    /// Where the name and the payload lie.
    pub location: Location,
}

/// What `String::from_utf8_lossy` makes of bytes.
pub uninterp spec fn lossy_text(b: Seq<u8>) -> Seq<char>;

/// Relies on String::from_utf8_lossy: valid UTF-8 is decoded as it is, and
/// invalid sequences are replaced.
#[verifier::external_body]
fn utf8_lossy(b: &[u8]) -> (r: String)
    ensures
        r@ == lossy_text(b@),
        valid_utf8(b@) ==> r@ == decode_utf8(b@),
{
    String::from_utf8_lossy(b).to_string()
}

impl Item {
    /// The path and the location of the item.
    pub open spec fn view(&self) -> (Seq<u8>, Location) {
        (self.path_bytes@, self.location)
    }

    /// Whether the item is a directory: its payload is empty.
    pub fn is_directory(&self) -> (r: bool)
        ensures
            r == (self.view().1.data_size == 0),
    {
        self.location.data_size == 0
    }

    /// Whether the item is a file: its payload is not empty.
    pub fn is_file(&self) -> (r: bool)
        ensures
            r == (self.view().1.data_size != 0),
    {
        self.location.data_size != 0
    }

    /// Whether the item is a file whose name, without extension, is the
    /// background's, compared without case.
    pub fn is_background_file(&self) -> (r: bool)
        ensures
            r == (self.view().1.data_size != 0 && eq_ignore_case(
                spec_file_stem(spec_file_name(self.view().0)),
                background_stem(),
            )),
    {
        if !self.is_file() {
            return false;
        }
        let (_name, stem, _ext) = name_parts(self.path_bytes.as_slice());
        proof {
            reveal_strlit("background");
        }
        assert(ascii_bytes("background"@) == background_stem());
        let r = ascii_eq_ignore_case("background", stem);
        proof {
            if r {
                assert forall|i: int| 0 <= i < stem@.len() implies crate::kind::lower_byte(
                    #[trigger] stem@[i],
                ) == crate::kind::lower_byte(background_stem()[i]) by {
                    assert(crate::kind::lower_byte(background_stem()[i]) == crate::kind::lower_byte(
                        stem@[i],
                    ));
                }
            } else if eq_ignore_case(stem@, background_stem()) {
                assert forall|i: int|
                    0 <= i < background_stem().len() implies crate::kind::lower_byte(
                    #[trigger] background_stem()[i],
                ) == crate::kind::lower_byte(stem@[i]) by {
                    assert(crate::kind::lower_byte(stem@[i]) == crate::kind::lower_byte(
                        background_stem()[i],
                    ));
                }
            }
        }
        r
    }

    /// Whether the item is a file whose path is the metadata file name,
    /// compared without case.
    pub fn is_metadata_file(&self) -> (r: bool)
        ensures
            r == (self.view().1.data_size != 0 && eq_ignore_case(
                self.view().0,
                metadata_file_name(),
            )),
    {
        if !self.is_file() {
            return false;
        }
        proof {
            reveal_strlit("index.json");
        }
        assert(ascii_bytes("index.json"@) == metadata_file_name());
        let r = ascii_eq_ignore_case("index.json", self.path_bytes.as_slice());
        proof {
            if r {
                assert forall|i: int| 0 <= i < self.path_bytes@.len() implies crate::kind::lower_byte(
                    #[trigger] self.path_bytes@[i],
                ) == crate::kind::lower_byte(metadata_file_name()[i]) by {
                    assert(crate::kind::lower_byte(metadata_file_name()[i])
                        == crate::kind::lower_byte(self.path_bytes@[i]));
                }
            } else if eq_ignore_case(self.path_bytes@, metadata_file_name()) {
                assert forall|i: int|
                    0 <= i < metadata_file_name().len() implies crate::kind::lower_byte(
                    #[trigger] metadata_file_name()[i],
                ) == crate::kind::lower_byte(self.path_bytes@[i]) by {
                    assert(crate::kind::lower_byte(self.path_bytes@[i])
                        == crate::kind::lower_byte(metadata_file_name()[i]));
                }
            }
        }
        r
    }

    /// The path as text; invalid UTF-8 is replaced.
    pub fn file_name_lossy(&self) -> (r: String)
        ensures
            r@ == lossy_text(self.view().0),
            valid_utf8(self.view().0) ==> r@ == decode_utf8(self.view().0),
    {
        utf8_lossy(self.path_bytes.as_slice())
    }
}

/// Whether the data ends before a part of the header, the table or the name
/// block's length, the header bytes read so far being right.
pub open spec fn truncated(b: Seq<u8>) -> bool {
    ||| b.len() < 4
    ||| b.take(4) == file_id() && b.len() < 8
    ||| b.take(4) == file_id() && field(b, 4, 4) == check_bytes() && b.len() < 16
    ||| b.take(4) == file_id() && field(b, 4, 4) == check_bytes() && field(b, 8, 8)
        == format_version() && (b.len() < 24 || name_base(b) > b.len())
}

/// Whether every name of the catalog can be read.
pub open spec fn names_ok(b: Seq<u8>) -> bool {
    forall|i: int| 0 <= i < location_count(b) ==> !#[trigger] name_fault(b, i)
}

/// A copy of the bytes at `[start, end)`.
fn copy_range(b: &[u8], start: usize, end: usize) -> (r: Vec<u8>)
    requires
        start <= end <= b@.len(),
    ensures
        r@ == b@.subrange(start as int, end as int),
{
    let mut r: Vec<u8> = Vec::new();
    r.extend_from_slice(slice_subrange(b, start, end));
    assert(r@ =~= b@.subrange(start as int, end as int));
    r
}

/// Where a name that starts at `p` ends.
fn find_name_end(b: &[u8], p: usize) -> (r: usize)
    requires
        p <= b@.len(),
    ensures
        r == name_end(b@, p as int),
        p <= r <= b@.len(),
{
    let mut k: usize = p;
    while k < b.len()
        invariant
            p <= k <= b@.len(),
            name_end(b@, p as int) == name_end(b@, k as int),
        decreases b@.len() - k,
    {
        if b[k] == 0 {
            return k + 1;
        }
        k = k + 1;
    }
    k
}

/// Reads a bank held in memory.
pub struct BankReader {
    data: Vec<u8>,
    items: Vec<Item>,
}

impl BankReader {
    /// The bytes of the bank.
    pub closed spec fn data(&self) -> Seq<u8> {
        self.data@
    }

    /// The catalog parsed when the bank was opened.
    pub closed spec fn catalog(&self) -> Seq<(Seq<u8>, Location)> {
        self.items@.map_values(|i: Item| i.view())
    }

    /// Parses and checks the catalog of a bank: the header, the location
    /// table and every name, and that no two files share payload bytes.
    pub fn new(data: Vec<u8>) -> (r: Result<BankReader, BankError>)
        ensures
            r is Ok <==> header_ok(data@) && names_ok(data@) && !has_overlap(catalog_read(data@)),
            r matches Ok(rd) ==> rd.data() == data@ && rd.catalog() == catalog_read(data@),
            (r matches Err(BankError::Truncated)) <==> truncated(data@),
            (r matches Err(BankError::NotABank)) <==> data@.len() >= 4 && data@.take(4) != file_id(),
            (r matches Err(BankError::UnexpectedCheckBytes(_))) <==> data@.len() >= 8 && data@.take(
                4,
            ) == file_id() && field(data@, 4, 4) != check_bytes(),
            r matches Err(BankError::UnexpectedCheckBytes(c)) ==> c@ == field(data@, 4, 4),
            (r matches Err(BankError::UnexpectedFormatVersion(_))) <==> data@.len() >= 16 && data@.take(
                4,
            ) == file_id() && field(data@, 4, 4) == check_bytes() && field(data@, 8, 8)
                != format_version(),
            r matches Err(BankError::UnexpectedFormatVersion(v)) ==> v@ == field(data@, 8, 8),
            (r matches Err(BankError::ZeroLengthName(_))) <==> header_ok(data@) && exists|i: int|
                first_name_fault(data@, i) && name_start(data@, i) >= data@.len(),
            (r matches Err(BankError::NamePastEnd)) <==> header_ok(data@) && exists|i: int|
                first_name_fault(data@, i) && name_start(data@, i) < data@.len(),
            (r matches Err(BankError::Overlap(_, _))) <==> header_ok(data@) && names_ok(data@)
                && has_overlap(catalog_read(data@)),
            r matches Err(BankError::Overlap(x, y)) ==> exists|i: int, j: int|
                0 <= i < location_count(data@) && 0 <= j < location_count(data@) && i != j
                    && overlaps(location_at(data@, i), location_at(data@, j)) && x@ == name_at(
                    data@,
                    i,
                ) && y@ == name_at(data@, j),
    {
        let b = data.as_slice();
        let ghost d = data@;
        if b.len() < 4 {
            return Err(BankError::Truncated);
        }
        if !(b[0] == 137 && b[1] == 107 && b[2] == 72 && b[3] == 115) {
            assert(d.take(4)[0] != file_id()[0] || d.take(4)[1] != file_id()[1] || d.take(4)[2]
                != file_id()[2] || d.take(4)[3] != file_id()[3]);
            return Err(BankError::NotABank);
        }
        assert(d.take(4) =~= file_id());
        if b.len() < 8 {
            return Err(BankError::Truncated);
        }
        if !(b[4] == 13 && b[5] == 10 && b[6] == 26 && b[7] == 10) {
            assert(field(d, 4, 4)[0] != check_bytes()[0] || field(d, 4, 4)[1] != check_bytes()[1]
                || field(d, 4, 4)[2] != check_bytes()[2] || field(d, 4, 4)[3] != check_bytes()[3]);
            return Err(BankError::UnexpectedCheckBytes(copy_range(b, 4, 8)));
        }
        assert(field(d, 4, 4) =~= check_bytes());
        if b.len() < 16 {
            return Err(BankError::Truncated);
        }
        if !(b[8] == 66 && b[9] == 97 && b[10] == 110 && b[11] == 107 && b[12] == 48 && b[13] == 48
            && b[14] == 48 && b[15] == 49) {
            assert(field(d, 8, 8)[0] != format_version()[0] || field(d, 8, 8)[1] != format_version()[1] || field(d, 8, 8)[2] != format_version()[2] || field(d, 8, 8)[3] != format_version()[3] || field(d, 8, 8)[4] != format_version()[4] || field(d, 8, 8)[5] != format_version()[5] || field(d, 8, 8)[6] != format_version()[6] || field(d, 8, 8)[7] != format_version()[7]);
            return Err(BankError::UnexpectedFormatVersion(copy_range(b, 8, 16)));
        }
        assert(field(d, 8, 8) =~= format_version());
        if b.len() < 24 {
            return Err(BankError::Truncated);
        }
        let count = read_u64(b, 16);
        let table_len: u128 = TABLE_START as u128 + LOCATION_SIZE as u128 * count as u128;
        if table_len + 8 > b.len() as u128 {
            return Err(BankError::Truncated);
        }
        assert(header_ok(d));
        let table_len = table_len as usize;
        let names_len = read_u64(b, table_len);
        let base: usize = table_len + 8;
        let count = count as usize;
        let mut items: Vec<Item> = Vec::new();
        let mut i: usize = 0;
        while i < count
            invariant
                b@ == d,
                d == data@,
                header_ok(d),
                count == location_count(d),
                table_len == table_end(d),
                base == name_base(d),
                names_len == names_length(d),
                0 <= i <= count,
                items@.map_values(|it: Item| it.view()) == catalog_read(d).take(i as int),
                forall|j: int| 0 <= j < i ==> !#[trigger] name_fault(d, j),
            decreases count - i,
        {
            let p: usize = TABLE_START as usize + LOCATION_SIZE as usize * i;
            let location = Location {
                file_name_offset: read_u64(b, p),
                data_offset: read_u64(b, p + 8),
                data_size: read_u64(b, p + 16),
            };
            assert(location == location_at(d, i as int));
            let start: u128 = base as u128 + location.file_name_offset as u128;
            if start >= b.len() as u128 {
                assert(first_name_fault(d, i as int));
                return Err(BankError::ZeroLengthName(location.file_name_offset));
            }
            let start = start as usize;
            let end = find_name_end(b, start);
            if end as u128 > base as u128 + names_len as u128 {
                assert(first_name_fault(d, i as int));
                return Err(BankError::NamePastEnd);
            }
            let mut name = copy_range(b, start, end);
            if name.len() > 0 && name[name.len() - 1] == 0 {
                name.pop();
            }
            assert(name@ =~= name_at(d, i as int));
            let item = Item { path_bytes: name, location };
            let ghost before = items@;
            assert(item.view() == catalog_read(d)[i as int]);
            items.push(item);
            assert(items@.map_values(|it: Item| it.view()) =~= before.map_values(|it: Item| it.view()).push(item.view()));
            assert(items@.map_values(|it: Item| it.view()) =~= catalog_read(d).take(i + 1));
            i = i + 1;
        }
        assert(catalog_read(d).take(count as int) =~= catalog_read(d));
        assert(names_ok(d));
        let ghost c = catalog_read(d);
        assert(forall|k: int| 0 <= k < c.len() ==> (#[trigger] c[k]).1 == items@[k].location);
        // No two files may share payload bytes: besides being a sign of a
        // corrupt bank, overlapping payloads let a small bank extract to a
        // huge size.
        let mut i: usize = 0;
        while i < count
            invariant
                count == items@.len() == c.len(),
                d == data@,
                header_ok(d),
                names_ok(d),
                c == catalog_read(d),
                forall|k: int| 0 <= k < c.len() ==> (#[trigger] c[k]).1 == items@[k].location,
                forall|k: int| 0 <= k < c.len() ==> (#[trigger] c[k]).0 == items@[k].path_bytes@,
                0 <= i <= count,
                forall|a: int, e: int|
                    0 <= a < i && 0 <= e < count && a != e ==> !overlaps(
                        #[trigger] c[a].1,
                        #[trigger] c[e].1,
                    ),
            decreases count - i,
        {
            let mut j: usize = 0;
            while j < count
                invariant
                    count == items@.len() == c.len(),
                    d == data@,
                    header_ok(d),
                    names_ok(d),
                    c == catalog_read(d),
                    forall|k: int| 0 <= k < c.len() ==> (#[trigger] c[k]).1 == items@[k].location,
                    forall|k: int| 0 <= k < c.len() ==> (#[trigger] c[k]).0 == items@[k].path_bytes@,
                    0 <= i < count,
                    0 <= j <= count,
                    forall|a: int, e: int|
                        0 <= a < i && 0 <= e < count && a != e ==> !overlaps(
                            #[trigger] c[a].1,
                            #[trigger] c[e].1,
                        ),
                    forall|e: int| 0 <= e < j && i != e ==> !overlaps(c[i as int].1, #[trigger] c[e].1),
                decreases count - j,
            {
                let l = items[i].location;
                let m = items[j].location;
                if i != j && l.data_size != 0 && m.data_size != 0 && l.data_offset <= m.data_offset
                    && (m.data_offset as u128) < l.data_offset as u128 + l.data_size as u128 {
                    assert(overlaps(c[i as int].1, c[j as int].1));
                    return Err(
                        BankError::Overlap(
                            copy_range(items[i].path_bytes.as_slice(), 0, items[i].path_bytes.len()),
                            copy_range(items[j].path_bytes.as_slice(), 0, items[j].path_bytes.len()),
                        ),
                    );
                }
                j = j + 1;
            }
            i = i + 1;
        }
        Ok(BankReader { data, items })
    }

    /// All of the items of the bank, in the order of the location table.
    pub fn items(&self) -> (r: Vec<Item>)
        ensures
            r@.map_values(|i: Item| i.view()) == self.catalog(),
    {
        let mut r: Vec<Item> = Vec::new();
        let mut i: usize = 0;
        while i < self.items.len()
            invariant
                0 <= i <= self.items@.len(),
                r@.map_values(|it: Item| it.view()) == self.catalog().take(i as int),
            decreases self.items@.len() - i,
        {
            let it = &self.items[i];
            let copy = Item {
                path_bytes: copy_range(it.path_bytes.as_slice(), 0, it.path_bytes.len()),
                location: it.location,
            };
            assert(it.path_bytes@.subrange(0, it.path_bytes@.len() as int) =~= it.path_bytes@);
            let ghost before = r@;
            r.push(copy);
            assert(r@.map_values(|it: Item| it.view()) =~= before.map_values(|it: Item| it.view()).push(copy.view()));
            assert(r@.map_values(|it: Item| it.view()) =~= self.catalog().take(i + 1));
            i = i + 1;
        }
        assert(self.catalog().take(self.items@.len() as int) =~= self.catalog());
        r
    }

    /// Reads the payload of an item: the bytes at its offset, as many as its
    /// size. Fails when they reach past the end of the bank.
    pub fn read_contents(&self, item: &Item) -> (r: Result<Vec<u8>, BankError>)
        ensures
            r is Ok <==> item.view().1.data_offset + item.view().1.data_size <= self.data().len(),
            r is Err ==> r matches Err(BankError::Truncated),
            r matches Ok(c) ==> c@ == self.data().subrange(
                item.view().1.data_offset as int,
                item.view().1.data_offset + item.view().1.data_size,
            ),
    {
        let start = item.location.data_offset as u128;
        let end = start + item.location.data_size as u128;
        if end > self.data.len() as u128 {
            return Err(BankError::Truncated);
        }
        Ok(copy_range(self.data.as_slice(), start as usize, end as usize))
    }

    /// Reads and parses the metadata record of an item, which must be the
    /// metadata file.
    pub fn read_metadata(&self, item: &Item) -> (r: Result<Metadata, BankError>)
        ensures
            (r matches Err(BankError::NotMetadata)) <==> !(item.view().1.data_size != 0
                && eq_ignore_case(item.view().0, metadata_file_name())),
            (r matches Err(BankError::Truncated)) <==> item.view().1.data_size != 0 && eq_ignore_case(
                item.view().0,
                metadata_file_name(),
            ) && item.view().1.data_offset + item.view().1.data_size > self.data().len(),
            item.view().1.data_size != 0 && eq_ignore_case(item.view().0, metadata_file_name())
                && item.view().1.data_offset + item.view().1.data_size <= self.data().len()
                ==> parsed_as(
                self.data().subrange(
                    item.view().1.data_offset as int,
                    item.view().1.data_offset + item.view().1.data_size,
                ),
                r,
            ),
    {
        if !item.is_metadata_file() {
            return Err(BankError::NotMetadata);
        }
        let data = self.read_contents(item)?;
        BankReader::parse_metadata(data.as_slice())
    }

    /// Parses a metadata record from its JSON text.
    pub fn parse_metadata(json: &[u8]) -> (r: Result<Metadata, BankError>)
        ensures
            parsed_as(json@, r),
    {
        Metadata::parse(json)
    }
}

/// Maps each `/` of a bank path to the host's separator; other bytes are
/// kept.
pub fn host_path_bytes(path: &[u8], separator: u8) -> (r: Vec<u8>)
    ensures
        r@.len() == path@.len(),
        forall|i: int|
            0 <= i < path@.len() ==> r@[i] == (if path@[i] == 47u8 {
                separator
            } else {
                path@[i]
            }),
{
    let mut r: Vec<u8> = Vec::new();
    let mut i: usize = 0;
    while i < path.len()
        invariant
            0 <= i <= path@.len(),
            r@.len() == i,
            forall|j: int|
                0 <= j < i ==> r@[j] == (if path@[j] == 47u8 {
                    separator
                } else {
                    path@[j]
                }),
        decreases path@.len() - i,
    {
        if path[i] == 47u8 {
            r.push(separator);
        } else {
            r.push(path[i]);
        }
        i = i + 1;
    }
    r
}

} // verus!
