//! Writing a bank in one forward pass.

use vstd::prelude::*;

use crate::error::BankError;
use crate::kind::{all_kinds, ascii_bytes, metadata_file_name, spec_directory, ItemKind};
use crate::metadata::{extra_keys_ok, json_string_bytes, metadata_json, stored_id, Metadata};
use crate::layout::{
    bank_bytes, catalog, catalog_of, entry_location, files_of_kind, fits, kind_entries,
    lemma_prefix_lengths, names_block, payload_bytes, payload_start,
    push_header_prefix, push_u64, table_bytes, EntryView, Location, PendingView, LOCATION_SIZE,
    TABLE_START,
};

verus! {

/// One entry of the catalog being written.
struct Entry {
    name: Vec<u8>,
    contents: Vec<u8>,
    is_dir: bool,
}

impl Entry {
    closed spec fn view(&self) -> EntryView {
        (self.name@, self.contents@, self.is_dir)
    }
}

spec fn entries_view(es: Seq<Entry>) -> Seq<EntryView> {
    es.map_values(|e: Entry| e.view())
}

fn copy_bytes(b: &Vec<u8>) -> (r: Vec<u8>)
    ensures
        r@ == b@,
{
    let mut r: Vec<u8> = Vec::new();
    r.extend_from_slice(b.as_slice());
    assert(r@ =~= b@);
    r
}

/// Appends the bytes of a bank with the given catalog, or fails when an
/// offset would not fit in 64 bits.
fn encode_bank(es: &Vec<Entry>, out: &mut Vec<u8>) -> (r: Result<(), BankError>)
    ensures
        fits(entries_view(es@)) ==> r is Ok && final(out)@ == old(out)@ + bank_bytes(
            entries_view(es@),
        ),
        !fits(entries_view(es@)) ==> (r matches Err(BankError::TooLarge)) && final(out)@ == old(out)@,
{
    let ghost ev = entries_view(es@);
    let n = es.len();
    // The name block.
    let mut names: Vec<u8> = Vec::new();
    let mut i: usize = 0;
    while i < n
        invariant
            n == es@.len() == ev.len(),
            ev == entries_view(es@),
            0 <= i <= n,
            names@ == names_block(ev.take(i as int)),
        decreases n - i,
    {
        names.extend_from_slice(es[i].name.as_slice());
        names.push(0u8);
        proof {
            assert(ev.take(i + 1).drop_last() =~= ev.take(i as int));
            assert(ev[i as int].0 == es@[i as int].name@);
        }
        assert(names@ =~= names_block(ev.take(i + 1)));
        i = i + 1;
    }
    assert(ev.take(n as int) =~= ev);
    let start: u128 = TABLE_START as u128 + LOCATION_SIZE as u128 * n as u128 + 8 + names.len() as u128;
    if start > u64::MAX as u128 {
        return Err(BankError::TooLarge);
    }
    // The total size of the payloads.
    let mut total: u64 = 0;
    let mut i: usize = 0;
    while i < n
        invariant
            n == es@.len() == ev.len(),
            ev == entries_view(es@),
            0 <= i <= n,
            start == payload_start(ev),
            total == payload_bytes(ev.take(i as int)).len(),
            start + total <= u64::MAX,
        decreases n - i,
    {
        let len = es[i].contents.len();
        proof {
            assert(ev.take(i + 1).drop_last() =~= ev.take(i as int));
            assert(ev[i as int].1 == es@[i as int].contents@);
        }
        if len as u128 > u64::MAX as u128 - start - total as u128 {
            proof {
                lemma_prefix_lengths(ev, i + 1, n as int);
                assert(ev.take(n as int) =~= ev);
            }
            return Err(BankError::TooLarge);
        }
        total = total + len as u64;
        i = i + 1;
    }
    let base: u64 = start as u64;
    push_header_prefix(out);
    push_u64(out, n as u64);
    let ghost table_start = out@;
    // The location table.
    let mut name_offset: u64 = 0;
    let mut data_cursor: u64 = 0;
    let mut i: usize = 0;
    while i < n
        invariant
            n == es@.len() == ev.len(),
            ev == entries_view(es@),
            0 <= i <= n,
            base == payload_start(ev),
            fits(ev),
            names@ == names_block(ev),
            name_offset == names_block(ev.take(i as int)).len(),
            data_cursor == payload_bytes(ev.take(i as int)).len(),
            out@ == table_start + table_bytes(ev.take(i as int), base as int),
        decreases n - i,
    {
        proof {
            lemma_prefix_lengths(ev, i + 1, n as int);
            assert(ev.take(i + 1).drop_last() =~= ev.take(i as int));
            assert(ev.take(i + 1).take(i as int) =~= ev.take(i as int));
            assert(ev[i as int] == es@[i as int].view());
            assert(ev.take(n as int) =~= ev);
            assert(names_block(ev.take(i + 1)).len() == name_offset + es@[i as int].name@.len() + 1);
            assert(payload_bytes(ev.take(i + 1)).len() == data_cursor + es@[i as int].contents@.len());
        }
        let e = &es[i];
        let data_offset: u64 = if e.is_dir {
            0
        } else {
            base + data_cursor
        };
        let size = e.contents.len() as u64;
        let ghost loc = Location {
            file_name_offset: name_offset,
            data_offset: data_offset,
            data_size: size,
        };
        assert(loc == entry_location(ev.take(i + 1), i as int, base as int));
        push_u64(out, name_offset);
        push_u64(out, data_offset);
        push_u64(out, size);
        assert(out@ =~= table_start + table_bytes(ev.take(i + 1), base as int));
        name_offset = name_offset + e.name.len() as u64 + 1;
        data_cursor = data_cursor + size;
        i = i + 1;
    }
    assert(ev.take(n as int) =~= ev);
    push_u64(out, names.len() as u64);
    out.extend_from_slice(names.as_slice());
    // The payloads.
    let ghost before_payloads = out@;
    let mut i: usize = 0;
    while i < n
        invariant
            n == es@.len() == ev.len(),
            ev == entries_view(es@),
            0 <= i <= n,
            out@ == before_payloads + payload_bytes(ev.take(i as int)),
        decreases n - i,
    {
        proof {
            assert(ev.take(i + 1).drop_last() =~= ev.take(i as int));
            assert(ev[i as int].1 == es@[i as int].contents@);
        }
        out.extend_from_slice(es[i].contents.as_slice());
        assert(out@ =~= before_payloads + payload_bytes(ev.take(i + 1)));
        i = i + 1;
    }
    assert(ev.take(n as int) =~= ev);
    assert(out@ =~= old(out)@ + bank_bytes(ev));
    Ok(())
}

/// The path of an item inside a bank: its kind's directory, a `/` and the file
/// name, or the file name alone for a kind without a directory.
pub open spec fn item_path(kind: ItemKind, file_name: Seq<u8>) -> Seq<u8> {
    match spec_directory(kind) {
        Some(d) => ascii_bytes(d) + seq![47u8] + file_name,
        None => file_name,
    }
}

/// The JSON text of a metadata record whose fields are all empty or absent.
#[verifier::opaque]
pub open spec fn empty_metadata_json() -> Seq<u8> {
    let empty = json_string_bytes(seq![]);
    let null = ascii_bytes(seq!['n', 'u', 'l', 'l']);
    seq![123u8] + crate::metadata::member_json(true, seq!['v', 'e', 'r', 's', 'i', 'o', 'n'], null)
        + crate::metadata::member_json(false, seq!['i', 'd'], empty)
        + crate::metadata::member_json(false, seq!['n', 'a', 'm', 'e'], empty)
        + crate::metadata::member_json(false, seq!['a', 'u', 't', 'h', 'o', 'r'], empty)
        + crate::metadata::member_json(
        false,
        seq!['d', 'e', 's', 'c', 'r', 'i', 'p', 't', 'i', 'o', 'n'],
        empty,
    ) + crate::metadata::member_json(false, seq!['h', 'a', 's', 'h'], null) + seq![10u8, 125u8]
}

/// Whether one of the items is of the metadata kind.
pub open spec fn has_metadata(items: Seq<PendingView>) -> bool {
    exists|i: int| 0 <= i < items.len() && (#[trigger] items[i]).0 == ItemKind::Metadata
}

/// The items that are written: those added, and an empty metadata record
/// when none was added.
pub open spec fn items_to_write(items: Seq<PendingView>) -> Seq<PendingView> {
    if has_metadata(items) {
        items
    } else {
        items.push((ItemKind::Metadata, metadata_file_name(), empty_metadata_json()))
    }
}

/// An item waiting to be written.
pub struct Item {
    kind: ItemKind,
    contents: Vec<u8>,
    /// Path of the file within the bank, including any leading directory.
    path: Vec<u8>,
}

impl Item {
    /// The kind, the path and the contents of the item.
    pub closed spec fn view(&self) -> PendingView {
        (self.kind, self.path@, self.contents@)
    }

    /// Path of the file within the bank, including any leading directory.
    pub fn file_name_bytes(&self) -> (r: Vec<u8>)
        ensures
            r@ == self.view().1,
    {
        copy_bytes(&self.path)
    }
}

/// Writes a bank. Items are added while the bank is open; `write` lays them
/// out once and seals the writer.
pub struct BankWriter {
    items: Vec<Item>,
    /// Whether the bank has already been written.
    written: bool,
    out: Vec<u8>,
}

impl BankWriter {
    /// The items added so far, in the order they were added.
    pub closed spec fn pending(&self) -> Seq<PendingView> {
        self.items@.map_values(|i: Item| i.view())
    }

    /// Whether the bank has been written.
    pub closed spec fn is_written(&self) -> bool {
        self.written
    }

    /// The bytes written so far.
    pub closed spec fn output(&self) -> Seq<u8> {
        self.out@
    }

    pub fn new() -> (r: BankWriter)
        ensures
            r.pending().len() == 0,
            !r.is_written(),
            r.output().len() == 0,
    {
        let r = BankWriter { items: Vec::new(), written: false, out: Vec::new() };
        assert(r.pending() =~= seq![]);
        r
    }

    /// Adds an item. Its path is the kind's directory, a `/` and the file
    /// name, or the file name alone for a kind without a directory. Empty
    /// contents read back as a directory: the format has no empty files.
    pub fn add(&mut self, kind: ItemKind, file_name: &[u8], contents: Vec<u8>) -> (r: Result<
        (),
        BankError,
    >)
        ensures
            old(self).is_written() ==> (r matches Err(BankError::AlreadyWritten)) && final(self).pending() == old(self).pending() && final(self).output() == old(self).output()
                && final(self).is_written(),
            !old(self).is_written() ==> r is Ok && final(self).pending() == old(self).pending().push(
                (kind, item_path(kind, file_name@), contents@),
            ) && final(self).output() == old(self).output() && !final(self).is_written(),
    {
        if self.written {
            return Err(BankError::AlreadyWritten);
        }
        let mut path: Vec<u8> = Vec::new();
        match kind.directory() {
            Some(dir) => {
                proof {
                    vstd::string::is_ascii_spec_bytes(dir);
                }
                path.extend_from_slice(dir.as_bytes());
                path.push(47u8);
                path.extend_from_slice(file_name);
            },
            None => {
                path.extend_from_slice(file_name);
            },
        }
        assert(path@ =~= item_path(kind, file_name@));
        let item = Item { kind, contents, path };
        self.items.push(item);
        assert(self.pending() =~= old(self).pending().push(
            (kind, item_path(kind, file_name@), item.view().2),
        ));
        Ok(())
    }

    /// Adds the metadata record as the metadata file, pretty-printed, with
    /// an id made from the author and the name when the record has none.
    pub fn add_metadata(&mut self, metadata: &Metadata) -> (r: Result<(), BankError>)
        requires
            extra_keys_ok(metadata.extra@),
        ensures
            old(self).is_written() ==> (r matches Err(BankError::AlreadyWritten)) && final(self).pending() == old(self).pending() && final(self).output() == old(self).output()
                && final(self).is_written(),
            !old(self).is_written() ==> r is Ok && final(self).pending() == old(self).pending().push(
                (
                    ItemKind::Metadata,
                    metadata_file_name(),
                    metadata_json(*metadata, stored_id(*metadata)),
                ),
            ) && final(self).output() == old(self).output() && !final(self).is_written(),
    {
        let contents = metadata.to_json();
        proof {
            reveal_strlit("index.json");
            vstd::string::is_ascii_spec_bytes(Metadata::FILE_NAME);
        }
        let name = Metadata::FILE_NAME.as_bytes();
        assert(name@ =~= metadata_file_name());
        assert(item_path(ItemKind::Metadata, name@) == name@);
        self.add(ItemKind::Metadata, name, contents)
    }

    /// Whether an item of the metadata kind was added.
    fn has_metadata(&self) -> (r: bool)
        ensures
            r == has_metadata(self.pending()),
    {
        let mut i: usize = 0;
        while i < self.items.len()
            invariant
                0 <= i <= self.items@.len(),
                forall|j: int| 0 <= j < i ==> (#[trigger] self.items@[j]).kind != ItemKind::Metadata,
            decreases self.items@.len() - i,
        {
            if self.items[i].kind == ItemKind::Metadata {
                assert(self.pending()[i as int].0 == ItemKind::Metadata);
                return true;
            }
            i = i + 1;
        }
        assert forall|j: int| 0 <= j < self.pending().len() implies (#[trigger] self.pending()[j]).0
            != ItemKind::Metadata by {
            assert(self.pending()[j] == self.items@[j].view());
        }
        false
    }

    /// The catalog entries of the items of one kind.
    fn push_kind_entries(&self, kind: ItemKind, es: &mut Vec<Entry>)
        ensures
            entries_view(final(es)@) == entries_view(old(es)@) + kind_entries(self.pending(), kind),
    {
        let mut files: Vec<Entry> = Vec::new();
        let mut i: usize = 0;
        while i < self.items.len()
            invariant
                0 <= i <= self.items@.len(),
                entries_view(files@) == files_of_kind(self.pending().take(i as int), kind),
            decreases self.items@.len() - i,
        {
            let item = &self.items[i];
            proof {
                assert(self.pending().take(i + 1).drop_last() =~= self.pending().take(i as int));
                assert(self.pending()[i as int] == item.view());
            }
            if item.kind == kind {
                let e = Entry { name: copy_bytes(&item.path), contents: copy_bytes(&item.contents), is_dir: false };
                files.push(e);
            }
            assert(entries_view(files@) =~= files_of_kind(self.pending().take(i + 1), kind));
            i = i + 1;
        }
        assert(self.pending().take(self.items@.len() as int) =~= self.pending());
        let ghost start = entries_view(es@);
        if files.len() > 0 {
            match kind.directory() {
                Some(dir) => {
                    proof {
                        vstd::string::is_ascii_spec_bytes(dir);
                    }
                    let mut name: Vec<u8> = Vec::new();
                    name.extend_from_slice(dir.as_bytes());
                    assert(name@ =~= ascii_bytes(dir@));
                    es.push(Entry { name, contents: Vec::new(), is_dir: true });
                },
                None => {},
            }
            let ghost mid = entries_view(es@);
            let mut i: usize = 0;
            while i < files.len()
                invariant
                    0 <= i <= files@.len(),
                    entries_view(es@) == mid + entries_view(files@).take(i as int),
                decreases files@.len() - i,
            {
                let f = &files[i];
                let e = Entry { name: copy_bytes(&f.name), contents: copy_bytes(&f.contents), is_dir: f.is_dir };
                assert(e.view() == entries_view(files@)[i as int]);
                let ghost before = es@;
                es.push(e);
                assert(entries_view(es@) =~= entries_view(before).push(e.view()));
                assert(entries_view(es@) =~= mid + entries_view(files@).take(i + 1));
                i = i + 1;
            }
            assert(entries_view(files@).take(files@.len() as int) =~= entries_view(files@));
        }
        assert(entries_view(es@) =~= start + kind_entries(self.pending(), kind));
    }

    /// The catalog of the items added: grouped by kind in the order of the
    /// enumeration, each kind's directory first.
    fn catalog(&self) -> (r: Vec<Entry>)
        ensures
            entries_view(r@) == catalog(self.pending()),
    {
        let kinds = ItemKind::all();
        let mut es: Vec<Entry> = Vec::new();
        let mut i: usize = 0;
        while i < 41
            invariant
                0 <= i <= 41,
                kinds@ == all_kinds(),
                entries_view(es@) == catalog_of(all_kinds().take(i as int), self.pending()),
            decreases 41 - i,
        {
            proof {
                assert(all_kinds().take(i + 1).drop_last() =~= all_kinds().take(i as int));
            }
            self.push_kind_entries(kinds[i], &mut es);
            i = i + 1;
        }
        assert(all_kinds().take(41) =~= all_kinds());
        es
    }

    /// Lays the bank out and writes it: the header, the location table, the
    /// name block and the payloads, grouped by kind in the order of the
    /// enumeration. An empty metadata record is added first when none was.
    /// After this, nothing can be added.
    pub fn write(&mut self) -> (r: Result<(), BankError>)
        ensures
            old(self).is_written() ==> (r matches Err(BankError::AlreadyWritten)) && final(self).pending() == old(self).pending() && final(self).output() == old(self).output()
                && final(self).is_written(),
            !old(self).is_written() ==> final(self).pending() == items_to_write(old(self).pending()),
            !old(self).is_written() && fits(catalog(items_to_write(old(self).pending()))) ==> r is Ok
                && final(self).is_written() && final(self).output() == old(self).output()
                + bank_bytes(catalog(items_to_write(old(self).pending()))),
            !old(self).is_written() && !fits(catalog(items_to_write(old(self).pending()))) ==> (r matches Err(
                BankError::TooLarge,
            )) && !final(self).is_written() && final(self).output() == old(self).output(),
    {
        if self.written {
            return Err(BankError::AlreadyWritten);
        }
        if !self.has_metadata() {
            let empty = Metadata::default();
            assert(empty.id@ =~= seq![]);
            assert(empty.name@ =~= seq![]);
            assert(empty.author@ =~= seq![]);
            assert(empty.description@ =~= seq![]);
            assert(empty.extra@ =~= seq![]);
            assert(metadata_json(empty, stored_id(empty)) =~= empty_metadata_json()) by {
                reveal(empty_metadata_json);
            }
            let _ = self.add_metadata(&empty);
        }
        let es = self.catalog();
        let result = encode_bank(&es, &mut self.out);
        match result {
            Ok(()) => {
                self.written = true;
                Ok(())
            },
            Err(e) => Err(e),
        }
    }

    /// The bytes written.
    pub fn bytes(&self) -> (r: &[u8])
        ensures
            r@ == self.output(),
    {
        self.out.as_slice()
    }

    /// The bytes written, taking the writer apart.
    pub fn into_bytes(self) -> (r: Vec<u8>)
        ensures
            r@ == self.output(),
    {
        self.out
    }
}

} // verus!
