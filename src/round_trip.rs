//! What the reader makes of the bytes that the writer lays out.

use vstd::prelude::*;

use crate::kind::{ascii_bytes, metadata_file_name, spec_directory, ItemKind};
use crate::write::{empty_metadata_json, items_to_write};
use crate::layout::{
    bank_bytes, catalog, catalog_of, entry_location, file_id, check_bytes, files_of_kind, fits,
    format_version, header_prefix, kind_entries, le_bytes, lemma_le_round_trip,
    lemma_prefix_lengths, location_bytes, names_block, payload_bytes, payload_start, table_bytes,
    EntryView, PendingView,
};
use crate::read::{
    catalog_read, field, has_overlap, header_ok, location_at, location_count, name_at, name_base,
    name_end, name_fault, name_start, names_length, names_ok, overlaps,
};

verus! {

/// Whether no name holds a zero byte and every directory is empty.
pub open spec fn well_formed_entries(es: Seq<EntryView>) -> bool {
    forall|i: int|
        0 <= i < es.len() ==> !(#[trigger] es[i]).0.contains(0u8) && (es[i].2 ==> es[i].1.len()
            == 0)
}

/// The location table holds the location of each entry, one after the other.
proof fn lemma_table(es: Seq<EntryView>, base: int, i: int)
    requires
        0 <= i < es.len(),
    ensures
        table_bytes(es, base).len() == 24 * es.len(),
        table_bytes(es, base).subrange(24 * i, 24 * i + 24) == location_bytes(
            entry_location(es, i, base),
        ),
    decreases es.len(),
{
    let n = es.len() as int;
    let last = location_bytes(entry_location(es, n - 1, base));
    if n == 1 {
        assert(table_bytes(es.drop_last(), base) =~= seq![]);
        assert(table_bytes(es, base).subrange(0, 24) =~= last);
    } else {
        let k = if i < n - 1 {
            i
        } else {
            0
        };
        lemma_table(es.drop_last(), base, k);
        let t = table_bytes(es.drop_last(), base);
        if i < n - 1 {
            assert(es.drop_last().take(i) =~= es.take(i));
            assert(entry_location(es.drop_last(), i, base) == entry_location(es, i, base));
            assert(table_bytes(es, base).subrange(24 * i, 24 * i + 24) =~= t.subrange(
                24 * i,
                24 * i + 24,
            ));
        } else {
            assert(table_bytes(es, base).subrange(24 * i, 24 * i + 24) =~= last);
        }
    }
}

/// The name block of a prefix is a prefix of the name block, and the name of
/// entry `i` follows it with its zero byte.
proof fn lemma_names_prefix(es: Seq<EntryView>, i: int, j: int)
    requires
        0 <= i < j <= es.len(),
    ensures
        names_block(es.take(j)).subrange(
            names_block(es.take(i)).len() as int,
            names_block(es.take(i + 1)).len() as int,
        ) == es[i].0 + seq![0u8],
        names_block(es.take(i + 1)).len() == names_block(es.take(i)).len() + es[i].0.len() + 1,
        names_block(es.take(i + 1)).len() <= names_block(es.take(j)).len(),
    decreases j - i,
{
    assert(es.take(i + 1).drop_last() =~= es.take(i));
    if j == i + 1 {
        assert(names_block(es.take(j)).subrange(
            names_block(es.take(i)).len() as int,
            names_block(es.take(i + 1)).len() as int,
        ) =~= es[i].0 + seq![0u8]);
    } else {
        lemma_names_prefix(es, i, j - 1);
        assert(es.take(j).drop_last() =~= es.take(j - 1));
        assert(names_block(es.take(j)).subrange(
            names_block(es.take(i)).len() as int,
            names_block(es.take(i + 1)).len() as int,
        ) =~= names_block(es.take(j - 1)).subrange(
            names_block(es.take(i)).len() as int,
            names_block(es.take(i + 1)).len() as int,
        ));
    }
}

/// The payloads of a prefix are a prefix of the payloads, and the contents of
/// entry `i` follow them.
proof fn lemma_payload_prefix(es: Seq<EntryView>, i: int, j: int)
    requires
        0 <= i < j <= es.len(),
    ensures
        payload_bytes(es.take(j)).subrange(
            payload_bytes(es.take(i)).len() as int,
            payload_bytes(es.take(i + 1)).len() as int,
        ) == es[i].1,
        payload_bytes(es.take(i + 1)).len() == payload_bytes(es.take(i)).len() + es[i].1.len(),
        payload_bytes(es.take(i + 1)).len() <= payload_bytes(es.take(j)).len(),
    decreases j - i,
{
    assert(es.take(i + 1).drop_last() =~= es.take(i));
    if j == i + 1 {
        assert(payload_bytes(es.take(j)).subrange(
            payload_bytes(es.take(i)).len() as int,
            payload_bytes(es.take(i + 1)).len() as int,
        ) =~= es[i].1);
    } else {
        lemma_payload_prefix(es, i, j - 1);
        assert(es.take(j).drop_last() =~= es.take(j - 1));
        assert(payload_bytes(es.take(j)).subrange(
            payload_bytes(es.take(i)).len() as int,
            payload_bytes(es.take(i + 1)).len() as int,
        ) =~= payload_bytes(es.take(j - 1)).subrange(
            payload_bytes(es.take(i)).len() as int,
            payload_bytes(es.take(i + 1)).len() as int,
        ));
    }
}

/// A name without zero bytes followed by a zero byte ends just past it.
proof fn lemma_name_end(b: Seq<u8>, p: int, m: int)
    requires
        0 <= p,
        0 <= m,
        p + m < b.len(),
        forall|k: int| p <= k < p + m ==> b[k] != 0,
        b[p + m] == 0,
    ensures
        name_end(b, p) == p + m + 1,
    decreases m,
{
    if m > 0 {
        lemma_name_end(b, p + 1, m - 1);
    }
}

/// Where each part of a bank's bytes lies.
proof fn lemma_parts(es: Seq<EntryView>)
    ensures
        ({
            let b = bank_bytes(es);
            let n = es.len() as int;
            let base = payload_start(es);
            let t = table_bytes(es, base);
            let names = names_block(es);
            let p = payload_bytes(es);
            &&& t.len() == 24 * n
            &&& b.len() == base + p.len()
            &&& base == 32 + 24 * n + names.len()
            &&& b.take(4) == file_id()
            &&& field(b, 4, 4) == check_bytes()
            &&& field(b, 8, 8) == format_version()
            &&& field(b, 16, 8) == le_bytes(n as u64)
            &&& field(b, 24 + 24 * n, 8) == le_bytes(names.len() as u64)
            &&& forall|k: int| 24 <= k < 24 + 24 * n ==> b[k] == t[k - 24]
            &&& forall|k: int| 32 + 24 * n <= k < base ==> b[k] == names[k - (32 + 24 * n)]
            &&& forall|k: int| base <= k < b.len() ==> b[k] == p[k - base]
        }),
{
    let b = bank_bytes(es);
    let n = es.len() as int;
    let base = payload_start(es);
    let t = table_bytes(es, base);
    let names = names_block(es);
    let p = payload_bytes(es);
    if n > 0 {
        lemma_table(es, base, 0);
    } else {
        assert(t =~= seq![]);
    }
    let a = header_prefix() + le_bytes(n as u64);
    let d = a + t + le_bytes(names.len() as u64) + names;
    assert(b =~= d + p);
    assert(b.take(4) =~= file_id());
    assert(field(b, 4, 4) =~= check_bytes());
    assert(field(b, 8, 8) =~= format_version());
    assert(field(b, 16, 8) =~= le_bytes(n as u64));
    assert(field(b, 24 + 24 * n, 8) =~= le_bytes(names.len() as u64));
}

/// The header of a bank reads back.
proof fn lemma_header(es: Seq<EntryView>)
    requires
        fits(es),
    ensures
        header_ok(bank_bytes(es)),
        location_count(bank_bytes(es)) == es.len(),
        names_length(bank_bytes(es)) == names_block(es).len(),
        name_base(bank_bytes(es)) == 32 + 24 * es.len(),
{
    let b = bank_bytes(es);
    lemma_parts(es);
    lemma_le_round_trip(es.len() as u64);
    lemma_le_round_trip(names_block(es).len() as u64);
}

/// The location record of entry `i` reads back.
proof fn lemma_location(es: Seq<EntryView>, i: int)
    requires
        fits(es),
        0 <= i < es.len(),
    ensures
        location_at(bank_bytes(es), i) == entry_location(es, i, payload_start(es)),
{
    let b = bank_bytes(es);
    let base = payload_start(es);
    let e = entry_location(es, i, base);
    lemma_parts(es);
    lemma_table(es, base, i);
    let t = table_bytes(es, base);
    let q = 24 + 24 * i;
    let lb = location_bytes(e);
    assert(b.subrange(q, q + 24) =~= t.subrange(24 * i, 24 * i + 24));
    assert(field(b, q, 8) =~= lb.subrange(0, 8));
    assert(field(b, q + 8, 8) =~= lb.subrange(8, 16));
    assert(field(b, q + 16, 8) =~= lb.subrange(16, 24));
    assert(lb.subrange(0, 8) =~= le_bytes(e.file_name_offset));
    assert(lb.subrange(8, 16) =~= le_bytes(e.data_offset));
    assert(lb.subrange(16, 24) =~= le_bytes(e.data_size));
    lemma_le_round_trip(e.file_name_offset);
    lemma_le_round_trip(e.data_offset);
    lemma_le_round_trip(e.data_size);
}

/// The name of entry `i` reads back.
#[verifier::rlimit(40)]
proof fn lemma_name(es: Seq<EntryView>, i: int)
    requires
        fits(es),
        well_formed_entries(es),
        0 <= i < es.len(),
    ensures
        !name_fault(bank_bytes(es), i),
        name_at(bank_bytes(es), i) == es[i].0,
{
    let b = bank_bytes(es);
    let n = es.len() as int;
    let names = names_block(es);
    let nb = 32 + 24 * n;
    lemma_parts(es);
    lemma_header(es);
    lemma_location(es, i);
    assert(es.take(n) =~= es);
    lemma_names_prefix(es, i, n);
    lemma_prefix_lengths(es, i, n);
    let off = names_block(es.take(i)).len() as int;
    let m = es[i].0.len() as int;
    let name = es[i].0;
    let start = nb + off;
    assert(name_start(b, i) == start);
    let w = b.subrange(start, start + m + 1);
    assert(w =~= names.subrange(off, off + m + 1));
    assert(w =~= name + seq![0u8]);
    assert forall|k: int| start <= k < start + m implies b[k] != 0 by {
        assert(b[k] == w[k - start]);
        assert(w[k - start] == name[k - start]);
        assert(name.contains(name[k - start]));
    }
    assert(b[start + m] == w[m]);
    lemma_name_end(b, start, m);
    assert(name_at(b, i) =~= name);
}

/// The contents of entry `i` read back from its location.
proof fn lemma_contents(es: Seq<EntryView>, i: int)
    requires
        fits(es),
        well_formed_entries(es),
        0 <= i < es.len(),
    ensures
        ({
            let l = entry_location(es, i, payload_start(es));
            &&& l.data_size == es[i].1.len()
            &&& l.data_offset + l.data_size <= bank_bytes(es).len()
            &&& bank_bytes(es).subrange(l.data_offset as int, l.data_offset + l.data_size)
                == es[i].1
        }),
{
    let b = bank_bytes(es);
    let n = es.len() as int;
    let base = payload_start(es);
    let p = payload_bytes(es);
    lemma_parts(es);
    assert(es.take(n) =~= es);
    lemma_payload_prefix(es, i, n);
    if !es[i].2 {
        let po = payload_bytes(es.take(i)).len() as int;
        let s = es[i].1.len() as int;
        assert(b.subrange(base + po, base + po + s) =~= p.subrange(po, po + s));
    } else {
        assert(b.subrange(0, 0) =~= es[i].1);
    }
}

/// The reader finds in the bytes of a bank the entries it was laid out from:
/// the header checks pass, every name reads back, no two payloads overlap,
/// and each entry has its name, its location and its contents.
pub proof fn lemma_read_back(es: Seq<EntryView>)
    requires
        fits(es),
        well_formed_entries(es),
    ensures
        header_ok(bank_bytes(es)),
        names_ok(bank_bytes(es)),
        !has_overlap(catalog_read(bank_bytes(es))),
        catalog_read(bank_bytes(es)).len() == es.len(),
        forall|i: int|
            0 <= i < es.len() ==> {
                let l = (#[trigger] catalog_read(bank_bytes(es))[i]).1;
                &&& catalog_read(bank_bytes(es))[i].0 == es[i].0
                &&& l == entry_location(es, i, payload_start(es))
                &&& l.data_size == es[i].1.len()
                &&& l.data_offset + l.data_size <= bank_bytes(es).len()
                &&& bank_bytes(es).subrange(l.data_offset as int, l.data_offset + l.data_size)
                    == es[i].1
            },
{
    let b = bank_bytes(es);
    let n = es.len() as int;
    let c = catalog_read(b);
    lemma_header(es);
    assert forall|i: int| 0 <= i < n implies !#[trigger] name_fault(b, i) by {
        lemma_name(es, i);
    }
    assert forall|i: int| 0 <= i < n implies {
        let l = (#[trigger] c[i]).1;
        &&& c[i].0 == es[i].0
        &&& l == entry_location(es, i, payload_start(es))
        &&& l.data_size == es[i].1.len()
        &&& l.data_offset + l.data_size <= b.len()
        &&& b.subrange(l.data_offset as int, l.data_offset + l.data_size) == es[i].1
    } by {
        lemma_location(es, i);
        lemma_name(es, i);
        lemma_contents(es, i);
    }
    assert(es.take(n) =~= es);
    assert forall|i: int, j: int|
        0 <= i < c.len() && 0 <= j < c.len() && i != j implies !overlaps(
        #[trigger] c[i].1,
        #[trigger] c[j].1,
    ) by {
        lemma_location(es, i);
        lemma_location(es, j);
        let li = c[i].1;
        let lj = c[j].1;
        if li.data_size != 0 && lj.data_size != 0 {
            let (lo, hi) = if i < j {
                (i, j)
            } else {
                (j, i)
            };
            lemma_payload_prefix(es, lo, hi);
            lemma_prefix_lengths(es, hi, n);
        }
    }
}

/// A directory name holds no zero byte.
proof fn lemma_directory_name(kind: ItemKind)
    ensures
        spec_directory(kind) matches Some(d) ==> !ascii_bytes(d).contains(0u8),
{
    if let Some(d) = spec_directory(kind) {
        assert forall|j: int| 0 <= j < d.len() implies ascii_bytes(d)[j] != 0u8 by {
            match kind {
                ItemKind::Background => {},
                ItemKind::Metadata => {},
                ItemKind::Sample => {},
                ItemKind::MultipassPreset => {},
                ItemKind::PhasePlantPreset => {},
                ItemKind::SnapHeapPreset => {},
                ItemKind::ThreeBandEq => {},
                ItemKind::Bitcrush => {},
                ItemKind::CarveEq => {},
                ItemKind::Chorus => {},
                ItemKind::CombFilter => {},
                ItemKind::Compressor => {},
                ItemKind::Convolver => {},
                ItemKind::Delay => {},
                ItemKind::Disperser => {},
                ItemKind::Distortion => {},
                ItemKind::Dynamics => {},
                ItemKind::Ensemble => {},
                ItemKind::Faturator => {},
                ItemKind::Filter => {},
                ItemKind::Flanger => {},
                ItemKind::FormatFilter => {},
                ItemKind::FrequencyShifter => {},
                ItemKind::Gain => {},
                ItemKind::Gate => {},
                ItemKind::Haas => {},
                ItemKind::LadderFilter => {},
                ItemKind::Limiter => {},
                ItemKind::NonlinearFilter => {},
                ItemKind::PhaseDistortion => {},
                ItemKind::Phaser => {},
                ItemKind::PitchShifter => {},
                ItemKind::Resonator => {},
                ItemKind::Reverb => {},
                ItemKind::Reverser => {},
                ItemKind::RingMod => {},
                ItemKind::SliceEq => {},
                ItemKind::Stereo => {},
                ItemKind::TapeStop => {},
                ItemKind::TranceGate => {},
                ItemKind::TransientShaper => {},
            }
        }
    }
}

/// Whether every file entry is one of the items: its path and its contents.
pub open spec fn entries_from(es: Seq<EntryView>, items: Seq<PendingView>) -> bool {
    forall|i: int|
        0 <= i < es.len() && !(#[trigger] es[i]).2 ==> exists|j: int|
            0 <= j < items.len() && (#[trigger] items[j]).1 == es[i].0 && items[j].2 == es[i].1
}

/// The entries of one kind are well formed when no path holds a zero byte.
proof fn lemma_kind_entries(items: Seq<PendingView>, kind: ItemKind)
    requires
        forall|i: int| 0 <= i < items.len() ==> !(#[trigger] items[i]).1.contains(0u8),
    ensures
        well_formed_entries(kind_entries(items, kind)),
        entries_from(kind_entries(items, kind), items),
{
    lemma_files_of_kind(items, kind);
    lemma_directory_name(kind);
    let files = files_of_kind(items, kind);
    if files.len() > 0 {
        if let Some(d) = spec_directory(kind) {
            let es = seq![(ascii_bytes(d), Seq::<u8>::empty(), true)] + files;
            assert forall|i: int| 0 <= i < es.len() implies !(#[trigger] es[i]).0.contains(0u8)
                && (es[i].2 ==> es[i].1.len() == 0) by {
                if i > 0 {
                    assert(es[i] == files[i - 1]);
                }
            }
            assert forall|i: int| 0 <= i < es.len() && !(#[trigger] es[i]).2 implies exists|j: int|
                0 <= j < items.len() && (#[trigger] items[j]).1 == es[i].0 && items[j].2 == es[i].1 by {
                assert(es[i] == files[i - 1]);
            }
        }
    }
}

/// The files of one kind are well formed when no path holds a zero byte.
proof fn lemma_files_of_kind(items: Seq<PendingView>, kind: ItemKind)
    requires
        forall|i: int| 0 <= i < items.len() ==> !(#[trigger] items[i]).1.contains(0u8),
    ensures
        well_formed_entries(files_of_kind(items, kind)),
        forall|i: int| 0 <= i < files_of_kind(items, kind).len() ==> !(#[trigger] files_of_kind(items, kind)[i]).2,
        entries_from(files_of_kind(items, kind), items),
    decreases items.len(),
{
    if items.len() > 0 {
        let rest = items.drop_last();
        assert forall|i: int| 0 <= i < rest.len() implies !(#[trigger] rest[i]).1.contains(0u8) by {
            assert(rest[i] == items[i]);
        }
        lemma_files_of_kind(rest, kind);
        let n = items.len() - 1;
        assert(items.last() == items[n]);
        let f = files_of_kind(items, kind);
        let fr = files_of_kind(rest, kind);
        assert forall|i: int| 0 <= i < f.len() && !(#[trigger] f[i]).2 implies exists|j: int|
            0 <= j < items.len() && (#[trigger] items[j]).1 == f[i].0 && items[j].2 == f[i].1 by {
            if i < fr.len() {
                assert(f[i] == fr[i]);
                let j = choose|j: int|
                    0 <= j < rest.len() && (#[trigger] rest[j]).1 == fr[i].0 && rest[j].2 == fr[i].1;
                assert(items[j] == rest[j]);
            } else {
                assert(items[n].1 == f[i].0 && items[n].2 == f[i].1);
            }
        }
    }
}

/// The catalog of a bank is well formed when no path holds a zero byte.
proof fn lemma_catalog_of(kinds: Seq<ItemKind>, items: Seq<PendingView>)
    requires
        forall|i: int| 0 <= i < items.len() ==> !(#[trigger] items[i]).1.contains(0u8),
    ensures
        well_formed_entries(catalog_of(kinds, items)),
        entries_from(catalog_of(kinds, items), items),
    decreases kinds.len(),
{
    if kinds.len() > 0 {
        lemma_catalog_of(kinds.drop_last(), items);
        lemma_kind_entries(items, kinds.last());
        let a = catalog_of(kinds.drop_last(), items);
        let k = kind_entries(items, kinds.last());
        assert forall|i: int| 0 <= i < a.len() + k.len() implies !(#[trigger] (a + k)[i]).0.contains(0u8)
            && ((a + k)[i].2 ==> (a + k)[i].1.len() == 0) by {
            if i < a.len() {
                assert((a + k)[i] == a[i]);
            } else {
                assert((a + k)[i] == k[i - a.len()]);
            }
        }
        assert forall|i: int| 0 <= i < a.len() + k.len() && !(#[trigger] (a + k)[i]).2 implies exists|j: int|
            0 <= j < items.len() && (#[trigger] items[j]).1 == (a + k)[i].0 && items[j].2 == (a + k)[i].1 by {
            if i < a.len() {
                assert((a + k)[i] == a[i]);
            } else {
                assert((a + k)[i] == k[i - a.len()]);
            }
        }
    }
}

/// Reading back a written bank gives its catalog: the items grouped by kind
/// in the order of the enumeration, in the order they were added within a
/// kind, each kind's directory first (an empty entry), each file entry one of
/// the items, and each payload as it was given, within the bytes. The
/// paths must hold no zero byte, which ends a name in the name block, and the
/// offsets must fit in 64 bits.
pub proof fn lemma_round_trip(items: Seq<PendingView>)
    requires
        fits(catalog(items)),
        forall|i: int| 0 <= i < items.len() ==> !(#[trigger] items[i]).1.contains(0u8),
    ensures
        header_ok(bank_bytes(catalog(items))),
        names_ok(bank_bytes(catalog(items))),
        !has_overlap(catalog_read(bank_bytes(catalog(items)))),
        catalog_read(bank_bytes(catalog(items))).len() == catalog(items).len(),
        forall|i: int|
            0 <= i < catalog(items).len() ==> {
                let l = (#[trigger] catalog_read(bank_bytes(catalog(items)))[i]).1;
                &&& catalog_read(bank_bytes(catalog(items)))[i].0 == catalog(items)[i].0
                &&& l.data_size == catalog(items)[i].1.len()
                &&& l.data_offset + l.data_size <= bank_bytes(catalog(items)).len()
                &&& (catalog(items)[i].2 ==> l.data_size == 0)
                &&& (!catalog(items)[i].2 ==> exists|j: int|
                    0 <= j < items.len() && (#[trigger] items[j]).1 == catalog(items)[i].0
                        && items[j].2 == catalog(items)[i].1)
                &&& bank_bytes(catalog(items)).subrange(
                    l.data_offset as int,
                    l.data_offset + l.data_size,
                ) == catalog(items)[i].1
            },
{
    lemma_catalog_of(crate::kind::all_kinds(), items);
    lemma_read_back(catalog(items));
}

/// The catalog of kinds with no items is empty.
proof fn lemma_catalog_without_items(kinds: Seq<ItemKind>, items: Seq<PendingView>)
    requires
        forall|i: int| 0 <= i < kinds.len() ==> files_of_kind(items, #[trigger] kinds[i]).len() == 0,
    ensures
        catalog_of(kinds, items) == Seq::<EntryView>::empty(),
    decreases kinds.len(),
{
    if kinds.len() > 0 {
        let rest = kinds.drop_last();
        assert forall|i: int| 0 <= i < rest.len() implies files_of_kind(items, #[trigger] rest[i]).len() == 0 by {
            assert(rest[i] == kinds[i]);
        }
        assert forall|i: int| 0 <= i < rest.len() implies files_of_kind(items, #[trigger] rest[i]).len() == 0 by {
        assert(files_of_kind(items, rest[i]) == Seq::<EntryView>::empty());
    }
    lemma_catalog_without_items(rest, items);
        assert(files_of_kind(items, kinds[kinds.len() - 1]).len() == 0);
        assert(catalog_of(kinds, items) =~= Seq::<EntryView>::empty());
    }
}

/// The catalog of two runs of kinds is the catalog of the first, then that of
/// the second.
proof fn lemma_catalog_concat(a: Seq<ItemKind>, b: Seq<ItemKind>, items: Seq<PendingView>)
    ensures
        catalog_of(a + b, items) == catalog_of(a, items) + catalog_of(b, items),
    decreases b.len(),
{
    if b.len() == 0 {
        assert(a + b =~= a);
        assert(catalog_of(b, items) =~= Seq::<EntryView>::empty());
        assert(catalog_of(a, items) + catalog_of(b, items) =~= catalog_of(a, items));
    } else {
        lemma_catalog_concat(a, b.drop_last(), items);
        assert((a + b).drop_last() =~= a + b.drop_last());
        assert((a + b).last() == b.last());
        assert(catalog_of(a + b, items) =~= catalog_of(a, items) + catalog_of(b, items));
    }
}

/// A string's JSON text is at most six bytes for each UTF-8 byte, and two
/// quotes.
proof fn lemma_json_string_length(s: Seq<char>)
    ensures
        crate::metadata::json_string_bytes(s).len() <= 2 + 24 * s.len(),
{
    lemma_encode_length(s);
    lemma_escaped_length(vstd::utf8::encode_utf8(s));
}

/// UTF-8 takes at most four bytes a character.
proof fn lemma_encode_length(s: Seq<char>)
    ensures
        vstd::utf8::encode_utf8(s).len() <= 4 * s.len(),
    decreases s.len(),
{
    if s.len() > 0 {
        lemma_encode_length(s.drop_first());
    }
}

/// Escaping takes at most six bytes a byte.
proof fn lemma_escaped_length(b: Seq<u8>)
    ensures
        crate::metadata::escaped(b).len() <= 6 * b.len(),
    decreases b.len(),
{
    if b.len() > 0 {
        lemma_escaped_length(b.drop_last());
    }
}

/// A bank to which nothing was added fits, and reads back as one item: the
/// empty metadata record, named "index.json".
pub proof fn lemma_empty_bank()
    ensures
        fits(catalog(items_to_write(seq![]))),
        catalog(items_to_write(seq![])) == seq![
            (metadata_file_name(), empty_metadata_json(), false),
        ],
        catalog_read(bank_bytes(catalog(items_to_write(seq![])))).len() == 1,
        catalog_read(bank_bytes(catalog(items_to_write(seq![]))))[0].0 == metadata_file_name(),
{
    let items = items_to_write(seq![]);
    let e = (metadata_file_name(), empty_metadata_json(), false);
    let m = (ItemKind::Metadata, metadata_file_name(), empty_metadata_json());
    assert(items =~= seq![m]);
    assert(items.drop_last() =~= Seq::<PendingView>::empty());
    assert(items.last() == m);
    assert forall|k: ItemKind| #[trigger] files_of_kind(items, k) == (if k == ItemKind::Metadata {
        seq![e]
    } else {
        Seq::<EntryView>::empty()
    }) by {
        assert(files_of_kind(items.drop_last(), k) =~= Seq::<EntryView>::empty());
        if k == ItemKind::Metadata {
            assert(files_of_kind(items, k) =~= seq![e]);
        } else {
            assert(files_of_kind(items, k) =~= Seq::<EntryView>::empty());
        }
    }
    let ks = crate::kind::all_kinds();
    let head = ks.take(2);
    let rest = ks.skip(2);
    assert(ks =~= head + rest);
    assert(head.drop_last() =~= seq![ItemKind::Background]);
    assert(head.drop_last().drop_last() =~= Seq::<ItemKind>::empty());
    assert(catalog_of(head.drop_last().drop_last(), items) =~= Seq::<EntryView>::empty());
    assert(files_of_kind(items, ItemKind::Background) == Seq::<EntryView>::empty());
    assert(kind_entries(items, ItemKind::Background) =~= Seq::<EntryView>::empty());
    assert(catalog_of(head.drop_last(), items) =~= Seq::<EntryView>::empty());
    assert(kind_entries(items, ItemKind::Metadata) =~= seq![e]);
    assert(catalog_of(head, items) =~= seq![e]);
    assert forall|i: int| 0 <= i < rest.len() implies (#[trigger] rest[i]) != ItemKind::Metadata by {
        assert(rest[i] == ks[i + 2]);
    }
    assert forall|i: int| 0 <= i < rest.len() implies files_of_kind(items, #[trigger] rest[i]).len() == 0 by {
        assert(files_of_kind(items, rest[i]) == Seq::<EntryView>::empty());
    }
    lemma_catalog_without_items(rest, items);
    lemma_catalog_concat(head, rest, items);
    assert(catalog(items) =~= seq![e]);
    assert(empty_metadata_json().len() < 1000) by {
        reveal(empty_metadata_json);
        lemma_json_string_length(seq![]);
        lemma_json_string_length(seq!['v', 'e', 'r', 's', 'i', 'o', 'n']);
        lemma_json_string_length(seq!['i', 'd']);
        lemma_json_string_length(seq!['n', 'a', 'm', 'e']);
        lemma_json_string_length(seq!['a', 'u', 't', 'h', 'o', 'r']);
        lemma_json_string_length(seq!['d', 'e', 's', 'c', 'r', 'i', 'p', 't', 'i', 'o', 'n']);
        lemma_json_string_length(seq!['h', 'a', 's', 'h']);
    }
    let es = seq![e];
    assert(es.drop_last() =~= Seq::<EntryView>::empty());
    assert(names_block(Seq::<EntryView>::empty()) =~= Seq::<u8>::empty());
    assert(payload_bytes(Seq::<EntryView>::empty()) =~= Seq::<u8>::empty());
    assert(metadata_file_name().len() == 10);
    assert(names_block(es).len() == 11);
    assert(payload_bytes(es) =~= empty_metadata_json());
    assert(fits(es));
    lemma_round_trip(items);
}

} // verus!
